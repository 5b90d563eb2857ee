//! The machine that runs HDMV programs.
//!
//! Registers are a map from register number to value. Numbers with
//! [`PSR_FLAG`] set name player status registers, the others general purpose
//! registers; a register that was never written reads as zero.
use std::collections::{HashMap, HashSet};

use vstd::prelude::*;

use super::parse::{command_to_instruction, program_of};
use super::{
    Instruction, MovieObjectFile, PlayTarget, PlayerContext, BRANCH_GOTO, BRANCH_JUMP, BRANCH_PLAY,
    GRP_BRANCH, GRP_CMP, GRP_SET, PSR_FLAG, SET_BUTTON_PAGE_OPT, VM_STEP_LIMIT,
};
use crate::nav::NavigationCommand;

pub mod laws;

verus! {

broadcast use vstd::std_specs::hash::group_hash_axioms;

/// What running a button's program comes to.
#[derive(Debug, Clone, Copy, PartialEq, Eq, Structural)]
pub enum ButtonEffect {
    /// A playlist is played.
    Playlist {
        /// Playlist number.
        playlist: u16,
        /// 0 = from the start, 1 = at a mark, 2 = at a play item.
        branch_opt: u8,
        /// Mark or play item index, used when `branch_opt > 0`.
        mark_or_pi: u32,
    },
    /// Control passes to a movie object.
    GotoMobj(u32),
    /// A button and a page are selected.
    SetButtonPage {
        /// Value of the button operand, which is also a dispatch case.
        composite: u32,
        /// Value of the page operand.
        page: u32,
    },
    /// The program ended, or used up its steps, without any of these.
    Nothing,
}

// ---------------------------------------------------------------------------
// Registers
// ---------------------------------------------------------------------------

/// Whether `register` names a player status register.
pub open spec fn is_psr(register: u32) -> bool {
    register & PSR_FLAG != 0
}

/// The value of a register, zero where it was never written.
pub open spec fn read(regs: Map<u32, u32>, register: u32) -> u32 {
    if regs.contains_key(register) {
        regs[register]
    } else {
        0
    }
}

/// The value of an operand: itself if immediate, else the register's value.
/// A status register that was never written stands for the general purpose
/// register of the same number.
pub open spec fn operand(immediate: bool, raw: u32, regs: Map<u32, u32>) -> u32 {
    if immediate {
        raw
    } else if is_psr(raw) && !regs.contains_key(raw) {
        read(regs, raw & !PSR_FLAG)
    } else {
        read(regs, raw)
    }
}

/// The general purpose registers of a register file.
pub open spec fn gprs_of(regs: Map<u32, u32>) -> Map<u32, u32> {
    regs.restrict(Set::new(|r: u32| !is_psr(r)))
}

/// `regs` after the assignments, in order.
pub open spec fn assigned(regs: Map<u32, u32>, assignments: Seq<(u32, u32)>) -> Map<u32, u32>
    decreases assignments.len(),
{
    if assignments.len() == 0 {
        regs
    } else {
        assigned(regs, assignments.drop_last()).insert(assignments.last().0, assignments.last().1)
    }
}

/// `regs` with the status registers that a player context fixes.
pub open spec fn in_context(regs: Map<u32, u32>, ctx: PlayerContext) -> Map<u32, u32> {
    regs.insert(PSR_FLAG, ctx.ig_stream as u32).insert(
        PSR_FLAG | 0x0A,
        ctx.selected_button_id as u32,
    ).insert(PSR_FLAG | 0x0B, ctx.page_id as u32)
}

/// Status registers of a player that has just been switched on.
pub open spec fn first_boot() -> Map<u32, u32> {
    Map::empty().insert(PSR_FLAG | 0x01, 0xFF).insert(PSR_FLAG | 0x02, 0xFFFE).insert(
        PSR_FLAG | 0x03,
        0xFF,
    ).insert(PSR_FLAG | 0x04, 0xFFFF).insert(PSR_FLAG | 0x0A, 0xFFFF).insert(
        PSR_FLAG | 0x0C,
        0xFF,
    ).insert(PSR_FLAG | 0x0D, 0xFF).insert(PSR_FLAG | 0x0E, 0xFFFF).insert(
        PSR_FLAG | 0x0F,
        0x0002_0000,
    ).insert(PSR_FLAG | 0x1D, 0x0200).insert(PSR_FLAG | 0x1F, 0x0200)
}

// ---------------------------------------------------------------------------
// Single instructions
// ---------------------------------------------------------------------------

/// The result of a set operation on two values; `None` where it has none.
pub open spec fn set_value(opt: u8, dst: u32, src: u32) -> Option<u32> {
    if opt == 0x01 || opt == 0x02 {
        Some(src)
    } else if opt == 0x03 {
        Some(dst.wrapping_add(src))
    } else if opt == 0x04 {
        Some(dst.wrapping_sub(src))
    } else if opt == 0x05 {
        Some(dst.wrapping_mul(src))
    } else if opt == 0x06 && src != 0 {
        Some(dst / src)
    } else if opt == 0x07 && src != 0 {
        Some(dst % src)
    } else if opt == 0x08 && src != 0 {
        Some(1)
    } else if opt == 0x09 {
        Some(dst & src)
    } else if opt == 0x0A {
        Some(dst | src)
    } else if opt == 0x0B {
        Some(dst ^ src)
    } else if opt == 0x0C {
        Some(dst | 1u32.wrapping_shl(src))
    } else if opt == 0x0D {
        Some(dst & !1u32.wrapping_shl(src))
    } else if opt == 0x0E {
        Some(dst.wrapping_shl(src))
    } else if opt == 0x0F {
        Some(dst.wrapping_shr(src))
    } else {
        None
    }
}

/// The registers after a set instruction.
pub open spec fn after_set(insn: Instruction, regs: Map<u32, u32>) -> Map<u32, u32> {
    let dst = read(regs, insn.dst);
    match set_value(insn.set_opt, dst, operand(insn.imm_op2, insn.src, regs)) {
        Some(value) if insn.sub_group <= 1 => if insn.set_opt == 0x02 {
            regs.insert(insn.src, dst).insert(insn.dst, value)
        } else {
            regs.insert(insn.dst, value)
        },
        _ => regs,
    }
}

/// Whether the comparison of a compare instruction holds.
pub open spec fn comparison_holds(insn: Instruction, regs: Map<u32, u32>) -> bool {
    let dst = operand(insn.imm_op1, insn.dst, regs);
    let src = operand(insn.imm_op2, insn.src, regs);
    ||| insn.cmp_opt == 0x02 && dst == src
    ||| insn.cmp_opt == 0x03 && dst != src
    ||| insn.cmp_opt == 0x04 && dst >= src
    ||| insn.cmp_opt == 0x05 && dst > src
    ||| insn.cmp_opt == 0x06 && dst <= src
    ||| insn.cmp_opt == 0x07 && dst < src
}

/// The position `by` instructions on; the last position there is where that
/// is past it.
pub open spec fn advance(pc: usize, by: int) -> usize {
    if pc + by > usize::MAX {
        usize::MAX
    } else {
        (pc + by) as usize
    }
}

/// Where a goto leads: its target, past every program for a break, and
/// `None` where it does nothing.
pub open spec fn goto_target(insn: Instruction, regs: Map<u32, u32>) -> Option<usize> {
    if insn.branch_opt == 0x01 {
        Some(operand(insn.imm_op1, insn.dst, regs) as usize)
    } else if insn.branch_opt == 0x02 {
        Some(usize::MAX)
    } else {
        None
    }
}

/// Position and registers after an instruction that does not end the run.
pub open spec fn after(insn: Instruction, pc: usize, regs: Map<u32, u32>) -> (
    usize,
    Map<u32, u32>,
) {
    if insn.group == GRP_SET {
        (advance(pc, 1), after_set(insn, regs))
    } else if insn.group == GRP_CMP && !comparison_holds(insn, regs) {
        (advance(pc, 2), regs)
    } else if insn.group == GRP_BRANCH && insn.sub_group == BRANCH_GOTO {
        match goto_target(insn, regs) {
            Some(target) => (target, regs),
            None => (advance(pc, 1), regs),
        }
    } else {
        (advance(pc, 1), regs)
    }
}

/// Whether the instruction plays a playlist.
pub open spec fn is_play(insn: Instruction) -> bool {
    insn.group == GRP_BRANCH && insn.sub_group == BRANCH_PLAY
}

/// Whether a playlist number may be played: neither of the two reserved
/// numbers, and in `valid` unless that is empty.
pub open spec fn playable(playlist: u32, valid: Set<u32>) -> bool {
    playlist != 0 && playlist != 0xFFFF && (valid.is_empty() || valid.contains(playlist))
}

/// The low 16 bits of a number.
pub open spec fn low_u16(x: u32) -> u16 {
    (x & 0xFFFF) as u16
}

/// What a play instruction plays.
pub open spec fn target_of(insn: Instruction, regs: Map<u32, u32>) -> PlayTarget {
    PlayTarget {
        playlist: low_u16(operand(insn.imm_op1, insn.dst, regs)),
        branch_opt: insn.branch_opt,
        mark_or_pi: operand(insn.imm_op2, insn.src, regs),
    }
}

// ---------------------------------------------------------------------------
// Runs
// ---------------------------------------------------------------------------

/// A run of at most `fuel` instructions, which ends at the first play
/// instruction whose playlist is playable: what it plays, and the registers.
pub open spec fn run(
    instrs: Seq<Instruction>,
    pc: usize,
    regs: Map<u32, u32>,
    valid: Set<u32>,
    fuel: nat,
) -> (Option<PlayTarget>, Map<u32, u32>)
    decreases fuel,
{
    if fuel == 0 || pc >= instrs.len() {
        (None, regs)
    } else {
        let insn = instrs[pc as int];
        if is_play(insn) && playable(operand(insn.imm_op1, insn.dst, regs), valid) {
            (Some(target_of(insn, regs)), regs)
        } else {
            let (next_pc, next_regs) = after(insn, pc, regs);
            run(instrs, next_pc, next_regs, valid, (fuel - 1) as nat)
        }
    }
}

/// The number of steps left of a run that has made `steps` of them.
pub open spec fn steps_left(steps: u32) -> nat {
    (VM_STEP_LIMIT - steps) as nat
}

pub(crate) fn low_half(x: u32) -> (y: u16)
    ensures
        y == low_u16(x),
{
    (x & 0xFFFF) as u16
}

/// Fetches the value of an operand.
pub fn fetch_operand(is_immediate: bool, raw: u32, gprs: &HashMap<u32, u32>) -> (value: u32)
    ensures
        value == operand(is_immediate, raw, gprs@),
{
    if is_immediate {
        return raw;
    }
    if let Some(value) = gprs.get(&raw) {
        return *value;
    }
    if raw & PSR_FLAG != 0 {
        if let Some(value) = gprs.get(&(raw & !PSR_FLAG)) {
            return *value;
        }
    }
    0
}

/// Executes a set instruction.
pub fn execute_set(insn: &Instruction, gprs: &mut HashMap<u32, u32>)
    ensures
        final(gprs)@ == after_set(*insn, old(gprs)@),
{
    if insn.sub_group > 1 {
        return;
    }
    let src: u32 = fetch_operand(insn.imm_op2, insn.src, gprs);
    let dst: u32 = match gprs.get(&insn.dst) {
        Some(value) => *value,
        None => 0,
    };
    let opt: u8 = insn.set_opt;
    let result: u32 = if opt == 0x01 {
        src
    } else if opt == 0x02 {
        gprs.insert(insn.src, dst);
        src
    } else if opt == 0x03 {
        dst.wrapping_add(src)
    } else if opt == 0x04 {
        dst.wrapping_sub(src)
    } else if opt == 0x05 {
        dst.wrapping_mul(src)
    } else if opt == 0x06 && src != 0 {
        dst / src
    } else if opt == 0x07 && src != 0 {
        dst % src
    } else if opt == 0x08 && src != 0 {
        1
    } else if opt == 0x09 {
        dst & src
    } else if opt == 0x0A {
        dst | src
    } else if opt == 0x0B {
        dst ^ src
    } else if opt == 0x0C {
        dst | 1u32.wrapping_shl(src)
    } else if opt == 0x0D {
        dst & !1u32.wrapping_shl(src)
    } else if opt == 0x0E {
        dst.wrapping_shl(src)
    } else if opt == 0x0F {
        dst.wrapping_shr(src)
    } else {
        return;
    };
    gprs.insert(insn.dst, result);
}

/// Executes a compare instruction and returns whether the comparison holds.
pub fn execute_cmp(insn: &Instruction, gprs: &HashMap<u32, u32>) -> (holds: bool)
    ensures
        holds == comparison_holds(*insn, gprs@),
{
    let dst: u32 = fetch_operand(insn.imm_op1, insn.dst, gprs);
    let src: u32 = fetch_operand(insn.imm_op2, insn.src, gprs);
    match insn.cmp_opt {
        0x02 => dst == src,
        0x03 => dst != src,
        0x04 => dst >= src,
        0x05 => dst > src,
        0x06 => dst <= src,
        0x07 => dst < src,
        _ => false,
    }
}

/// Executes a goto. Returns whether it branched and so set `pc`.
pub fn execute_goto(insn: &Instruction, gprs: &HashMap<u32, u32>, pc: &mut usize) -> (taken: bool)
    ensures
        taken == goto_target(*insn, gprs@) is Some,
        *final(pc) == match goto_target(*insn, gprs@) {
            Some(target) => target,
            None => *old(pc),
        },
{
    match insn.branch_opt {
        0x01 => {
            let target: u32 = fetch_operand(insn.imm_op1, insn.dst, gprs);
            *pc = target as usize;
            true
        },
        0x02 => {
            *pc = usize::MAX;
            true
        },
        _ => false,
    }
}

/// Executes an instruction that does not end the run.
fn step(insn: &Instruction, gprs: &mut HashMap<u32, u32>, pc: &mut usize)
    ensures
        (*final(pc), final(gprs)@) == after(*insn, *old(pc), old(gprs)@),
{
    if insn.group == GRP_SET {
        execute_set(insn, gprs);
        *pc = pc.saturating_add(1);
    } else if insn.group == GRP_CMP {
        if execute_cmp(insn, gprs) {
            *pc = pc.saturating_add(1);
        } else {
            *pc = pc.saturating_add(2);
        }
    } else if insn.group == GRP_BRANCH && insn.sub_group == BRANCH_GOTO {
        if !execute_goto(insn, gprs, pc) {
            *pc = pc.saturating_add(1);
        }
    } else {
        *pc = pc.saturating_add(1);
    }
}

/// Whether a playlist number may be played.
pub fn is_playable(playlist: u32, valid_playlists: &HashSet<u32>) -> (ok: bool)
    ensures
        ok == playable(playlist, valid_playlists@),
{
    playlist != 0 && playlist != 0xFFFF && (valid_playlists.is_empty()
        || valid_playlists.contains(&playlist))
}

/// Runs a program from `start_pc` until it plays a valid playlist, ends, or
/// has made [`VM_STEP_LIMIT`] steps. An empty `valid_playlists` accepts every
/// playlist number that is not reserved.
pub fn run_mobj_vm(
    instrs: &[Instruction],
    start_pc: usize,
    gprs: &mut HashMap<u32, u32>,
    valid_playlists: &HashSet<u32>,
) -> (target: Option<PlayTarget>)
    ensures
        (target, final(gprs)@) == run(
            instrs@,
            start_pc,
            old(gprs)@,
            valid_playlists@,
            VM_STEP_LIMIT as nat,
        ),
{
    let mut pc: usize = start_pc;
    let mut steps: u32 = 0;
    while pc < instrs.len() && steps < VM_STEP_LIMIT
        invariant
            steps <= VM_STEP_LIMIT,
            run(instrs@, pc, gprs@, valid_playlists@, steps_left(steps)) == run(
                instrs@,
                start_pc,
                old(gprs)@,
                valid_playlists@,
                VM_STEP_LIMIT as nat,
            ),
        decreases VM_STEP_LIMIT - steps,
    {
        steps = steps + 1;
        let insn: &Instruction = &instrs[pc];
        if insn.group == GRP_BRANCH && insn.sub_group == BRANCH_PLAY {
            let playlist: u32 = fetch_operand(insn.imm_op1, insn.dst, gprs);
            if is_playable(playlist, valid_playlists) {
                let mark_or_pi: u32 = fetch_operand(insn.imm_op2, insn.src, gprs);
                return Some(
                    PlayTarget {
                        playlist: low_half(playlist),
                        branch_opt: insn.branch_opt,
                        mark_or_pi,
                    },
                );
            }
        }
        step(insn, gprs, &mut pc);
    }
    None
}

// ---------------------------------------------------------------------------
// Register files
// ---------------------------------------------------------------------------

/// The numbers of the registers that were written.
fn written(regs: &HashMap<u32, u32>) -> (numbers: Vec<u32>)
    ensures
        numbers@.to_set() == regs@.dom(),
{
    let mut numbers: Vec<u32> = Vec::new();
    for k in keys: regs.keys()
        invariant
            keys.seq().unref().to_set() == regs@.dom(),
            numbers@ == keys.seq().unref().take(keys.index()),
            keys.index() == keys.seq().len() ==> numbers@ == keys.seq().unref(),
    {
        numbers.push(*k);
    }
    numbers
}

/// Copies the general purpose registers of a register file.
pub fn keep_gprs(regs: &HashMap<u32, u32>) -> (gprs: HashMap<u32, u32>)
    ensures
        gprs@ == gprs_of(regs@),
{
    let numbers: Vec<u32> = written(regs);
    let mut gprs: HashMap<u32, u32> = HashMap::new();
    let mut i: usize = 0;
    while i < numbers.len()
        invariant
            i <= numbers.len(),
            numbers@.to_set() == regs@.dom(),
            gprs@ == gprs_of(regs@).restrict(numbers@.take(i as int).to_set()),
        decreases numbers.len() - i,
    {
        let k: u32 = numbers[i];
        assert(numbers@.to_set().contains(k));
        if k & PSR_FLAG == 0 {
            if let Some(v) = regs.get(&k) {
                gprs.insert(k, *v);
            }
        }
        proof {
            assert(numbers@.take(i + 1) =~= numbers@.take(i as int).push(k));
            numbers@.take(i as int).lemma_push_to_set_commute(k);
        }
        i = i + 1;
    }
    proof {
        assert(numbers@.take(i as int) =~= numbers@);
        assert(gprs_of(regs@).restrict(numbers@.to_set()) =~= gprs_of(regs@));
    }
    gprs
}

/// Whether two register files hold the same.
pub fn same_registers(a: &HashMap<u32, u32>, b: &HashMap<u32, u32>) -> (same: bool)
    ensures
        same == (a@ == b@),
{
    if a.len() != b.len() {
        return false;
    }
    let numbers: Vec<u32> = written(a);
    let mut i: usize = 0;
    while i < numbers.len()
        invariant
            i <= numbers.len(),
            numbers@.to_set() == a@.dom(),
            forall|j: int|
                0 <= j < i ==> b@.contains_key(#[trigger] numbers@[j]) && b@[numbers@[j]]
                    == a@[numbers@[j]],
        decreases numbers.len() - i,
    {
        let k: u32 = numbers[i];
        assert(numbers@.to_set().contains(k));
        match (a.get(&k), b.get(&k)) {
            (Some(x), Some(y)) => {
                if *x != *y {
                    return false;
                }
            },
            _ => {
                return false;
            },
        }
        i = i + 1;
    }
    proof {
        assert forall|r: u32| a@.contains_key(r) implies b@.contains_key(r) && b@[r] == a@[r] by {
            assert(numbers@.to_set().contains(r));
            let j = choose|j: int| 0 <= j < numbers@.len() && numbers@[j] == r;
            assert(b@.contains_key(numbers@[j]));
        }
        assert(a@.dom().subset_of(b@.dom()));
        vstd::set_lib::lemma_subset_equality(a@.dom(), b@.dom());
        assert(a@ =~= b@);
    }
    true
}

/// Applies assignments to a register file, in order.
fn assign(gprs: &mut HashMap<u32, u32>, assignments: &[(u32, u32)])
    ensures
        final(gprs)@ == assigned(old(gprs)@, assignments@),
{
    let mut i: usize = 0;
    while i < assignments.len()
        invariant
            i <= assignments.len(),
            gprs@ == assigned(old(gprs)@, assignments@.take(i as int)),
        decreases assignments.len() - i,
    {
        let a: (u32, u32) = assignments[i];
        gprs.insert(a.0, a.1);
        proof {
            assert(assignments@.take(i + 1).drop_last() =~= assignments@.take(i as int));
        }
        i = i + 1;
    }
    proof {
        assert(assignments@.take(i as int) =~= assignments@);
    }
}

/// Sets the status registers that a player context fixes.
fn enter_context(gprs: &mut HashMap<u32, u32>, ctx: &PlayerContext)
    ensures
        final(gprs)@ == in_context(old(gprs)@, *ctx),
{
    gprs.insert(PSR_FLAG, ctx.ig_stream as u32);
    gprs.insert(PSR_FLAG | 0x0A, ctx.selected_button_id as u32);
    gprs.insert(PSR_FLAG | 0x0B, ctx.page_id as u32);
}

// ---------------------------------------------------------------------------
// First play
// ---------------------------------------------------------------------------

/// The general purpose registers that the first movie object leaves behind
/// when it runs on a player just switched on and nothing that it plays stops
/// it; none where there is no movie object.
pub open spec fn seeded(file: MovieObjectFile) -> Map<u32, u32> {
    if file.objects@.len() == 0 {
        Map::empty()
    } else {
        gprs_of(
            run(
                file.objects@[0].instructions@,
                0,
                first_boot(),
                set![u32::MAX],
                VM_STEP_LIMIT as nat,
            ).1,
        )
    }
}

/// Runs the first movie object and returns the general purpose registers
/// that it leaves behind. Its play instructions are passed over, so that all
/// of its initialisation takes effect.
#[must_use]
pub fn seed_gpr_state(mobj_file: &MovieObjectFile) -> (gprs: HashMap<u32, u32>)
    ensures
        gprs@ == seeded(*mobj_file),
{
    if mobj_file.objects.is_empty() {
        return HashMap::new();
    }
    let mut regs: HashMap<u32, u32> = HashMap::new();
    regs.insert(PSR_FLAG | 0x01, 0xFF);
    regs.insert(PSR_FLAG | 0x02, 0xFFFE);
    regs.insert(PSR_FLAG | 0x03, 0xFF);
    regs.insert(PSR_FLAG | 0x04, 0xFFFF);
    regs.insert(PSR_FLAG | 0x0A, 0xFFFF);
    regs.insert(PSR_FLAG | 0x0C, 0xFF);
    regs.insert(PSR_FLAG | 0x0D, 0xFF);
    regs.insert(PSR_FLAG | 0x0E, 0xFFFF);
    regs.insert(PSR_FLAG | 0x0F, 0x0002_0000);
    regs.insert(PSR_FLAG | 0x1D, 0x0200);
    regs.insert(PSR_FLAG | 0x1F, 0x0200);
    let mut unplayable: HashSet<u32> = HashSet::new();
    unplayable.insert(u32::MAX);
    assert(unplayable@ =~= set![u32::MAX]);
    run_mobj_vm(&mobj_file.objects[0].instructions, 0, &mut regs, &unplayable);
    keep_gprs(&regs)
}

// ---------------------------------------------------------------------------
// Button programs
// ---------------------------------------------------------------------------

/// What an instruction of a button's program comes to if it ends the program.
pub open spec fn effect_of(insn: Instruction, regs: Map<u32, u32>) -> ButtonEffect {
    if insn.group == GRP_SET && insn.sub_group == 1 && insn.set_opt == SET_BUTTON_PAGE_OPT {
        ButtonEffect::SetButtonPage {
            composite: operand(insn.imm_op1, insn.dst, regs),
            page: operand(insn.imm_op2, insn.src, regs),
        }
    } else if is_play(insn) {
        let target = target_of(insn, regs);
        ButtonEffect::Playlist {
            playlist: target.playlist,
            branch_opt: target.branch_opt,
            mark_or_pi: target.mark_or_pi,
        }
    } else if insn.group == GRP_BRANCH && insn.sub_group == BRANCH_JUMP {
        ButtonEffect::GotoMobj(operand(insn.imm_op1, insn.dst, regs))
    } else {
        ButtonEffect::Nothing
    }
}

/// A run of at most `fuel` instructions of a button's program: what it comes
/// to, and the registers at that point.
pub open spec fn run_button(
    instrs: Seq<Instruction>,
    pc: usize,
    regs: Map<u32, u32>,
    fuel: nat,
) -> (ButtonEffect, Map<u32, u32>)
    decreases fuel,
{
    if fuel == 0 || pc >= instrs.len() {
        (ButtonEffect::Nothing, regs)
    } else {
        let insn = instrs[pc as int];
        if effect_of(insn, regs) != ButtonEffect::Nothing {
            (effect_of(insn, regs), regs)
        } else {
            let (next_pc, next_regs) = after(insn, pc, regs);
            run_button(instrs, next_pc, next_regs, (fuel - 1) as nat)
        }
    }
}

/// What activating a button comes to, and the registers afterwards.
pub open spec fn activated(
    commands: Seq<NavigationCommand>,
    ctx: PlayerContext,
    regs: Map<u32, u32>,
) -> (ButtonEffect, Map<u32, u32>) {
    run_button(program_of(commands), 0, in_context(regs, ctx), VM_STEP_LIMIT as nat)
}

/// Runs a button's program and returns what it comes to, with the registers
/// at that point.
pub fn execute_button_commands(
    commands: &[NavigationCommand],
    ctx: &PlayerContext,
    initial_gprs: &HashMap<u32, u32>,
) -> (result: (ButtonEffect, HashMap<u32, u32>))
    ensures
        (result.0, result.1@) == activated(commands@, *ctx, initial_gprs@),
{
    let mut instrs: Vec<Instruction> = Vec::new();
    let mut i: usize = 0;
    while i < commands.len()
        invariant
            i <= commands.len(),
            instrs@ == program_of(commands@.take(i as int)),
        decreases commands.len() - i,
    {
        instrs.push(command_to_instruction(&commands[i]));
        proof {
            assert(commands@.take(i + 1) =~= commands@.take(i as int).push(commands@[i as int]));
        }
        i = i + 1;
    }
    proof {
        assert(commands@.take(i as int) =~= commands@);
    }
    let mut gprs: HashMap<u32, u32> = initial_gprs.clone();
    enter_context(&mut gprs, ctx);
    let mut pc: usize = 0;
    let mut steps: u32 = 0;
    while pc < instrs.len() && steps < VM_STEP_LIMIT
        invariant
            steps <= VM_STEP_LIMIT,
            run_button(instrs@, pc, gprs@, steps_left(steps)) == activated(
                commands@,
                *ctx,
                initial_gprs@,
            ),
        decreases VM_STEP_LIMIT - steps,
    {
        steps = steps + 1;
        let insn: Instruction = instrs[pc];
        if insn.group == GRP_SET && insn.sub_group == 1 && insn.set_opt == SET_BUTTON_PAGE_OPT {
            let composite: u32 = fetch_operand(insn.imm_op1, insn.dst, &gprs);
            let page: u32 = fetch_operand(insn.imm_op2, insn.src, &gprs);
            return (ButtonEffect::SetButtonPage { composite, page }, gprs);
        }
        if insn.group == GRP_BRANCH && insn.sub_group == BRANCH_PLAY {
            let playlist: u32 = fetch_operand(insn.imm_op1, insn.dst, &gprs);
            let mark_or_pi: u32 = fetch_operand(insn.imm_op2, insn.src, &gprs);
            let effect: ButtonEffect = ButtonEffect::Playlist {
                playlist: low_half(playlist),
                branch_opt: insn.branch_opt,
                mark_or_pi,
            };
            return (effect, gprs);
        }
        if insn.group == GRP_BRANCH && insn.sub_group == BRANCH_JUMP {
            let object_id: u32 = fetch_operand(insn.imm_op1, insn.dst, &gprs);
            return (ButtonEffect::GotoMobj(object_id), gprs);
        }
        step(&insn, &mut gprs, &mut pc);
    }
    (ButtonEffect::Nothing, gprs)
}

// ---------------------------------------------------------------------------
// Runs on behalf of a button
// ---------------------------------------------------------------------------

/// What a program plays when it runs from `pc` with a button's assignments.
pub open spec fn played_from(
    instrs: Seq<Instruction>,
    pc: usize,
    assignments: Seq<(u32, u32)>,
    valid: Set<u32>,
    ctx: PlayerContext,
) -> Option<PlayTarget> {
    run(
        instrs,
        pc,
        in_context(assigned(Map::empty(), assignments), ctx),
        valid,
        VM_STEP_LIMIT as nat,
    ).0
}

/// Runs a program from `start_pc` with a button's assignments.
pub fn execute_from(
    instrs: &[Instruction],
    start_pc: usize,
    gpr_assignments: &[(u32, u32)],
    valid_playlists: &HashSet<u32>,
    ctx: &PlayerContext,
) -> (target: Option<PlayTarget>)
    ensures
        target == played_from(instrs@, start_pc, gpr_assignments@, valid_playlists@, *ctx),
{
    let mut gprs: HashMap<u32, u32> = HashMap::new();
    assign(&mut gprs, gpr_assignments);
    enter_context(&mut gprs, ctx);
    run_mobj_vm(instrs, start_pc, &mut gprs, valid_playlists)
}

/// The playable playlists that a run of at most `fuel` instructions meets, in
/// order, when each play instruction only suspends the program and a button
/// makes its assignments again before it resumes.
pub open spec fn trace(
    instrs: Seq<Instruction>,
    pc: usize,
    regs: Map<u32, u32>,
    assignments: Seq<(u32, u32)>,
    valid: Set<u32>,
    fuel: nat,
) -> Seq<u16>
    decreases fuel,
{
    if fuel == 0 || pc >= instrs.len() {
        seq![]
    } else {
        let insn = instrs[pc as int];
        if is_play(insn) {
            let playlist = operand(insn.imm_op1, insn.dst, regs);
            let rest = trace(
                instrs,
                advance(pc, 1),
                assigned(regs, assignments),
                assignments,
                valid,
                (fuel - 1) as nat,
            );
            if playable(playlist, valid) {
                seq![low_u16(playlist)] + rest
            } else {
                rest
            }
        } else {
            let (next_pc, next_regs) = after(insn, pc, regs);
            trace(instrs, next_pc, next_regs, assignments, valid, (fuel - 1) as nat)
        }
    }
}

/// The playlists of a full run from the start of a program.
pub open spec fn traced(
    instrs: Seq<Instruction>,
    assignments: Seq<(u32, u32)>,
    valid: Set<u32>,
    ctx: PlayerContext,
) -> Seq<u16> {
    trace(
        instrs,
        0,
        in_context(assigned(Map::empty(), assignments), ctx),
        assignments,
        valid,
        VM_STEP_LIMIT as nat,
    )
}

/// Lists the playable playlists that a program meets when each play
/// instruction only suspends it and the button's assignments are made again
/// before it resumes.
pub fn trace_play_pls(
    instrs: &[Instruction],
    gpr_assignments: &[(u32, u32)],
    valid_playlists: &HashSet<u32>,
    ctx: &PlayerContext,
) -> (playlists: Vec<u16>)
    ensures
        playlists@ == traced(instrs@, gpr_assignments@, valid_playlists@, *ctx),
{
    let mut gprs: HashMap<u32, u32> = HashMap::new();
    assign(&mut gprs, gpr_assignments);
    enter_context(&mut gprs, ctx);
    let mut playlists: Vec<u16> = Vec::new();
    let mut pc: usize = 0;
    let mut steps: u32 = 0;
    while pc < instrs.len() && steps < VM_STEP_LIMIT
        invariant
            steps <= VM_STEP_LIMIT,
            playlists@ + trace(
                instrs@,
                pc,
                gprs@,
                gpr_assignments@,
                valid_playlists@,
                steps_left(steps),
            ) == traced(instrs@, gpr_assignments@, valid_playlists@, *ctx),
        decreases VM_STEP_LIMIT - steps,
    {
        let ghost before = playlists@;
        let ghost rest = trace(
            instrs@,
            pc,
            gprs@,
            gpr_assignments@,
            valid_playlists@,
            steps_left(steps),
        );
        steps = steps + 1;
        let insn: &Instruction = &instrs[pc];
        if insn.group == GRP_BRANCH && insn.sub_group == BRANCH_PLAY {
            let playlist: u32 = fetch_operand(insn.imm_op1, insn.dst, &gprs);
            if is_playable(playlist, valid_playlists) {
                playlists.push(low_half(playlist));
                proof {
                    assert(before + rest =~= playlists@ + rest.skip(1));
                    assert(rest.skip(1) =~= trace(
                        instrs@,
                        advance(pc, 1),
                        assigned(gprs@, gpr_assignments@),
                        gpr_assignments@,
                        valid_playlists@,
                        steps_left(steps),
                    ));
                }
            }
            assign(&mut gprs, gpr_assignments);
            pc = pc.saturating_add(1);
        } else {
            step(insn, &mut gprs, &mut pc);
        }
    }
    proof {
        assert(playlists@ + Seq::<u16>::empty() =~= playlists@);
    }
    playlists
}

// ---------------------------------------------------------------------------
// Laws
// ---------------------------------------------------------------------------

/// A run that plays something is not changed by more steps.
pub proof fn law_longer_runs_agree(
    instrs: Seq<Instruction>,
    pc: usize,
    regs: Map<u32, u32>,
    valid: Set<u32>,
    fuel: nat,
    more: nat,
)
    requires
        run(instrs, pc, regs, valid, fuel).0 is Some,
    ensures
        run(instrs, pc, regs, valid, fuel + more) == run(instrs, pc, regs, valid, fuel),
    decreases fuel,
{
    if fuel > 0 && pc < instrs.len() {
        let insn = instrs[pc as int];
        if !(is_play(insn) && playable(operand(insn.imm_op1, insn.dst, regs), valid)) {
            let (next_pc, next_regs) = after(insn, pc, regs);
            law_longer_runs_agree(instrs, next_pc, next_regs, valid, (fuel - 1) as nat, more);
        }
    }
}

/// A run plays only what may be played: the number read by its play
/// instruction, of which the low half is the playlist.
pub proof fn law_runs_play_playable(
    instrs: Seq<Instruction>,
    pc: usize,
    regs: Map<u32, u32>,
    valid: Set<u32>,
    fuel: nat,
)
    ensures
        run(instrs, pc, regs, valid, fuel).0 matches Some(t) ==> exists|x: u32|
            playable(x, valid) && t.playlist == #[trigger] low_u16(x),
    decreases fuel,
{
    if fuel > 0 && pc < instrs.len() {
        let insn = instrs[pc as int];
        let x = operand(insn.imm_op1, insn.dst, regs);
        if is_play(insn) && playable(x, valid) {
            assert(target_of(insn, regs).playlist == low_u16(x));
        } else {
            let (next_pc, next_regs) = after(insn, pc, regs);
            law_runs_play_playable(instrs, next_pc, next_regs, valid, (fuel - 1) as nat);
        }
    }
}

/// What the first movie object leaves behind is in general purpose registers
/// only: no status register of the start is carried on.
pub proof fn law_seed_has_no_status_registers(file: MovieObjectFile, register: u32)
    requires
        is_psr(register),
    ensures
        !seeded(file).contains_key(register),
{
}

/// A button sees the player as its context says: its own number, its page and
/// its stream are in the status registers, whatever was there before.
pub proof fn law_context_is_seen(regs: Map<u32, u32>, ctx: PlayerContext)
    ensures
        operand(false, PSR_FLAG, in_context(regs, ctx)) == ctx.ig_stream,
        operand(false, PSR_FLAG | 0x0A, in_context(regs, ctx)) == ctx.selected_button_id,
        operand(false, PSR_FLAG | 0x0B, in_context(regs, ctx)) == ctx.page_id,
        forall|r: u32|
            !is_psr(r) ==> #[trigger] operand(false, r, in_context(regs, ctx)) == operand(
                false,
                r,
                regs,
            ),
{
    assert(0x8000_0000u32 & 0x8000_0000u32 != 0) by (bit_vector);
    assert((0x8000_0000u32 | 0x0Au32) & 0x8000_0000u32 != 0) by (bit_vector);
    assert((0x8000_0000u32 | 0x0Bu32) & 0x8000_0000u32 != 0) by (bit_vector);
    assert((0x8000_0000u32 | 0x0Au32) != 0x8000_0000u32) by (bit_vector);
    assert((0x8000_0000u32 | 0x0Bu32) != 0x8000_0000u32) by (bit_vector);
    assert((0x8000_0000u32 | 0x0Au32) != (0x8000_0000u32 | 0x0Bu32)) by (bit_vector);
}

} // verus!
