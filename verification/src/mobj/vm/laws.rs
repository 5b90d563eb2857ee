//! Laws of the machine: operands, single instructions, whole runs, and the
//! registers that the first movie object leaves behind.
use vstd::prelude::*;

use super::{
    activated, after, after_set, assigned, comparison_holds, first_boot, goto_target, gprs_of,
    in_context, is_play, is_psr, low_u16, operand, playable, played_from, run, run_button, seeded,
    trace, traced, ButtonEffect,
};
use crate::mobj::parse::{instruction_of, program_of};
use crate::mobj::{Instruction, MovieObjectFile, PlayTarget, PlayerContext, VM_STEP_LIMIT};
use crate::nav::NavigationCommand;

verus! {

// ---------------------------------------------------------------------------
// Operands
// ---------------------------------------------------------------------------

/// The number that an operand stands for. Register numbers from 2^31 on name
/// status registers; one that was never written stands for the general purpose
/// register whose number is 2^31 less. Other registers start at zero.
pub open spec fn value_of(immediate: bool, raw: u32, regs: Map<u32, u32>) -> u32 {
    if immediate {
        raw
    } else if regs.contains_key(raw) {
        regs[raw]
    } else if raw >= 0x8000_0000 && regs.contains_key((raw - 0x8000_0000) as u32) {
        regs[(raw - 0x8000_0000) as u32]
    } else {
        0
    }
}

/// Whether a playlist number is accepted: neither 0 nor 65535, and one of
/// `valid` if there are any.
pub open spec fn accepted(number: u32, valid: Set<u32>) -> bool {
    number != 0 && number != 65535 && (valid == Set::<u32>::empty() || valid.contains(number))
}

pub(crate) proof fn lemma_flag_bit(raw: u32)
    ensures
        is_psr(raw) <==> raw >= 0x8000_0000,
        raw >= 0x8000_0000 ==> raw & !0x8000_0000u32 == raw - 0x8000_0000,
{
    assert(raw & 0x8000_0000u32 != 0 <==> raw >= 0x8000_0000u32) by (bit_vector);
    assert(raw >= 0x8000_0000u32 ==> raw & !0x8000_0000u32 == raw - 0x8000_0000u32) by (bit_vector);
}

pub(crate) proof fn lemma_low_half(x: u32)
    ensures
        low_u16(x) == x % 0x1_0000,
{
    assert((x & 0xFFFF) as u16 == x % 0x1_0000u32) by (bit_vector);
}

pub(crate) proof fn lemma_accepted(number: u32, valid: Set<u32>)
    ensures
        playable(number, valid) == accepted(number, valid),
{
    if valid.is_empty() {
        assert(valid =~= Set::<u32>::empty());
    }
}

/// An operand stands for itself if it is immediate, else for what the register
/// holds that it names.
pub proof fn law_operand_values(immediate: bool, raw: u32, regs: Map<u32, u32>)
    ensures
        operand(immediate, raw, regs) == value_of(immediate, raw, regs),
{
    lemma_flag_bit(raw);
}

/// A number may be played exactly if it is accepted.
pub proof fn law_accepted_numbers(number: u32, valid: Set<u32>)
    ensures
        playable(number, valid) <==> number != 0 && number != 65535 && (valid
            == Set::<u32>::empty() || valid.contains(number)),
{
    lemma_accepted(number, valid);
}

// ---------------------------------------------------------------------------
// Set, compare and goto
// ---------------------------------------------------------------------------

/// What a set instruction leaves in the registers, operation by operation:
/// arithmetic is modulo 2^32, a division by zero and an unknown operation do
/// nothing, and shifts count modulo 32. No other register changes.
pub proof fn law_set_results(insn: Instruction, regs: Map<u32, u32>)
    ensures
        ({
            let d = if regs.contains_key(insn.dst) {
                regs[insn.dst]
            } else {
                0u32
            };
            let s = value_of(insn.imm_op2, insn.src, regs);
            let now = after_set(insn, regs);
            let m = 0x1_0000_0000int;
            if insn.sub_group > 1 {
                now == regs
            } else {
                &&& insn.set_opt == 1 ==> now == regs.insert(insn.dst, s)
                &&& insn.set_opt == 2 ==> now == regs.insert(insn.src, d).insert(insn.dst, s)
                &&& insn.set_opt == 3 ==> now == regs.insert(insn.dst, ((d + s) % m) as u32)
                &&& insn.set_opt == 4 ==> now == regs.insert(insn.dst, ((d - s) % m) as u32)
                &&& insn.set_opt == 5 ==> now == regs.insert(insn.dst, ((d * s) % m) as u32)
                &&& insn.set_opt == 6 && s > 0 ==> now == regs.insert(insn.dst, d / s)
                &&& insn.set_opt == 7 && s > 0 ==> now == regs.insert(insn.dst, d % s)
                &&& insn.set_opt == 8 && s > 0 ==> now == regs.insert(insn.dst, 1)
                &&& 6 <= insn.set_opt <= 8 && s == 0 ==> now == regs
                &&& insn.set_opt == 9 ==> now == regs.insert(insn.dst, d & s)
                &&& insn.set_opt == 10 ==> now == regs.insert(insn.dst, d | s)
                &&& insn.set_opt == 11 ==> now == regs.insert(insn.dst, d ^ s)
                &&& insn.set_opt == 12 ==> now == regs.insert(insn.dst, d | (1u32 << (s % 32)))
                &&& insn.set_opt == 13 ==> now == regs.insert(insn.dst, d & !(1u32 << (s % 32)))
                &&& insn.set_opt == 14 ==> now == regs.insert(insn.dst, d << (s % 32))
                &&& insn.set_opt == 15 ==> now == regs.insert(insn.dst, d >> (s % 32))
                &&& insn.set_opt == 0 || insn.set_opt > 15 ==> now == regs
            }
        }),
{
    law_operand_values(insn.imm_op2, insn.src, regs);
}

/// Which comparisons hold: of the values of the two operands, by the number of
/// the comparison.
pub proof fn law_comparisons(insn: Instruction, regs: Map<u32, u32>)
    ensures
        ({
            let a = value_of(insn.imm_op1, insn.dst, regs);
            let b = value_of(insn.imm_op2, insn.src, regs);
            let holds = comparison_holds(insn, regs);
            &&& insn.cmp_opt == 2 ==> (holds <==> a == b)
            &&& insn.cmp_opt == 3 ==> (holds <==> a != b)
            &&& insn.cmp_opt == 4 ==> (holds <==> a >= b)
            &&& insn.cmp_opt == 5 ==> (holds <==> a > b)
            &&& insn.cmp_opt == 6 ==> (holds <==> a <= b)
            &&& insn.cmp_opt == 7 ==> (holds <==> a < b)
            &&& insn.cmp_opt < 2 || insn.cmp_opt > 7 ==> !holds
        }),
{
    law_operand_values(insn.imm_op1, insn.dst, regs);
    law_operand_values(insn.imm_op2, insn.src, regs);
}

/// Where a goto leads: option 1 to the value of its operand, option 2 past
/// every program, any other nowhere.
pub proof fn law_goto_targets(insn: Instruction, regs: Map<u32, u32>)
    ensures
        insn.branch_opt == 1 ==> goto_target(insn, regs) == Some(
            value_of(insn.imm_op1, insn.dst, regs) as usize,
        ),
        insn.branch_opt == 2 ==> goto_target(insn, regs) == Some(usize::MAX),
        insn.branch_opt != 1 && insn.branch_opt != 2 ==> goto_target(insn, regs) is None,
{
    law_operand_values(insn.imm_op1, insn.dst, regs);
}

/// Where the machine is after an instruction that does not end the run. Group
/// 2 sets registers. Group 1 compares, and skips the next instruction if the
/// comparison fails. A goto of group 0 leads to its target. Everything else
/// only goes on to the next instruction, and only group 2 changes registers.
pub proof fn law_single_steps(insn: Instruction, pc: usize, regs: Map<u32, u32>)
    requires
        pc + 2 <= usize::MAX,
    ensures
        ({
            let (next, now) = after(insn, pc, regs);
            &&& insn.group == 2 ==> next == pc + 1 && now == after_set(insn, regs)
            &&& insn.group != 2 ==> now == regs
            &&& insn.group == 1 && comparison_holds(insn, regs) ==> next == pc + 1
            &&& insn.group == 1 && !comparison_holds(insn, regs) ==> next == pc + 2
            &&& insn.group == 0 && insn.sub_group == 0 && insn.branch_opt == 1 ==> next
                == value_of(insn.imm_op1, insn.dst, regs)
            &&& insn.group == 0 && insn.sub_group == 0 && insn.branch_opt == 2 ==> next
                == usize::MAX
            &&& insn.group == 0 && insn.sub_group == 0 && insn.branch_opt != 1 && insn.branch_opt
                != 2 ==> next == pc + 1
            &&& insn.group == 0 && insn.sub_group != 0 ==> next == pc + 1
            &&& insn.group > 2 ==> next == pc + 1
        }),
{
    law_goto_targets(insn, regs);
}

// ---------------------------------------------------------------------------
// Runs
// ---------------------------------------------------------------------------

/// A play instruction with an accepted number ends a run at once. The run
/// gives the low half of the number, the branch option of the instruction and
/// the value of its second operand, and leaves the registers alone.
pub proof fn law_play_ends_run(
    instrs: Seq<Instruction>,
    pc: usize,
    regs: Map<u32, u32>,
    valid: Set<u32>,
    fuel: nat,
)
    requires
        pc < instrs.len(),
        fuel > 0,
        instrs[pc as int].group == 0,
        instrs[pc as int].sub_group == 2,
        accepted(value_of(instrs[pc as int].imm_op1, instrs[pc as int].dst, regs), valid),
    ensures
        ({
            let insn = instrs[pc as int];
            run(instrs, pc, regs, valid, fuel) == (
                Some(
                    PlayTarget {
                        playlist: (value_of(insn.imm_op1, insn.dst, regs) % 0x1_0000) as u16,
                        branch_opt: insn.branch_opt,
                        mark_or_pi: value_of(insn.imm_op2, insn.src, regs),
                    },
                ),
                regs,
            )
        }),
{
    let insn = instrs[pc as int];
    let number = value_of(insn.imm_op1, insn.dst, regs);
    law_operand_values(insn.imm_op1, insn.dst, regs);
    law_operand_values(insn.imm_op2, insn.src, regs);
    lemma_accepted(number, valid);
    lemma_low_half(number);
}

/// Whatever else stands at a place, a run goes on from there with one step
/// less: behind a play instruction whose number is not accepted too.
pub proof fn law_run_goes_on(
    instrs: Seq<Instruction>,
    pc: usize,
    regs: Map<u32, u32>,
    valid: Set<u32>,
    fuel: nat,
)
    requires
        pc < instrs.len(),
        pc < usize::MAX,
        fuel > 0,
    ensures
        ({
            let insn = instrs[pc as int];
            let (next, now) = after(insn, pc, regs);
            let plays = insn.group == 0 && insn.sub_group == 2;
            let number = value_of(insn.imm_op1, insn.dst, regs);
            &&& !plays ==> run(instrs, pc, regs, valid, fuel) == run(
                instrs,
                next,
                now,
                valid,
                (fuel - 1) as nat,
            )
            &&& plays && !accepted(number, valid) ==> run(instrs, pc, regs, valid, fuel) == run(
                instrs,
                (pc + 1) as usize,
                regs,
                valid,
                (fuel - 1) as nat,
            )
        }),
{
    let insn = instrs[pc as int];
    law_operand_values(insn.imm_op1, insn.dst, regs);
    lemma_accepted(value_of(insn.imm_op1, insn.dst, regs), valid);
}

/// A run that plays something ended at a play instruction of the program. The
/// registers that it left behind are those that the instruction read: they
/// give the number, which is accepted, and the mark or play item.
pub proof fn law_run_reads_last_registers(
    instrs: Seq<Instruction>,
    pc: usize,
    regs: Map<u32, u32>,
    valid: Set<u32>,
    fuel: nat,
)
    requires
        run(instrs, pc, regs, valid, fuel).0 is Some,
    ensures
        ({
            let (target, left) = run(instrs, pc, regs, valid, fuel);
            exists|k: int|
                {
                    &&& 0 <= k < instrs.len()
                    &&& (#[trigger] instrs[k]).group == 0
                    &&& instrs[k].sub_group == 2
                    &&& accepted(value_of(instrs[k].imm_op1, instrs[k].dst, left), valid)
                    &&& target->Some_0.playlist == value_of(
                        instrs[k].imm_op1,
                        instrs[k].dst,
                        left,
                    ) % 0x1_0000
                    &&& target->Some_0.branch_opt == instrs[k].branch_opt
                    &&& target->Some_0.mark_or_pi == value_of(
                        instrs[k].imm_op2,
                        instrs[k].src,
                        left,
                    )
                }
        }),
    decreases fuel,
{
    let insn = instrs[pc as int];
    if is_play(insn) && playable(operand(insn.imm_op1, insn.dst, regs), valid) {
        law_operand_values(insn.imm_op1, insn.dst, regs);
        law_operand_values(insn.imm_op2, insn.src, regs);
        lemma_accepted(value_of(insn.imm_op1, insn.dst, regs), valid);
        lemma_low_half(value_of(insn.imm_op1, insn.dst, regs));
    } else {
        let (next, now) = after(insn, pc, regs);
        law_run_reads_last_registers(instrs, next, now, valid, (fuel - 1) as nat);
    }
}

/// A run that has no step left, or is past the program, plays nothing.
pub proof fn law_run_stops(
    instrs: Seq<Instruction>,
    pc: usize,
    regs: Map<u32, u32>,
    valid: Set<u32>,
    fuel: nat,
)
    ensures
        fuel == 0 || pc >= instrs.len() ==> run(instrs, pc, regs, valid, fuel) == (
            None::<PlayTarget>,
            regs,
        ),
        fuel == 0 || pc >= instrs.len() ==> run_button(instrs, pc, regs, fuel) == (
            ButtonEffect::Nothing,
            regs,
        ),
{
}

/// Whether the first `n` instructions do nothing.
pub open spec fn idle(instrs: Seq<Instruction>, n: int) -> bool {
    forall|i: int|
        0 <= i < n ==> (#[trigger] instrs[i]).group == 0 && instrs[i].sub_group == 0
            && instrs[i].branch_opt == 0
}

proof fn lemma_idle(
    instrs: Seq<Instruction>,
    pc: usize,
    n: int,
    regs: Map<u32, u32>,
    valid: Set<u32>,
    fuel: nat,
)
    requires
        idle(instrs, n),
        pc <= n < instrs.len() <= usize::MAX,
    ensures
        fuel >= n - pc ==> run(instrs, pc, regs, valid, fuel) == run(
            instrs,
            n as usize,
            regs,
            valid,
            (fuel - (n - pc)) as nat,
        ),
        fuel < n - pc ==> run(instrs, pc, regs, valid, fuel).0 is None,
        fuel >= n - pc ==> run_button(instrs, pc, regs, fuel) == run_button(
            instrs,
            n as usize,
            regs,
            (fuel - (n - pc)) as nat,
        ),
        fuel < n - pc ==> run_button(instrs, pc, regs, fuel).0 is Nothing,
    decreases n - pc,
{
    if pc < n && fuel > 0 {
        assert(instrs[pc as int].group == 0);
        lemma_idle(instrs, (pc + 1) as usize, n, regs, valid, (fuel - 1) as nat);
    }
}

/// A full run makes ten thousand steps: it reaches a play instruction behind
/// `n` instructions that do nothing exactly if `n` is less.
pub proof fn law_steps_are_limited(
    instrs: Seq<Instruction>,
    n: int,
    regs: Map<u32, u32>,
    valid: Set<u32>,
)
    requires
        0 <= n < instrs.len() <= usize::MAX,
        idle(instrs, n),
        instrs[n].group == 0,
        instrs[n].sub_group == 2,
        accepted(value_of(instrs[n].imm_op1, instrs[n].dst, regs), valid),
    ensures
        run(instrs, 0, regs, valid, VM_STEP_LIMIT as nat).0 is Some <==> n < 10_000,
        run_button(instrs, 0, regs, VM_STEP_LIMIT as nat).0 is Playlist <==> n < 10_000,
{
    let fuel = VM_STEP_LIMIT as nat;
    lemma_idle(instrs, 0, n, regs, valid, fuel);
    if fuel >= n {
        law_run_stops(instrs, n as usize, regs, valid, (fuel - n) as nat);
        if fuel > n {
            law_play_ends_run(instrs, n as usize, regs, valid, (fuel - n) as nat);
        }
    }
}

// ---------------------------------------------------------------------------
// Button programs
// ---------------------------------------------------------------------------

/// What ends a button's program, and what the program comes to there: a play
/// instruction, a jump to an object, and the set operation of sub-group 1 that
/// selects a button and a page. The values are those of the operands.
pub proof fn law_button_effects(
    instrs: Seq<Instruction>,
    pc: usize,
    regs: Map<u32, u32>,
    fuel: nat,
)
    requires
        pc < instrs.len(),
        fuel > 0,
    ensures
        ({
            let insn = instrs[pc as int];
            let a = value_of(insn.imm_op1, insn.dst, regs);
            let b = value_of(insn.imm_op2, insn.src, regs);
            let result = run_button(instrs, pc, regs, fuel);
            let (next, now) = after(insn, pc, regs);
            if insn.group == 0 && insn.sub_group == 2 {
                result == (
                    ButtonEffect::Playlist {
                        playlist: (a % 0x1_0000) as u16,
                        branch_opt: insn.branch_opt,
                        mark_or_pi: b,
                    },
                    regs,
                )
            } else if insn.group == 0 && insn.sub_group == 1 {
                result == (ButtonEffect::GotoMobj(a), regs)
            } else if insn.group == 2 && insn.sub_group == 1 && insn.set_opt == 3 {
                result == (ButtonEffect::SetButtonPage { composite: a, page: b }, regs)
            } else {
                result == run_button(instrs, next, now, (fuel - 1) as nat)
            }
        }),
{
    let insn = instrs[pc as int];
    law_operand_values(insn.imm_op1, insn.dst, regs);
    law_operand_values(insn.imm_op2, insn.src, regs);
    lemma_low_half(value_of(insn.imm_op1, insn.dst, regs));
}

/// After assignments a register holds what was last assigned to it, and what
/// it held before if nothing was.
pub proof fn law_last_assignment_wins(regs: Map<u32, u32>, sets: Seq<(u32, u32)>, r: u32)
    ensures
        (forall|i: int| 0 <= i < sets.len() ==> (#[trigger] sets[i]).0 != r) ==> assigned(
            regs,
            sets,
        ).contains_key(r) == regs.contains_key(r) && (regs.contains_key(r) ==> assigned(
            regs,
            sets,
        )[r] == regs[r]),
        forall|i: int|
            0 <= i < sets.len() && (#[trigger] sets[i]).0 == r && (forall|j: int|
                i < j < sets.len() ==> (#[trigger] sets[j]).0 != r) ==> assigned(
                regs,
                sets,
            ).contains_key(r) && assigned(regs, sets)[r] == sets[i].1,
    decreases sets.len(),
{
    if sets.len() > 0 {
        let init = sets.drop_last();
        law_last_assignment_wins(regs, init, r);
        let last = sets.len() - 1;
        if sets.last().0 != r {
            assert forall|i: int|
                0 <= i < sets.len() && (#[trigger] sets[i]).0 == r && (forall|j: int|
                    i < j < sets.len() ==> (#[trigger] sets[j]).0 != r) implies assigned(
                regs,
                sets,
            ).contains_key(r) && assigned(regs, sets)[r] == sets[i].1 by {
                assert(i < last);
                assert(init[i] == sets[i]);
                assert forall|j: int| i < j < init.len() implies (#[trigger] init[j]).0 != r by {
                    assert(init[j] == sets[j]);
                }
            }
            if forall|i: int| 0 <= i < sets.len() ==> (#[trigger] sets[i]).0 != r {
                assert forall|i: int| 0 <= i < init.len() implies (#[trigger] init[i]).0 != r by {
                    assert(init[i] == sets[i]);
                }
            }
        } else {
            assert(sets[last].0 == r);
        }
    }
}

/// A player context changes three registers, those of the status numbers 0, 10
/// and 11, to its stream, its button and its page.
pub proof fn law_context_registers(regs: Map<u32, u32>, ctx: PlayerContext, r: u32)
    ensures
        in_context(regs, ctx).contains_key(0x8000_0000),
        in_context(regs, ctx)[0x8000_0000] == ctx.ig_stream,
        in_context(regs, ctx).contains_key(0x8000_000A),
        in_context(regs, ctx)[0x8000_000A] == ctx.selected_button_id,
        in_context(regs, ctx).contains_key(0x8000_000B),
        in_context(regs, ctx)[0x8000_000B] == ctx.page_id,
        r != 0x8000_0000 && r != 0x8000_000A && r != 0x8000_000B ==> in_context(
            regs,
            ctx,
        ).contains_key(r) == regs.contains_key(r) && in_context(regs, ctx)[r] == regs[r],
{
    assert(0x8000_0000u32 | 0x0Au32 == 0x8000_000Au32) by (bit_vector);
    assert(0x8000_0000u32 | 0x0Bu32 == 0x8000_000Bu32) by (bit_vector);
}

/// Commands that set registers to the given values.
pub open spec fn set_commands(sets: Seq<(u32, u32)>) -> Seq<NavigationCommand> {
    sets.map_values(
        |s: (u32, u32)| NavigationCommand::SetGpr { register: s.0, value: s.1 },
    )
}

proof fn lemma_set_commands(
    sets: Seq<(u32, u32)>,
    last: NavigationCommand,
    k: int,
    regs: Map<u32, u32>,
    fuel: nat,
)
    requires
        0 <= k <= sets.len() < usize::MAX,
        fuel >= sets.len(),
    ensures
        run_button(program_of(set_commands(sets).push(last)), 0, regs, fuel) == run_button(
            program_of(set_commands(sets).push(last)),
            k as usize,
            assigned(regs, sets.take(k)),
            (fuel - k) as nat,
        ),
    decreases k,
{
    let program = program_of(set_commands(sets).push(last));
    if k == 0 {
        assert(sets.take(0) =~= seq![]);
    } else {
        lemma_set_commands(sets, last, k - 1, regs, fuel);
        let before = assigned(regs, sets.take(k - 1));
        let insn = program[k - 1];
        assert(insn == instruction_of(
            NavigationCommand::SetGpr { register: sets[k - 1].0, value: sets[k - 1].1 },
        ));
        law_button_effects(program, (k - 1) as usize, before, (fuel - (k - 1)) as nat);
        law_single_steps(insn, (k - 1) as usize, before);
        law_set_results(insn, before);
        assert(sets.take(k).drop_last() =~= sets.take(k - 1));
        assert(sets.take(k).last() == sets[k - 1]);
    }
}

/// A button that sets registers and then plays a playlist, jumps to an object
/// or does anything else does so with these registers, on top of those of its
/// context. A playlist at a mark or a play item keeps the number of that.
pub proof fn law_buttons_set_and_go(
    sets: Seq<(u32, u32)>,
    last: NavigationCommand,
    ctx: PlayerContext,
    regs: Map<u32, u32>,
)
    requires
        sets.len() < 10_000,
    ensures
        ({
            let (effect, now) = activated(set_commands(sets).push(last), ctx, regs);
            let set = assigned(in_context(regs, ctx), sets);
            match last {
                NavigationCommand::PlayPl { playlist, branch_opt, mark_or_pi } => {
                    &&& now == set
                    &&& effect == (ButtonEffect::Playlist {
                        playlist,
                        branch_opt,
                        mark_or_pi: value_of(branch_opt != 0, mark_or_pi, set),
                    })
                },
                NavigationCommand::GotoMobj { object_id } => {
                    &&& now == set
                    &&& effect == ButtonEffect::GotoMobj(object_id)
                },
                NavigationCommand::SetGpr { register, value } => {
                    &&& now == set.insert(register, value)
                    &&& effect is Nothing
                },
                NavigationCommand::Other { .. } => true,
            }
        }),
{
    let program = program_of(set_commands(sets).push(last));
    let n = sets.len() as int;
    let start = in_context(regs, ctx);
    let fuel = VM_STEP_LIMIT as nat;
    lemma_set_commands(sets, last, n, start, fuel);
    assert(sets.take(n) =~= sets);
    let set = assigned(start, sets);
    let insn = program[n];
    assert(insn == instruction_of(last));
    law_button_effects(program, n as usize, set, (fuel - n) as nat);
    law_single_steps(insn, n as usize, set);
    law_set_results(insn, set);
}

// ---------------------------------------------------------------------------
// First play
// ---------------------------------------------------------------------------

/// The status registers of a player that has just been switched on, number by
/// number. No other register holds anything.
pub proof fn law_first_boot_registers(r: u32)
    ensures
        first_boot().contains_key(r) <==> r == 0x8000_0001 || r == 0x8000_0002 || r == 0x8000_0003
            || r == 0x8000_0004 || r == 0x8000_000A || r == 0x8000_000C || r == 0x8000_000D || r
            == 0x8000_000E || r == 0x8000_000F || r == 0x8000_001D || r == 0x8000_001F,
        first_boot()[0x8000_0001] == 0xFF,
        first_boot()[0x8000_0002] == 0xFFFE,
        first_boot()[0x8000_0003] == 0xFF,
        first_boot()[0x8000_0004] == 0xFFFF,
        first_boot()[0x8000_000A] == 0xFFFF,
        first_boot()[0x8000_000C] == 0xFF,
        first_boot()[0x8000_000D] == 0xFF,
        first_boot()[0x8000_000E] == 0xFFFF,
        first_boot()[0x8000_000F] == 0x2_0000,
        first_boot()[0x8000_001D] == 0x200,
        first_boot()[0x8000_001F] == 0x200,
{
    assert({
        &&& 0x8000_0000u32 | 0x01u32 == 0x8000_0001u32
        &&& 0x8000_0000u32 | 0x02u32 == 0x8000_0002u32
        &&& 0x8000_0000u32 | 0x03u32 == 0x8000_0003u32
        &&& 0x8000_0000u32 | 0x04u32 == 0x8000_0004u32
        &&& 0x8000_0000u32 | 0x0Au32 == 0x8000_000Au32
        &&& 0x8000_0000u32 | 0x0Cu32 == 0x8000_000Cu32
        &&& 0x8000_0000u32 | 0x0Du32 == 0x8000_000Du32
        &&& 0x8000_0000u32 | 0x0Eu32 == 0x8000_000Eu32
        &&& 0x8000_0000u32 | 0x0Fu32 == 0x8000_000Fu32
        &&& 0x8000_0000u32 | 0x1Du32 == 0x8000_001Du32
        &&& 0x8000_0000u32 | 0x1Fu32 == 0x8000_001Fu32
    }) by (bit_vector);
}

/// Whether an instruction sets a general purpose register to an immediate
/// value, as `(register, value)` says.
pub open spec fn sets_register(insn: Instruction, set: (u32, u32)) -> bool {
    &&& insn.group == 2
    &&& insn.sub_group == 0
    &&& insn.set_opt == 1
    &&& insn.imm_op2
    &&& insn.dst == set.0
    &&& insn.src == set.1
    &&& set.0 < 0x8000_0000
}

/// Whether an instruction plays a playlist that is given as an immediate
/// value, of at most 16 bits.
pub open spec fn plays_number(insn: Instruction) -> bool {
    insn.group == 0 && insn.sub_group == 2 && insn.imm_op1 && insn.dst <= 0xFFFF
}

/// The registers that the first `n` instructions set, with the values.
pub open spec fn sets_in(instrs: Seq<Instruction>, n: int) -> Seq<(u32, u32)>
    decreases n,
{
    if n <= 0 {
        seq![]
    } else if instrs[n - 1].group == 2 {
        sets_in(instrs, n - 1).push((instrs[n - 1].dst, instrs[n - 1].src))
    } else {
        sets_in(instrs, n - 1)
    }
}

/// Whether all instructions set a general purpose register to an immediate
/// value or play a playlist.
pub open spec fn sets_and_plays(instrs: Seq<Instruction>) -> bool {
    forall|i: int|
        0 <= i < instrs.len() ==> plays_number(#[trigger] instrs[i]) || sets_register(
            instrs[i],
            (instrs[i].dst, instrs[i].src),
        )
}

proof fn lemma_straight(instrs: Seq<Instruction>, k: int, regs: Map<u32, u32>, fuel: nat)
    requires
        0 <= k <= instrs.len() < usize::MAX,
        instrs.len() <= fuel,
        sets_and_plays(instrs),
    ensures
        run(instrs, 0, regs, set![u32::MAX], fuel) == run(
            instrs,
            k as usize,
            assigned(regs, sets_in(instrs, k)),
            set![u32::MAX],
            (fuel - k) as nat,
        ),
    decreases k,
{
    if k > 0 {
        lemma_straight(instrs, k - 1, regs, fuel);
        let now = assigned(regs, sets_in(instrs, k - 1));
        let insn = instrs[k - 1];
        law_run_goes_on(instrs, (k - 1) as usize, now, set![u32::MAX], (fuel - (k - 1)) as nat);
        law_single_steps(insn, (k - 1) as usize, now);
        law_set_results(insn, now);
        if insn.group == 2 {
            assert(sets_in(instrs, k).drop_last() =~= sets_in(instrs, k - 1));
        } else {
            assert(!set![u32::MAX].contains(insn.dst));
            assert(set![u32::MAX].contains(u32::MAX));
        }
    }
}

proof fn lemma_gprs_assigned(regs: Map<u32, u32>, instrs: Seq<Instruction>, n: int)
    requires
        0 <= n <= instrs.len(),
        sets_and_plays(instrs),
        forall|r: u32| #[trigger] regs.contains_key(r) ==> r >= 0x8000_0000,
    ensures
        gprs_of(assigned(regs, sets_in(instrs, n))) == assigned(Map::empty(), sets_in(instrs, n)),
    decreases n,
{
    let sets = sets_in(instrs, n);
    if n > 0 {
        lemma_gprs_assigned(regs, instrs, n - 1);
        assert(plays_number(instrs[n - 1]) || sets_register(
            instrs[n - 1],
            (instrs[n - 1].dst, instrs[n - 1].src),
        ));
        if instrs[n - 1].group == 2 {
            assert(sets.drop_last() =~= sets_in(instrs, n - 1));
            lemma_flag_bit(instrs[n - 1].dst);
            let before = assigned(regs, sets_in(instrs, n - 1));
            assert(gprs_of(before.insert(instrs[n - 1].dst, instrs[n - 1].src)) =~= gprs_of(
                before,
            ).insert(instrs[n - 1].dst, instrs[n - 1].src));
        }
    } else {
        assert forall|r: u32| gprs_of(regs).contains_key(r) implies false by {
            lemma_flag_bit(r);
        }
        assert(gprs_of(regs) =~= Map::empty());
    }
}

/// A first movie object that sets general purpose registers leaves all of
/// them set, whatever it plays between: its play instructions do not end it.
pub proof fn law_first_object_runs_through(file: MovieObjectFile)
    requires
        file.objects@.len() > 0,
        file.objects@[0].instructions@.len() <= 10_000,
        sets_and_plays(file.objects@[0].instructions@),
    ensures
        seeded(file) == assigned(
            Map::empty(),
            sets_in(
                file.objects@[0].instructions@,
                file.objects@[0].instructions@.len() as int,
            ),
        ),
{
    let instrs = file.objects@[0].instructions@;
    let n = instrs.len() as int;
    let fuel = VM_STEP_LIMIT as nat;
    lemma_straight(instrs, n, first_boot(), fuel);
    let end = assigned(first_boot(), sets_in(instrs, n));
    law_run_stops(instrs, n as usize, end, set![u32::MAX], (fuel - n) as nat);
    assert forall|r: u32| #[trigger] first_boot().contains_key(r) implies r >= 0x8000_0000 by {
        law_first_boot_registers(r);
    }
    lemma_gprs_assigned(first_boot(), instrs, n);
}

/// What the first object leaves behind are the general purpose registers at
/// the end of its run from first boot, all of them and no others.
pub proof fn law_seed_is_what_first_object_leaves(file: MovieObjectFile, r: u32)
    ensures
        file.objects@.len() == 0 ==> seeded(file) == Map::<u32, u32>::empty(),
        file.objects@.len() > 0 ==> ({
            let left = run(
                file.objects@[0].instructions@,
                0,
                first_boot(),
                set![0xFFFF_FFFFu32],
                10_000,
            ).1;
            &&& seeded(file).contains_key(r) <==> r < 0x8000_0000 && left.contains_key(r)
            &&& seeded(file).contains_key(r) ==> seeded(file)[r] == left[r]
        }),
{
    lemma_flag_bit(r);
}

// ---------------------------------------------------------------------------
// Runs on behalf of a button
// ---------------------------------------------------------------------------

/// A program that plays where it is entered for a button reads the values that
/// the button assigned, and its stream, number and page in the status
/// registers.
pub proof fn law_entered_play_reads_assignments(
    instrs: Seq<Instruction>,
    pc: usize,
    sets: Seq<(u32, u32)>,
    valid: Set<u32>,
    ctx: PlayerContext,
)
    requires
        pc < instrs.len(),
        instrs[pc as int].group == 0,
        instrs[pc as int].sub_group == 2,
        accepted(
            value_of(
                instrs[pc as int].imm_op1,
                instrs[pc as int].dst,
                in_context(assigned(Map::empty(), sets), ctx),
            ),
            valid,
        ),
    ensures
        ({
            let insn = instrs[pc as int];
            let regs = in_context(assigned(Map::empty(), sets), ctx);
            played_from(instrs, pc, sets, valid, ctx) == Some(
                PlayTarget {
                    playlist: (value_of(insn.imm_op1, insn.dst, regs) % 0x1_0000) as u16,
                    branch_opt: insn.branch_opt,
                    mark_or_pi: value_of(insn.imm_op2, insn.src, regs),
                },
            )
        }),
{
    law_play_ends_run(
        instrs,
        pc,
        in_context(assigned(Map::empty(), sets), ctx),
        valid,
        VM_STEP_LIMIT as nat,
    );
}

/// A traced run notes the accepted number of a play instruction and goes on
/// behind it, with the button's assignments made again. Any other instruction
/// works as in an ordinary run.
pub proof fn law_trace_resumes(
    instrs: Seq<Instruction>,
    pc: usize,
    regs: Map<u32, u32>,
    sets: Seq<(u32, u32)>,
    valid: Set<u32>,
    fuel: nat,
)
    requires
        pc < instrs.len(),
        pc < usize::MAX,
        fuel > 0,
    ensures
        ({
            let insn = instrs[pc as int];
            let number = value_of(insn.imm_op1, insn.dst, regs);
            let (next, now) = after(insn, pc, regs);
            let met = trace(instrs, pc, regs, sets, valid, fuel);
            let rest = trace(
                instrs,
                (pc + 1) as usize,
                assigned(regs, sets),
                sets,
                valid,
                (fuel - 1) as nat,
            );
            if insn.group == 0 && insn.sub_group == 2 {
                if accepted(number, valid) {
                    met == seq![(number % 0x1_0000) as u16] + rest
                } else {
                    met == rest
                }
            } else {
                met == trace(instrs, next, now, sets, valid, (fuel - 1) as nat)
            }
        }),
{
    let insn = instrs[pc as int];
    let number = value_of(insn.imm_op1, insn.dst, regs);
    law_operand_values(insn.imm_op1, insn.dst, regs);
    lemma_accepted(number, valid);
    lemma_low_half(number);
}

/// The playlists of play instructions with immediate numbers that are
/// accepted, in order.
pub open spec fn numbers_played(instrs: Seq<Instruction>, valid: Set<u32>, n: int) -> Seq<u16>
    decreases n,
{
    if n <= 0 {
        seq![]
    } else if accepted(instrs[n - 1].dst, valid) {
        numbers_played(instrs, valid, n - 1).push(instrs[n - 1].dst as u16)
    } else {
        numbers_played(instrs, valid, n - 1)
    }
}

proof fn lemma_traced_numbers(
    instrs: Seq<Instruction>,
    k: int,
    regs: Map<u32, u32>,
    sets: Seq<(u32, u32)>,
    valid: Set<u32>,
    fuel: nat,
)
    requires
        0 <= k <= instrs.len() < usize::MAX,
        fuel >= instrs.len() - k,
        forall|i: int| 0 <= i < instrs.len() ==> plays_number(#[trigger] instrs[i]),
    ensures
        numbers_played(instrs, valid, k) + trace(instrs, k as usize, regs, sets, valid, fuel)
            == numbers_played(instrs, valid, instrs.len() as int),
    decreases instrs.len() - k,
{
    if k < instrs.len() {
        law_trace_resumes(instrs, k as usize, regs, sets, valid, fuel);
        lemma_traced_numbers(instrs, k + 1, assigned(regs, sets), sets, valid, (fuel - 1) as nat);
        let rest = trace(
            instrs,
            (k + 1) as usize,
            assigned(regs, sets),
            sets,
            valid,
            (fuel - 1) as nat,
        );
        let before = numbers_played(instrs, valid, k);
        assert(plays_number(instrs[k]));
        if accepted(instrs[k].dst, valid) {
            let number = (instrs[k].dst % 0x1_0000) as u16;
            assert(before.push(number) + rest =~= before + (seq![number] + rest));
        }
    } else {
        let before = numbers_played(instrs, valid, k);
        assert(before + Seq::<u16>::empty() =~= before);
    }
}

/// A program of play instructions is traced through to its end: all accepted
/// numbers are met, in order.
pub proof fn law_trace_meets_all(
    instrs: Seq<Instruction>,
    sets: Seq<(u32, u32)>,
    valid: Set<u32>,
    ctx: PlayerContext,
)
    requires
        instrs.len() <= 10_000,
        forall|i: int| 0 <= i < instrs.len() ==> plays_number(#[trigger] instrs[i]),
    ensures
        traced(instrs, sets, valid, ctx) == numbers_played(instrs, valid, instrs.len() as int),
{
    let regs = in_context(assigned(Map::empty(), sets), ctx);
    lemma_traced_numbers(instrs, 0, regs, sets, valid, VM_STEP_LIMIT as nat);
    let met = trace(instrs, 0, regs, sets, valid, VM_STEP_LIMIT as nat);
    assert(numbers_played(instrs, valid, 0) + met =~= met);
}

/// Where whole runs start: a button's program at its first command, in its
/// context; a program entered for a button with the button's assignments, and
/// nothing else, in the context. All have ten thousand steps.
pub proof fn law_whole_runs(
    commands: Seq<NavigationCommand>,
    instrs: Seq<Instruction>,
    pc: usize,
    regs: Map<u32, u32>,
    sets: Seq<(u32, u32)>,
    valid: Set<u32>,
    ctx: PlayerContext,
)
    ensures
        activated(commands, ctx, regs) == run_button(
            program_of(commands),
            0,
            in_context(regs, ctx),
            10_000,
        ),
        played_from(instrs, pc, sets, valid, ctx) == run(
            instrs,
            pc,
            in_context(assigned(Map::empty(), sets), ctx),
            valid,
            10_000,
        ).0,
        traced(instrs, sets, valid, ctx) == trace(
            instrs,
            0,
            in_context(assigned(Map::empty(), sets), ctx),
            sets,
            valid,
            10_000,
        ),
{
}

} // verus!
