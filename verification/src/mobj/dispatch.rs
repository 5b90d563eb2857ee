//! Dispatch: where movie objects resume after a menu, and the switch tables
//! by which a central object maps case values to playlists.
use std::collections::HashSet;

use vstd::prelude::*;

use super::vm::{is_play, low_half, low_u16};
use super::{
    DispatchEntry, DispatchTable, Instruction, MovieObject, MovieObjectFile, BRANCH_GOTO,
    BRANCH_PLAY, GRP_BRANCH, GRP_CMP, GRP_SET,
};

pub mod laws;

verus! {

broadcast use vstd::std_specs::hash::group_hash_axioms;

/// Fewest cases that make a dispatch table.
pub const MIN_DISPATCH_CASES: usize = 3;

/// Number of places, from a handler's start on, that are searched for the
/// handler's play instruction.
pub const HANDLER_SCAN_LIMIT: usize = 50;

// ---------------------------------------------------------------------------
// Dispatch entries
// ---------------------------------------------------------------------------

/// Whether the instruction at `pc` plays one of `menus`, given as an immediate
/// value, and has an instruction after it.
pub open spec fn resumes_after(instrs: Seq<Instruction>, pc: int, menus: Set<u32>) -> bool {
    &&& is_play(instrs[pc])
    &&& instrs[pc].imm_op1
    &&& menus.contains(instrs[pc].dst)
    &&& pc + 1 < instrs.len()
}

/// The entries of object `index` after its first `n` instructions.
pub open spec fn entries_in(
    index: int,
    instrs: Seq<Instruction>,
    menus: Set<u32>,
    n: int,
) -> Seq<DispatchEntry>
    decreases n,
{
    if n <= 0 {
        seq![]
    } else {
        let before = entries_in(index, instrs, menus, n - 1);
        if resumes_after(instrs, n - 1, menus) {
            before.push(DispatchEntry { mobj_index: index as usize, dispatch_pc: n as usize })
        } else {
            before
        }
    }
}

/// The entries of the first `n` objects.
pub open spec fn entries_of(objects: Seq<MovieObject>, menus: Set<u32>, n: int) -> Seq<
    DispatchEntry,
>
    decreases n,
{
    if n <= 0 {
        seq![]
    } else {
        let instrs = objects[n - 1].instructions@;
        entries_of(objects, menus, n - 1) + entries_in(n - 1, instrs, menus, instrs.len() as int)
    }
}

/// Lists the places where movie objects resume after one of the menu
/// playlists, in the order of the file.
#[must_use]
pub fn find_dispatch_entries(
    mobj_file: &MovieObjectFile,
    menu_playlists: &HashSet<u32>,
) -> (entries: Vec<DispatchEntry>)
    ensures
        entries@ == entries_of(
            mobj_file.objects@,
            menu_playlists@,
            mobj_file.objects@.len() as int,
        ),
{
    let mut entries: Vec<DispatchEntry> = Vec::new();
    let mut index: usize = 0;
    while index < mobj_file.objects.len()
        invariant
            index <= mobj_file.objects.len(),
            entries@ == entries_of(mobj_file.objects@, menu_playlists@, index as int),
        decreases mobj_file.objects.len() - index,
    {
        let instrs: &Vec<Instruction> = &mobj_file.objects[index].instructions;
        let ghost before = entries@;
        let mut pc: usize = 0;
        while pc < instrs.len()
            invariant
                pc <= instrs.len(),
                entries@ == before + entries_in(index as int, instrs@, menu_playlists@, pc as int),
            decreases instrs.len() - pc,
        {
            let insn: &Instruction = &instrs[pc];
            if insn.group == GRP_BRANCH && insn.sub_group == BRANCH_PLAY && insn.imm_op1
                && menu_playlists.contains(&insn.dst) && pc + 1 < instrs.len() {
                entries.push(DispatchEntry { mobj_index: index, dispatch_pc: pc + 1 });
            }
            pc = pc + 1;
        }
        index = index + 1;
    }
    entries
}

// ---------------------------------------------------------------------------
// Switch cases
// ---------------------------------------------------------------------------

/// Whether the instruction moves a register or an immediate to a register.
pub open spec fn is_move(insn: Instruction, immediate: bool) -> bool {
    insn.group == GRP_SET && insn.sub_group == 0 && insn.set_opt == 0x01 && insn.imm_op2
        == immediate
}

/// Whether the instruction tests two registers for equality.
pub open spec fn tests_equal(insn: Instruction, a: u32, b: u32) -> bool {
    insn.group == GRP_CMP && insn.cmp_opt == 0x02 && !insn.imm_op1 && !insn.imm_op2 && insn.dst
        == a && insn.src == b
}

/// Whether the instruction is a goto with an immediate target.
pub open spec fn is_goto(insn: Instruction) -> bool {
    insn.group == GRP_BRANCH && insn.sub_group == BRANCH_GOTO && insn.branch_opt == 0x01
        && insn.imm_op1
}

/// The low 32 bits of an index.
pub open spec fn low_u32(x: int) -> u32 {
    x as u32
}

/// A position as an integer.
pub open spec fn int_of(pc: usize) -> int {
    pc as int
}

/// One case of a switch: value, handler, the register that is switched on,
/// and the number of instructions.
pub open spec fn case_at(instrs: Seq<Instruction>, pc: int) -> Option<(u32, u32, u32, usize)> {
    let load = instrs[pc];
    let value = instrs[pc + 1];
    if !(is_move(load, false) && is_move(value, true) && tests_equal(
        instrs[pc + 2],
        load.dst,
        value.dst,
    )) {
        None
    } else if pc + 6 < instrs.len() && is_goto(instrs[pc + 3]) && instrs[pc + 3].dst == low_u32(
        pc + 5,
    ) && is_goto(instrs[pc + 5]) {
        Some((value.src, instrs[pc + 5].dst, load.src, 7))
    } else if is_goto(instrs[pc + 3]) {
        Some((value.src, instrs[pc + 3].dst, load.src, 4))
    } else {
        None
    }
}

fn is_unconditional_goto(insn: &Instruction) -> (yes: bool)
    ensures
        yes == is_goto(*insn),
{
    insn.group == GRP_BRANCH && insn.sub_group == BRANCH_GOTO && insn.branch_opt == 0x01
        && insn.imm_op1
}

fn index_u32(x: usize) -> (y: u32)
    ensures
        y == low_u32(x as int),
{
    x as u32
}

/// Matches a switch case at `pc`: a load of the switched register, a load of
/// the case value, an equality test, and the jump to the handler, either
/// directly or by way of two jumps over the way out.
pub fn match_case_pattern(instrs: &[Instruction], pc: usize) -> (case: Option<
    (u32, u32, u32, usize),
>)
    requires
        pc + 3 < instrs@.len(),
    ensures
        case == case_at(instrs@, int_of(pc)),
{
    let load: &Instruction = &instrs[pc];
    let value: &Instruction = &instrs[pc + 1];
    let test: &Instruction = &instrs[pc + 2];
    if load.group != GRP_SET || load.sub_group != 0 || load.set_opt != 0x01 || load.imm_op2 {
        return None;
    }
    if value.group != GRP_SET || value.sub_group != 0 || value.set_opt != 0x01 || !value.imm_op2 {
        return None;
    }
    if test.group != GRP_CMP || test.cmp_opt != 0x02 || test.imm_op1 || test.imm_op2 || test.dst
        != load.dst || test.src != value.dst {
        return None;
    }
    if instrs.len() - pc > 6 {
        let handler: &Instruction = &instrs[pc + 5];
        if is_unconditional_goto(&instrs[pc + 3]) && instrs[pc + 3].dst == index_u32(pc + 5)
            && is_unconditional_goto(handler) {
            return Some((value.src, handler.dst, load.src, 7));
        }
    }
    if is_unconditional_goto(&instrs[pc + 3]) {
        return Some((value.src, instrs[pc + 3].dst, load.src, 4));
    }
    None
}

/// The cases, with their handlers, that a scan from `i` meets, and the
/// register that it settles on. The first case settles the register, and
/// cases that switch on another are passed over.
pub open spec fn scan(instrs: Seq<Instruction>, i: int, register: Option<u32>) -> (
    Seq<(u32, u32)>,
    Option<u32>,
)
    decreases instrs.len() - i,
{
    if i + 3 >= instrs.len() {
        (seq![], register)
    } else {
        match case_at(instrs, i) {
            Some((value, handler, reg, length)) if register is None || register == Some(reg) => {
                let rest = scan(instrs, i + length, Some(reg));
                (seq![(value, handler)] + rest.0, rest.1)
            },
            _ => scan(instrs, i + 1, register),
        }
    }
}

// ---------------------------------------------------------------------------
// Handlers
// ---------------------------------------------------------------------------

/// Whether the instruction at `pc` loads an immediate value into the register
/// that the next one plays.
pub open spec fn plays_at(instrs: Seq<Instruction>, pc: int) -> bool {
    &&& is_move(instrs[pc], true)
    &&& is_play(instrs[pc + 1])
    &&& !instrs[pc + 1].imm_op1
    &&& instrs[pc + 1].dst == instrs[pc].dst
}

/// The playlist of the first such pair from `pc` on and before `limit`.
pub open spec fn first_played(instrs: Seq<Instruction>, pc: int, limit: int) -> Option<u16>
    decreases limit - pc,
{
    if pc >= limit {
        None
    } else if plays_at(instrs, pc) {
        Some(low_u16(instrs[pc].src))
    } else {
        first_played(instrs, pc + 1, limit)
    }
}

/// The playlist that the handler at `pc` plays.
pub open spec fn handler_plays(instrs: Seq<Instruction>, pc: int) -> Option<u16> {
    let last = if instrs.len() == 0 {
        0
    } else {
        instrs.len() - 1
    };
    first_played(
        instrs,
        pc,
        if pc + HANDLER_SCAN_LIMIT < last {
            pc + HANDLER_SCAN_LIMIT
        } else {
            last
        },
    )
}

/// The number of such pairs among the first `n` places.
pub open spec fn play_pairs(instrs: Seq<Instruction>, n: int) -> nat
    decreases n,
{
    if n <= 0 {
        0
    } else {
        play_pairs(instrs, n - 1) + if plays_at(instrs, n - 1) {
            1nat
        } else {
            0nat
        }
    }
}

/// The number of such pairs in a program.
pub open spec fn handlers(instrs: Seq<Instruction>) -> nat {
    play_pairs(instrs, instrs.len() - 1)
}

fn plays_here(instrs: &[Instruction], pc: usize) -> (yes: bool)
    requires
        pc + 1 < instrs@.len(),
    ensures
        yes == plays_at(instrs@, pc as int),
{
    let set: &Instruction = &instrs[pc];
    let play: &Instruction = &instrs[pc + 1];
    set.group == GRP_SET && set.sub_group == 0 && set.set_opt == 0x01 && set.imm_op2 && play.group
        == GRP_BRANCH && play.sub_group == BRANCH_PLAY && !play.imm_op1 && play.dst == set.dst
}

/// Counts the places where a program loads a playlist number and plays it.
fn count_handler_play_pls(instrs: &[Instruction]) -> (count: usize)
    ensures
        count == handlers(instrs@),
{
    let mut count: usize = 0;
    let mut pc: usize = 0;
    while pc < instrs.len() && instrs.len() - pc > 1
        invariant
            pc <= instrs.len(),
            instrs@.len() > 0 ==> pc + 1 <= instrs@.len(),
            count == play_pairs(instrs@, pc as int),
            count <= pc,
        decreases instrs.len() - pc,
    {
        if plays_here(instrs, pc) {
            count = count + 1;
        }
        pc = pc + 1;
    }
    count
}

/// Finds the playlist that the handler at `handler_pc` plays, among the first
/// [`HANDLER_SCAN_LIMIT`] places.
fn find_handler_playlist(instrs: &[Instruction], handler_pc: usize) -> (playlist: Option<u16>)
    ensures
        playlist == handler_plays(instrs@, handler_pc as int),
{
    let last: usize = if instrs.len() == 0 {
        0
    } else {
        instrs.len() - 1
    };
    let end: usize = handler_pc.saturating_add(HANDLER_SCAN_LIMIT);
    let limit: usize = if end < last {
        end
    } else {
        last
    };
    let mut pc: usize = handler_pc;
    while pc < limit
        invariant
            limit < instrs.len() || limit == 0,
            first_played(instrs@, pc as int, limit as int) == handler_plays(
                instrs@,
                handler_pc as int,
            ),
        decreases limit - pc,
    {
        if plays_here(instrs, pc) {
            return Some(low_half(instrs[pc].src));
        }
        pc = pc + 1;
    }
    None
}

// ---------------------------------------------------------------------------
// Tables
// ---------------------------------------------------------------------------

/// The cases whose handler plays something, with what it plays.
pub open spec fn playing_cases(instrs: Seq<Instruction>, targets: Seq<(u32, u32)>) -> Seq<
    (u32, u16),
>
    decreases targets.len(),
{
    if targets.len() == 0 {
        seq![]
    } else {
        let before = playing_cases(instrs, targets.drop_last());
        match handler_plays(instrs, targets.last().1 as int) {
            Some(playlist) => before.push((targets.last().0, playlist)),
            None => before,
        }
    }
}

/// The register and the cases of the switch table of a program.
pub open spec fn switch_table(instrs: Seq<Instruction>) -> Option<(u32, Seq<(u32, u16)>)> {
    let (targets, register) = scan(instrs, 0, None);
    let cases = playing_cases(instrs, targets);
    if targets.len() < MIN_DISPATCH_CASES || register is None || cases.len() == 0 {
        None
    } else {
        Some((register->0, cases))
    }
}

/// Whether object `i` has at least [`MIN_DISPATCH_CASES`] handlers, more than
/// any object before it and as many as any after it.
pub open spec fn is_busiest(objects: Seq<MovieObject>, i: int) -> bool {
    &&& 0 <= i < objects.len()
    &&& handlers(objects[i].instructions@) >= MIN_DISPATCH_CASES
    &&& forall|j: int|
        0 <= j < objects.len() ==> if j < i {
            handlers((#[trigger] objects[j]).instructions@) < handlers(objects[i].instructions@)
        } else {
            handlers(objects[j].instructions@) <= handlers(objects[i].instructions@)
        }
}

/// The switch table of the object with the most handlers, with its index.
pub open spec fn dispatch_table_of(objects: Seq<MovieObject>) -> Option<
    (int, u32, Seq<(u32, u16)>),
> {
    if exists|i: int| is_busiest(objects, i) {
        let i = choose|i: int| is_busiest(objects, i);
        match switch_table(objects[i].instructions@) {
            Some((register, cases)) => Some((i, register, cases)),
            None => None,
        }
    } else {
        None
    }
}

/// Extracts the switch table of a program.
fn extract_switch_table(instrs: &[Instruction], mobj_index: usize) -> (table: Option<DispatchTable>)
    ensures
        match switch_table(instrs@) {
            Some((register, cases)) => table matches Some(t) && t.mobj_index == mobj_index
                && t.dispatch_register == register && t.cases@ == cases,
            None => table is None,
        },
{
    let mut targets: Vec<(u32, u32)> = Vec::new();
    let mut register: Option<u32> = None;
    let mut i: usize = 0;
    while i < instrs.len() && instrs.len() - i > 3
        invariant
            targets@ + scan(instrs@, i as int, register).0 == scan(instrs@, 0, None).0,
            scan(instrs@, i as int, register).1 == scan(instrs@, 0, None).1,
            i <= instrs.len(),
        decreases instrs.len() - i,
    {
        let ghost rest = scan(instrs@, i as int, register).0;
        match match_case_pattern(instrs, i) {
            Some((value, handler, reg, length)) if register.is_none() || register == Some(reg) => {
                register = Some(reg);
                proof {
                    assert(targets@ + rest =~= targets@.push((value, handler)) + rest.skip(1));
                    assert(rest.skip(1) =~= scan(instrs@, i + length, register).0);
                }
                targets.push((value, handler));
                i = i + length;
            },
            _ => {
                i = i + 1;
            },
        }
    }
    proof {
        assert(targets@ + Seq::<(u32, u32)>::empty() =~= targets@);
    }
    if targets.len() < MIN_DISPATCH_CASES {
        return None;
    }
    let dispatch_register: u32 = match register {
        Some(reg) => reg,
        None => {
            return None;
        },
    };
    let mut cases: Vec<(u32, u16)> = Vec::new();
    let mut k: usize = 0;
    while k < targets.len()
        invariant
            k <= targets.len(),
            cases@ == playing_cases(instrs@, targets@.take(k as int)),
        decreases targets.len() - k,
    {
        let (value, handler) = targets[k];
        proof {
            assert(targets@.take(k + 1).drop_last() =~= targets@.take(k as int));
        }
        if let Some(playlist) = find_handler_playlist(instrs, handler as usize) {
            cases.push((value, playlist));
        }
        k = k + 1;
    }
    proof {
        assert(targets@.take(k as int) =~= targets@);
    }
    if cases.is_empty() {
        return None;
    }
    Some(DispatchTable { mobj_index, dispatch_register, cases })
}

/// Extracts the dispatch table of a movie object file: the switch table of
/// the object with the most places that load a playlist number and play it.
#[must_use]
pub fn extract_dispatch_table(mobj_file: &MovieObjectFile) -> (table: Option<DispatchTable>)
    ensures
        match dispatch_table_of(mobj_file.objects@) {
            Some((index, register, cases)) => table matches Some(t) && t.mobj_index == index
                && t.dispatch_register == register && t.cases@ == cases,
            None => table is None,
        },
{
    let ghost objects = mobj_file.objects@;
    let mut best: Option<(usize, usize)> = None;
    let mut i: usize = 0;
    while i < mobj_file.objects.len()
        invariant
            i <= mobj_file.objects.len(),
            objects == mobj_file.objects@,
            match best {
                Some((b, count)) => b < i && is_busiest(objects.take(i as int), b as int) && count
                    == handlers(objects[b as int].instructions@),
                None => forall|j: int|
                    0 <= j < i ==> handlers((#[trigger] objects[j]).instructions@)
                        < MIN_DISPATCH_CASES,
            },
        decreases mobj_file.objects.len() - i,
    {
        let count: usize = count_handler_play_pls(&mobj_file.objects[i].instructions);
        let more: bool = match best {
            None => true,
            Some((_, best_count)) => count > best_count,
        };
        if count >= MIN_DISPATCH_CASES && more {
            best = Some((i, count));
        }
        proof {
            let t = objects.take(i + 1);
            assert forall|j: int| 0 <= j < i implies #[trigger] t[j] == objects.take(
                i as int,
            )[j] by {}
            if let Some((b, _)) = best {
                let n = b as int;
                assert forall|j: int| 0 <= j < t.len() implies if j < n {
                    handlers((#[trigger] t[j]).instructions@) < handlers(t[n].instructions@)
                } else {
                    handlers(t[j].instructions@) <= handlers(t[n].instructions@)
                } by {
                    if j < i {
                        assert(t[j] == objects.take(i as int)[j]);
                        assert(t[j] == objects[j]);
                    }
                }
            }
        }
        i = i + 1;
    }
    proof {
        assert(objects.take(i as int) =~= objects);
    }
    match best {
        Some((index, _)) => {
            proof {
                let k = choose|k: int| is_busiest(objects, k);
                assert(is_busiest(objects, index as int));
                assert(k == index) by {
                    assert(handlers(objects[k].instructions@) == handlers(
                        objects[index as int].instructions@,
                    ));
                }
            }
            extract_switch_table(&mobj_file.objects[index].instructions, index)
        },
        None => None,
    }
}

/// The handler of the first case with the given value and register.
pub open spec fn handler_from(
    instrs: Seq<Instruction>,
    i: int,
    value: u32,
    register: u32,
) -> Option<usize>
    decreases instrs.len() - i,
{
    if i + 3 >= instrs.len() {
        None
    } else {
        match case_at(instrs, i) {
            Some((v, handler, reg, length)) => if reg == register && v == value {
                Some(handler as usize)
            } else {
                handler_from(instrs, i + length, value, register)
            },
            None => handler_from(instrs, i + 1, value, register),
        }
    }
}

/// Finds the handler of a case value in the switch on a register.
#[must_use]
pub fn find_handler_pc(instrs: &[Instruction], case_value: u32, dispatch_register: u32) -> (pc:
    Option<usize>)
    ensures
        pc == handler_from(instrs@, 0, case_value, dispatch_register),
{
    let mut i: usize = 0;
    while i < instrs.len() && instrs.len() - i > 3
        invariant
            i <= instrs.len(),
            handler_from(instrs@, i as int, case_value, dispatch_register) == handler_from(
                instrs@,
                0,
                case_value,
                dispatch_register,
            ),
        decreases instrs.len() - i,
    {
        match match_case_pattern(instrs, i) {
            Some((value, handler, reg, length)) => {
                if reg == dispatch_register && value == case_value {
                    return Some(handler as usize);
                }
                i = i + length;
            },
            None => {
                i = i + 1;
            },
        }
    }
    None
}

// ---------------------------------------------------------------------------
// Laws
// ---------------------------------------------------------------------------

proof fn lemma_first_played(instrs: Seq<Instruction>, pc: int, limit: int)
    requires
        0 <= pc,
        limit <= instrs.len() - 1,
    ensures
        first_played(instrs, pc, limit) matches Some(playlist) ==> exists|k: int|
            pc <= k < limit && #[trigger] plays_at(instrs, k) && playlist == low_u16(instrs[k].src),
    decreases limit - pc,
{
    if pc < limit {
        if plays_at(instrs, pc) {
            assert(plays_at(instrs, pc));
        } else {
            lemma_first_played(instrs, pc + 1, limit);
        }
    }
}

proof fn lemma_playing_cases(instrs: Seq<Instruction>, targets: Seq<(u32, u32)>)
    ensures
        forall|i: int|
            0 <= i < playing_cases(instrs, targets).len() ==> is_loaded(
                instrs,
                (#[trigger] playing_cases(instrs, targets)[i]).1,
            ),
    decreases targets.len(),
{
    if targets.len() > 0 {
        lemma_playing_cases(instrs, targets.drop_last());
        let pc = targets.last().1 as int;
        if instrs.len() > 0 {
            let last = instrs.len() - 1;
            let limit = if pc + HANDLER_SCAN_LIMIT < last {
                pc + HANDLER_SCAN_LIMIT
            } else {
                last
            };
            lemma_first_played(instrs, pc, limit);
            assert(handler_plays(instrs, pc) == first_played(instrs, pc, limit));
            if let Some(playlist) = handler_plays(instrs, pc) {
                assert(is_loaded(instrs, playlist));
            }
        } else {
            assert(handler_plays(instrs, pc) is None);
        }
        let before = playing_cases(instrs, targets.drop_last());
        let now = playing_cases(instrs, targets);
        assert forall|i: int| 0 <= i < now.len() implies is_loaded(
            instrs,
            (#[trigger] now[i]).1,
        ) by {
            if i < before.len() {
                assert(now[i] == before[i]);
            }
        }
    }
}

/// Whether a program loads a playlist number into a register and plays it.
pub open spec fn is_loaded(instrs: Seq<Instruction>, playlist: u16) -> bool {
    exists|k: int|
        0 <= k < instrs.len() - 1 && #[trigger] plays_at(instrs, k) && playlist == low_u16(
            instrs[k].src,
        )
}

/// A dispatch table has cases, all of which its object plays, and the object
/// is one with the most places where it plays something.
pub proof fn law_table_plays_its_cases(objects: Seq<MovieObject>)
    ensures
        dispatch_table_of(objects) matches Some((index, register, cases)) ==> {
            &&& is_busiest(objects, index)
            &&& cases.len() > 0
            &&& forall|i: int|
                0 <= i < cases.len() ==> is_loaded(
                    objects[index].instructions@,
                    (#[trigger] cases[i]).1,
                )
        },
{
    if exists|i: int| is_busiest(objects, i) {
        let i = choose|i: int| is_busiest(objects, i);
        let instrs = objects[i].instructions@;
        let (targets, register) = scan(instrs, 0, None);
        lemma_playing_cases(instrs, targets);
    }
}

} // verus!
