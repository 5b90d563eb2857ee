//! What switch tables and the places behind menus are made of.
use vstd::prelude::*;

use super::{
    case_at, dispatch_table_of, entries_in, entries_of, first_played, handler_from, handler_plays,
    handlers, is_busiest, play_pairs, playing_cases, plays_at, resumes_after, scan, switch_table,
};
use crate::mobj::vm::laws::lemma_low_half;
use crate::mobj::{DispatchEntry, Instruction, MovieObject};

verus! {

// ---------------------------------------------------------------------------
// Places behind menus
// ---------------------------------------------------------------------------

/// Whether an object resumes at `pc`: the instruction before that place plays
/// a menu, given as an immediate value, and there is an instruction.
pub open spec fn resumes_at(instrs: Seq<Instruction>, pc: int, menus: Set<u32>) -> bool {
    &&& 0 < pc < instrs.len()
    &&& instrs[pc - 1].group == 0
    &&& instrs[pc - 1].sub_group == 2
    &&& instrs[pc - 1].imm_op1
    &&& menus.contains(instrs[pc - 1].dst)
}

/// The entries of an object are all the places where it resumes, in order.
pub proof fn law_entries_of_object(
    index: int,
    instrs: Seq<Instruction>,
    menus: Set<u32>,
    n: int,
)
    requires
        0 <= n <= instrs.len() <= usize::MAX,
        0 <= index <= usize::MAX,
    ensures
        ({
            let list = entries_in(index, instrs, menus, n);
            &&& forall|k: int|
                0 <= k < list.len() ==> (#[trigger] list[k]).mobj_index == index && resumes_at(
                    instrs,
                    list[k].dispatch_pc as int,
                    menus,
                ) && list[k].dispatch_pc <= n
            &&& forall|j: int, k: int|
                0 <= j < k < list.len() ==> (#[trigger] list[j]).dispatch_pc < (
                #[trigger] list[k]).dispatch_pc
            &&& forall|pc: int|
                0 < pc <= n && #[trigger] resumes_at(instrs, pc, menus) ==> list.contains(
                    DispatchEntry { mobj_index: index as usize, dispatch_pc: pc as usize },
                )
        }),
    decreases n,
{
    if n > 0 {
        law_entries_of_object(index, instrs, menus, n - 1);
        let before = entries_in(index, instrs, menus, n - 1);
        let list = entries_in(index, instrs, menus, n);
        assert(resumes_after(instrs, n - 1, menus) == resumes_at(instrs, n, menus));
        assert forall|pc: int| 0 < pc <= n && #[trigger] resumes_at(
            instrs,
            pc,
            menus,
        ) implies list.contains(
            DispatchEntry { mobj_index: index as usize, dispatch_pc: pc as usize },
        ) by {
            let e = DispatchEntry { mobj_index: index as usize, dispatch_pc: pc as usize };
            if pc == n {
                assert(list.last() == e);
                assert(list[list.len() - 1] == e);
            } else {
                let k = choose|k: int| 0 <= k < before.len() && before[k] == e;
                assert(list[k] == e);
            }
        }
    }
}

/// The entries of a file are those of its objects, one object after another.
pub proof fn law_entries_object_by_object(objects: Seq<MovieObject>, menus: Set<u32>, n: int)
    requires
        0 < n <= objects.len(),
    ensures
        entries_of(objects, menus, 0).len() == 0,
        entries_of(objects, menus, n) == entries_of(objects, menus, n - 1) + entries_in(
            n - 1,
            objects[n - 1].instructions@,
            menus,
            objects[n - 1].instructions@.len() as int,
        ),
{
}

// ---------------------------------------------------------------------------
// Cases
// ---------------------------------------------------------------------------

/// Whether the instruction copies register `from` to register `to`.
pub open spec fn copies(insn: Instruction, from: u32, to: u32) -> bool {
    insn.group == 2 && insn.sub_group == 0 && insn.set_opt == 1 && !insn.imm_op2 && insn.src == from
        && insn.dst == to
}

/// Whether the instruction sets register `to` to `value`.
pub open spec fn loads(insn: Instruction, value: u32, to: u32) -> bool {
    insn.group == 2 && insn.sub_group == 0 && insn.set_opt == 1 && insn.imm_op2 && insn.src == value
        && insn.dst == to
}

/// Whether the instruction tests two registers for equality.
pub open spec fn tests(insn: Instruction, a: u32, b: u32) -> bool {
    insn.group == 1 && insn.cmp_opt == 2 && !insn.imm_op1 && !insn.imm_op2 && insn.dst == a
        && insn.src == b
}

/// Whether the instruction goes to `pc`.
pub open spec fn goes_to(insn: Instruction, pc: u32) -> bool {
    insn.group == 0 && insn.sub_group == 0 && insn.branch_opt == 1 && insn.imm_op1 && insn.dst == pc
}

/// What a case looks like: a register is copied, a value is loaded, the two
/// copies are tested, and a goto follows. If that goto leads over one
/// instruction to another goto, the other one leads to the handler, and the
/// case has seven instructions; else the first goto does, and it has four.
pub proof fn law_case_shapes(
    instrs: Seq<Instruction>,
    pc: int,
    register: u32,
    value: u32,
    a: u32,
    b: u32,
    g: u32,
    h: u32,
)
    requires
        0 <= pc,
        pc + 3 < instrs.len() <= u32::MAX,
        copies(instrs[pc], register, a),
        loads(instrs[pc + 1], value, b),
        tests(instrs[pc + 2], a, b),
        goes_to(instrs[pc + 3], g),
    ensures
        g == pc + 5 && pc + 6 < instrs.len() && goes_to(instrs[pc + 5], h) ==> case_at(instrs, pc)
            == Some((value, h, register, 7usize)),
        g != pc + 5 || pc + 6 >= instrs.len() || !goes_to(instrs[pc + 5], instrs[pc + 5].dst)
            ==> case_at(instrs, pc) == Some((value, g, register, 4usize)),
{
}

/// There is no case of another shape.
pub proof fn law_cases_have_shapes(instrs: Seq<Instruction>, pc: int)
    requires
        0 <= pc,
        pc + 3 < instrs.len() <= u32::MAX,
        case_at(instrs, pc) is Some,
    ensures
        ({
            let (value, handler, register, length) = case_at(instrs, pc)->0;
            let a = instrs[pc].dst;
            let b = instrs[pc + 1].dst;
            &&& copies(instrs[pc], register, a)
            &&& loads(instrs[pc + 1], value, b)
            &&& tests(instrs[pc + 2], a, b)
            &&& goes_to(instrs[pc + 3], instrs[pc + 3].dst)
            &&& length == 4 || length == 7
            &&& length == 4 ==> instrs[pc + 3].dst == handler
            &&& length == 7 ==> instrs[pc + 3].dst == pc + 5 && goes_to(instrs[pc + 5], handler)
        }),
{
}

/// The value of the case at a place.
pub open spec fn case_value(instrs: Seq<Instruction>, p: int) -> u32 {
    match case_at(instrs, p) {
        Some((value, _, _, _)) => value,
        None => 0,
    }
}

/// The handler of the case at a place.
pub open spec fn case_handler(instrs: Seq<Instruction>, p: int) -> u32 {
    match case_at(instrs, p) {
        Some((_, handler, _, _)) => handler,
        None => 0,
    }
}

/// The register that the case at a place switches on.
pub open spec fn case_register(instrs: Seq<Instruction>, p: int) -> u32 {
    match case_at(instrs, p) {
        Some((_, _, register, _)) => register,
        None => 0,
    }
}

/// The number of instructions of the case at a place.
pub open spec fn case_length(instrs: Seq<Instruction>, p: int) -> usize {
    match case_at(instrs, p) {
        Some((_, _, _, length)) => length,
        None => 0,
    }
}

/// Whether there is a case of the register at a place.
pub open spec fn switches(instrs: Seq<Instruction>, p: int, register: u32) -> bool {
    case_at(instrs, p) is Some && case_register(instrs, p) == register
}

/// Which cases a scan meets: `at` has their places. They do not overlap, all
/// switch on the register that the scan settles on, and none of that register
/// is left out but what lies inside a case. If no register is settled yet, the
/// first case of all settles it.
pub proof fn law_cases_met(instrs: Seq<Instruction>, i: int, register: Option<u32>) -> (at: Seq<
    int,
>)
    requires
        0 <= i,
        instrs.len() <= u32::MAX,
    ensures
        ({
            let (targets, settled) = scan(instrs, i, register);
            &&& at.len() == targets.len()
            &&& register is Some ==> settled == register
            &&& at.len() == 0 ==> settled == register
            &&& at.len() > 0 ==> settled is Some
            &&& forall|k: int|
                0 <= k < at.len() ==> {
                    &&& i <= #[trigger] at[k] < instrs.len() - 3
                    &&& switches(instrs, at[k], settled->0)
                    &&& targets[k] == (
                        case_value(instrs, at[k]),
                        case_handler(instrs, at[k]),
                    )
                }
            &&& forall|j: int, k: int|
                0 <= j < k < at.len() ==> #[trigger] at[j] + case_length(instrs, at[j])
                    <= #[trigger] at[k]
            &&& forall|p: int|
                i <= p < instrs.len() - 3 && settled is Some && #[trigger] switches(
                    instrs,
                    p,
                    settled->0,
                ) ==> covered(instrs, at, p)
            &&& register is None && at.len() > 0 ==> forall|p: int|
                i <= p < at[0] ==> #[trigger] case_at(instrs, p) is None
            &&& register is None && at.len() == 0 ==> forall|p: int|
                i <= p < instrs.len() - 3 ==> #[trigger] case_at(instrs, p) is None
        }),
    decreases instrs.len() - i,
{
    if i + 3 >= instrs.len() {
        seq![]
    } else {
        match case_at(instrs, i) {
            Some((value, handler, reg, length)) if register is None || register == Some(reg) => {
                law_cases_have_shapes(instrs, i);
                let rest = law_cases_met(instrs, i + length, Some(reg));
                let at = seq![i] + rest;
                let (targets, settled) = scan(instrs, i, register);
                let (after, last) = scan(instrs, i + length, Some(reg));
                assert(settled == Some(reg));
                assert forall|k: int| 0 <= k < at.len() implies {
                    &&& i <= #[trigger] at[k] < instrs.len() - 3
                    &&& switches(instrs, at[k], settled->0)
                    &&& targets[k] == (
                        case_value(instrs, at[k]),
                        case_handler(instrs, at[k]),
                    )
                } by {
                    if k > 0 {
                        assert(at[k] == rest[k - 1]);
                        assert(targets[k] == after[k - 1]);
                    }
                }
                assert forall|j: int, k: int| 0 <= j < k < at.len() implies #[trigger] at[j]
                    + case_length(instrs, at[j]) <= #[trigger] at[k] by {
                    assert(at[k] == rest[k - 1]);
                    assert(i + length <= rest[k - 1]);
                    if j > 0 {
                        assert(at[j] == rest[j - 1]);
                    }
                }
                assert forall|p: int|
                    i <= p < instrs.len() - 3 && settled is Some && #[trigger] switches(
                        instrs,
                        p,
                        settled->0,
                    ) implies covered(instrs, at, p) by {
                    reveal(covered);
                    if p < i + length {
                        assert(at[0] <= p < at[0] + case_length(instrs, at[0]));
                    } else {
                        assert(covered(instrs, rest, p));
                        let k = choose|k: int|
                            0 <= k < rest.len() && #[trigger] rest[k] <= p < rest[k] + case_length(
                                instrs,
                                rest[k],
                            );
                        assert(at[k + 1] == rest[k]);
                    }
                }
                at
            },
            _ => {
                let at = law_cases_met(instrs, i + 1, register);
                at
            },
        }
    }
}

/// Whether a place lies in one of the cases.
#[verifier::opaque]
pub open spec fn covered(instrs: Seq<Instruction>, at: Seq<int>, p: int) -> bool {
    exists|k: int|
        0 <= k < at.len() && #[trigger] at[k] <= p < at[k] + case_length(instrs, at[k])
}

// ---------------------------------------------------------------------------
// Handlers
// ---------------------------------------------------------------------------

/// Whether a program loads a number into a register at `k`, and plays the
/// playlist in that register with the next instruction.
pub open spec fn loads_and_plays(instrs: Seq<Instruction>, k: int) -> bool {
    &&& loads(instrs[k], instrs[k].src, instrs[k].dst)
    &&& instrs[k + 1].group == 0
    &&& instrs[k + 1].sub_group == 2
    &&& !instrs[k + 1].imm_op1
    &&& instrs[k + 1].dst == instrs[k].dst
}

proof fn lemma_first_played(instrs: Seq<Instruction>, pc: int, limit: int)
    ensures
        match first_played(instrs, pc, limit) {
            Some(n) => exists|k: int|
                pc <= k < limit && #[trigger] loads_and_plays(instrs, k) && n == instrs[k].src
                    % 0x1_0000 && forall|j: int|
                    pc <= j < k ==> !#[trigger] loads_and_plays(instrs, j),
            None => forall|j: int| pc <= j < limit ==> !#[trigger] loads_and_plays(instrs, j),
        },
    decreases limit - pc,
{
    if pc < limit {
        assert(plays_at(instrs, pc) == loads_and_plays(instrs, pc));
        if plays_at(instrs, pc) {
            lemma_low_half(instrs[pc].src);
        } else {
            lemma_first_played(instrs, pc + 1, limit);
        }
    }
}

/// A handler plays the number that it loads into a register and plays with the
/// next instruction, for the first time within fifty places from its start.
pub proof fn law_handlers_play(instrs: Seq<Instruction>, pc: int)
    requires
        0 <= pc,
    ensures
        match handler_plays(instrs, pc) {
            Some(n) => exists|k: int|
                pc <= k < pc + 50 && k + 1 < instrs.len() && #[trigger] loads_and_plays(instrs, k)
                    && n == instrs[k].src % 0x1_0000 && forall|j: int|
                    pc <= j < k ==> !#[trigger] loads_and_plays(instrs, j),
            None => forall|j: int|
                pc <= j < pc + 50 && j + 1 < instrs.len() ==> !#[trigger] loads_and_plays(
                    instrs,
                    j,
                ),
        },
{
    let last = if instrs.len() == 0 {
        0
    } else {
        instrs.len() - 1
    };
    lemma_first_played(
        instrs,
        pc,
        if pc + 50 < last {
            pc + 50
        } else {
            last
        },
    );
}

/// The number of handlers counts the places at which a number is loaded and
/// played.
pub proof fn law_handlers_counted(instrs: Seq<Instruction>, n: int)
    requires
        0 < n,
    ensures
        play_pairs(instrs, 0) == 0,
        play_pairs(instrs, n) == play_pairs(instrs, n - 1) + (if loads_and_plays(instrs, n - 1) {
            1nat
        } else {
            0nat
        }),
        handlers(instrs) == play_pairs(instrs, instrs.len() - 1),
{
}

/// The cases of a table are those whose handler plays something, in order.
pub proof fn law_playing_cases(
    instrs: Seq<Instruction>,
    targets: Seq<(u32, u32)>,
    target: (u32, u32),
)
    ensures
        playing_cases(instrs, Seq::empty()) == Seq::<(u32, u16)>::empty(),
        match handler_plays(instrs, target.1 as int) {
            Some(n) => playing_cases(instrs, targets.push(target)) == playing_cases(
                instrs,
                targets,
            ).push((target.0, n)),
            None => playing_cases(instrs, targets.push(target)) == playing_cases(instrs, targets),
        },
{
    assert(targets.push(target).drop_last() =~= targets);
}

/// A program has a table if a scan from its start meets at least three cases,
/// and the handler of one of them plays something.
pub proof fn law_switch_tables(instrs: Seq<Instruction>)
    ensures
        ({
            let (targets, register) = scan(instrs, 0, None);
            let cases = playing_cases(instrs, targets);
            &&& switch_table(instrs) is Some <==> targets.len() >= 3 && register is Some
                && cases.len() > 0
            &&& switch_table(instrs) is Some ==> switch_table(instrs)->0 == (register->0, cases)
        }),
{
}

/// The table of a disc is that of the object with the most handlers, which has
/// at least three, and of the first of several such objects.
pub proof fn law_busiest_object_dispatches(objects: Seq<MovieObject>, i: int)
    requires
        0 <= i < objects.len(),
        handlers(objects[i].instructions@) >= 3,
        forall|j: int|
            0 <= j < i ==> handlers((#[trigger] objects[j]).instructions@) < handlers(
                objects[i].instructions@,
            ),
        forall|j: int|
            i < j < objects.len() ==> handlers((#[trigger] objects[j]).instructions@)
                <= handlers(objects[i].instructions@),
    ensures
        match switch_table(objects[i].instructions@) {
            Some((register, cases)) => dispatch_table_of(objects) == Some((i, register, cases)),
            None => dispatch_table_of(objects) is None,
        },
{
    assert(is_busiest(objects, i));
    let k = choose|k: int| is_busiest(objects, k);
    assert(is_busiest(objects, k));
    if k < i {
        assert(handlers(objects[k].instructions@) < handlers(objects[i].instructions@));
    }
    if i < k {
        assert(handlers(objects[i].instructions@) < handlers(objects[k].instructions@));
    }
}

/// Where every object has fewer than three handlers there is no table.
pub proof fn law_quiet_objects_do_not_dispatch(objects: Seq<MovieObject>)
    requires
        forall|j: int|
            0 <= j < objects.len() ==> handlers((#[trigger] objects[j]).instructions@) < 3,
    ensures
        dispatch_table_of(objects) is None,
{
    if exists|i: int| is_busiest(objects, i) {
        let i = choose|i: int| is_busiest(objects, i);
        assert(handlers(objects[i].instructions@) < 3);
    }
}

/// The handler of a value is that of the first case with the value and the
/// register, of the cases that lie one behind the other: `at` has those that
/// were passed over.
pub proof fn law_handlers_found(
    instrs: Seq<Instruction>,
    i: int,
    value: u32,
    register: u32,
) -> (at: int)
    requires
        0 <= i,
        instrs.len() <= u32::MAX,
    ensures
        match handler_from(instrs, i, value, register) {
            Some(h) => {
                &&& i <= at < instrs.len() - 3
                &&& switches(instrs, at, register)
                &&& case_value(instrs, at) == value
                &&& case_handler(instrs, at) == h
                &&& stepped(instrs, i, at, value, register)
            },
            None => at + 3 >= instrs.len() && stepped(instrs, i, at, value, register),
        },
    decreases instrs.len() - i,
{
    if i + 3 >= instrs.len() {
        i
    } else {
        match case_at(instrs, i) {
            Some((v, handler, reg, length)) => {
                law_cases_have_shapes(instrs, i);
                if reg == register && v == value {
                    i
                } else {
                    law_handlers_found(instrs, i + length, value, register)
                }
            },
            None => law_handlers_found(instrs, i + 1, value, register),
        }
    }
}

/// Whether a search goes from `i` to `at`: case by case, and one instruction
/// at a time between them, without a case of the value and the register.
pub open spec fn stepped(
    instrs: Seq<Instruction>,
    i: int,
    at: int,
    value: u32,
    register: u32,
) -> bool
    decreases at - i,
{
    if i >= at {
        i == at
    } else if case_at(instrs, i) is Some {
        let (v, _, r, length) = case_at(instrs, i)->0;
        if length == 0 || i + length > at || (v == value && r == register) {
            false
        } else {
            stepped(instrs, i + length, at, value, register)
        }
    } else {
        stepped(instrs, i + 1, at, value, register)
    }
}

} // verus!
