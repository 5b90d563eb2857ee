//! What the parts mean that decide which playlist a button leads to.
use vstd::prelude::*;

use super::{
    assignments, button_plays, buttons_resolved, compares, comparisons, direct_plays, entry_plays,
    first_divergence, immediate_plays, jump_object, jump_plays, lifecycle_plays, plays_immediate,
    plays_register, static_play, sum_case_plays, value_is, value_plays,
};
use crate::mobj::press::{case_is, plays_directly};
use crate::mobj::vm::laws::{
    accepted, law_entered_play_reads_assignments, law_last_assignment_wins, lemma_low_half,
    value_of,
};
use crate::mobj::vm::{assigned, in_context, traced};
use crate::mobj::{
    DispatchEntry, DispatchTable, Instruction, MovieObject, MovieObjectFile, PlayerContext,
};
use crate::nav::{Button, NavigationCommand};
use crate::seqs::{first_some, first_where, law_first_comes_first, law_first_result};

verus! {

// ---------------------------------------------------------------------------
// Comparisons and plays
// ---------------------------------------------------------------------------

/// An instruction compares a register with a value if it is of group 1, one of
/// its operands is the register and the other an immediate value.
pub proof fn law_compared_values(insn: Instruction, register: u32)
    ensures
        insn.group == 1 && !insn.imm_op1 && insn.dst == register && insn.imm_op2 ==> compares(
            insn,
            register,
        ) == Some(insn.src),
        insn.group == 1 && insn.imm_op1 && !insn.imm_op2 && insn.src == register ==> compares(
            insn,
            register,
        ) == Some(insn.dst),
        compares(insn, register) is Some ==> insn.group == 1 && insn.imm_op1 != insn.imm_op2,
        compares(insn, register) is Some && insn.imm_op2 ==> insn.dst == register,
        compares(insn, register) is Some && insn.imm_op1 ==> insn.src == register,
{
}

/// The comparisons of a program with a register are listed in order, each with
/// its place and its value.
pub proof fn law_comparisons_listed(instrs: Seq<Instruction>, register: u32, n: int) -> (at: Seq<
    int,
>)
    requires
        0 <= n <= instrs.len() <= usize::MAX,
    ensures
        at.len() == comparisons(instrs, register, n).len(),
        forall|k: int|
            0 <= k < at.len() ==> 0 <= #[trigger] at[k] < n && compares(instrs[at[k]], register)
                == Some(comparisons(instrs, register, n)[k].1) && comparisons(
                instrs,
                register,
                n,
            )[k].0 == at[k],
        forall|j: int, k: int| 0 <= j < k < at.len() ==> #[trigger] at[j] < #[trigger] at[k],
        forall|i: int|
            0 <= i < n && compares(#[trigger] instrs[i], register) is Some ==> at.contains(i),
    decreases n,
{
    if n == 0 {
        seq![]
    } else {
        let before = law_comparisons_listed(instrs, register, n - 1);
        match compares(instrs[n - 1], register) {
            Some(_) => {
                let at = before.push(n - 1);
                assert forall|i: int|
                    0 <= i < n && compares(#[trigger] instrs[i], register) is Some implies
                    at.contains(i) by {
                    if i == n - 1 {
                        assert(at[before.len() as int] == i);
                    } else {
                        let k = choose|k: int| 0 <= k < before.len() && before[k] == i;
                        assert(at[k] == i);
                    }
                }
                at
            },
            None => before,
        }
    }
}

/// The playlists that a program plays by immediate value are listed in order.
pub proof fn law_plays_listed(instrs: Seq<Instruction>, n: int) -> (at: Seq<int>)
    requires
        0 <= n <= instrs.len(),
    ensures
        at.len() == immediate_plays(instrs, n).len(),
        forall|k: int|
            0 <= k < at.len() ==> {
                &&& 0 <= #[trigger] at[k] < n
                &&& instrs[at[k]].group == 0
                &&& instrs[at[k]].sub_group == 2
                &&& instrs[at[k]].imm_op1
                &&& immediate_plays(instrs, n)[k] == instrs[at[k]].dst % 0x1_0000
            },
        forall|j: int, k: int| 0 <= j < k < at.len() ==> #[trigger] at[j] < #[trigger] at[k],
        forall|i: int|
            0 <= i < n && (#[trigger] instrs[i]).group == 0 && instrs[i].sub_group == 2
                && instrs[i].imm_op1 ==> at.contains(i),
    decreases n,
{
    if n == 0 {
        seq![]
    } else {
        let before = law_plays_listed(instrs, n - 1);
        lemma_low_half(instrs[n - 1].dst);
        if plays_immediate(instrs[n - 1]) {
            let at = before.push(n - 1);
            assert forall|i: int|
                0 <= i < n && (#[trigger] instrs[i]).group == 0 && instrs[i].sub_group == 2
                    && instrs[i].imm_op1 implies at.contains(i) by {
                if i == n - 1 {
                    assert(at[before.len() as int] == i);
                } else {
                    let k = choose|k: int| 0 <= k < before.len() && before[k] == i;
                    assert(at[k] == i);
                }
            }
            at
        } else {
            before
        }
    }
}

/// A goto behind a comparison leads to a play if it is one of group and
/// sub-group 0, its target is an immediate place of the program, and there the
/// program plays a playlist by immediate value.
pub proof fn law_jumps_to_plays(instrs: Seq<Instruction>, i: int)
    requires
        0 <= i < instrs.len(),
    ensures
        ({
            let next = instrs[i + 1];
            let there = instrs[next.dst as int];
            let leads = i + 1 < instrs.len() && next.group == 0 && next.sub_group == 0
                && next.imm_op1 && next.dst < instrs.len() && there.group == 0 && there.sub_group
                == 2 && there.imm_op1;
            &&& leads ==> jump_plays(instrs, i) == Some((there.dst % 0x1_0000) as u16)
            &&& !leads ==> jump_plays(instrs, i) is None
        }),
{
    lemma_low_half(instrs[instrs[i + 1].dst as int].dst);
}

/// How compared values and playlists are paired: by the gotos if every
/// comparison is followed by one that leads to a play, else by position, and
/// not at all if there is no comparison or no play.
pub proof fn law_values_paired(instrs: Seq<Instruction>, register: u32)
    ensures
        ({
            let comps = comparisons(instrs, register, instrs.len() as int);
            let plays = immediate_plays(instrs, instrs.len() as int);
            let pairs = value_plays(instrs, register);
            let all = forall|k: int|
                0 <= k < comps.len() ==> jump_plays(
                    instrs,
                    (#[trigger] comps[k]).0 as int,
                ) is Some;
            &&& comps.len() == 0 || plays.len() == 0 ==> pairs.len() == 0
            &&& comps.len() > 0 && plays.len() > 0 && all ==> pairs.len() == comps.len() && forall|
                k: int,
            |
                0 <= k < pairs.len() ==> (#[trigger] pairs[k]).0 == comps[k].1 && Some(pairs[k].1)
                    == jump_plays(instrs, comps[k].0 as int)
            &&& comps.len() > 0 && plays.len() > 0 && !all ==> pairs.len() <= comps.len()
                && pairs.len() <= plays.len() && (pairs.len() == comps.len() || pairs.len()
                == plays.len()) && forall|k: int|
                0 <= k < pairs.len() ==> (#[trigger] pairs[k]).0 == comps[k].1 && pairs[k].1
                    == plays[k]
        }),
{
}

/// What an object plays for a value of a register: the playlist of the first
/// pair with the value, and the only playlist there is if there is no pair.
pub proof fn law_static_plays(instrs: Seq<Instruction>, register: u32, value: u32)
    ensures
        ({
            let pairs = value_plays(instrs, register);
            let plays = immediate_plays(instrs, instrs.len() as int);
            let result = static_play(instrs, register, value);
            &&& (exists|k: int|
                0 <= k < pairs.len() && (#[trigger] pairs[k]).0 == value) ==> exists|k: int|
                0 <= k < pairs.len() && (#[trigger] pairs[k]).0 == value && result == Some(
                    pairs[k].1,
                ) && forall|j: int| 0 <= j < k ==> (#[trigger] pairs[j]).0 != value
            &&& pairs.len() == 0 && plays.len() == 1 ==> result == Some(plays[0])
            &&& pairs.len() == 0 && plays.len() != 1 ==> result is None
            &&& pairs.len() > 0 && (forall|k: int|
                0 <= k < pairs.len() ==> (#[trigger] pairs[k]).0 != value) ==> result is None
        }),
{
    let pairs = value_plays(instrs, register);
    law_first_comes_first(pairs, value_is(value));
    if exists|k: int| 0 <= k < pairs.len() && (#[trigger] pairs[k]).0 == value {
        let k = choose|k: int| 0 <= k < pairs.len() && (#[trigger] pairs[k]).0 == value;
        assert(value_is(value)(pairs[k]));
    }
}

// ---------------------------------------------------------------------------
// Assignments and jumps
// ---------------------------------------------------------------------------

/// The assignments of a program are those of its set commands, in order, and
/// its jump is the last one.
pub proof fn law_commands_read(commands: Seq<NavigationCommand>, c: NavigationCommand)
    ensures
        assignments(Seq::empty()) == Seq::<(u32, u32)>::empty(),
        jump_object(Seq::empty()) is None,
        c matches NavigationCommand::SetGpr { register, value } ==> assignments(commands.push(c))
            == assignments(commands).push((register, value)),
        !(c is SetGpr) ==> assignments(commands.push(c)) == assignments(commands),
        c matches NavigationCommand::GotoMobj { object_id } ==> jump_object(commands.push(c))
            == Some(object_id),
        !(c is GotoMobj) ==> jump_object(commands.push(c)) == jump_object(commands),
{
    assert(commands.push(c).drop_last() =~= commands);
}

// ---------------------------------------------------------------------------
// The ways of a button without a jump
// ---------------------------------------------------------------------------

/// An object that resumes where it plays the playlist in a register plays the
/// number that the button assigned to that register last.
pub proof fn law_resumed_objects_read_assignments(
    file: MovieObjectFile,
    sets: Seq<(u32, u32)>,
    valid: Set<u32>,
    ctx: PlayerContext,
    e: DispatchEntry,
    k: int,
)
    requires
        e.mobj_index < file.objects@.len(),
        e.dispatch_pc < file.objects@[e.mobj_index as int].instructions@.len(),
        ({
            let insn = file.objects@[e.mobj_index as int].instructions@[e.dispatch_pc as int];
            &&& insn.group == 0
            &&& insn.sub_group == 2
            &&& !insn.imm_op1
            &&& 0 <= k < sets.len()
            &&& insn.dst == sets[k].0
            &&& insn.dst < 0x8000_0000
        }),
        forall|j: int| k < j < sets.len() ==> (#[trigger] sets[j]).0 != sets[k].0,
        sets[k].1 < 0x1_0000,
        accepted(sets[k].1, valid),
    ensures
        entry_plays(file, sets, valid, ctx)(e) == Some(sets[k].1 as u16),
{
    let instrs = file.objects@[e.mobj_index as int].instructions@;
    lemma_reads_last(instrs[e.dispatch_pc as int], sets, ctx, k);
    law_entered_play_reads_assignments(instrs, e.dispatch_pc, sets, valid, ctx);
}

proof fn lemma_reads_last(insn: Instruction, sets: Seq<(u32, u32)>, ctx: PlayerContext, k: int)
    requires
        0 <= k < sets.len(),
        !insn.imm_op1,
        insn.dst == sets[k].0,
        insn.dst < 0x8000_0000,
        forall|j: int| k < j < sets.len() ==> (#[trigger] sets[j]).0 != sets[k].0,
    ensures
        value_of(insn.imm_op1, insn.dst, in_context(assigned(Map::empty(), sets), ctx))
            == sets[k].1,
{
    law_last_assignment_wins(Map::empty(), sets, sets[k].0);
    crate::mobj::vm::laws::law_context_registers(assigned(Map::empty(), sets), ctx, insn.dst);
}

/// An entry of an object that is not there plays nothing.
pub proof fn law_missing_objects_play_nothing(
    file: MovieObjectFile,
    sets: Seq<(u32, u32)>,
    valid: Set<u32>,
    ctx: PlayerContext,
    e: DispatchEntry,
)
    ensures
        e.mobj_index >= file.objects@.len() ==> entry_plays(file, sets, valid, ctx)(e) is None,
{
}

/// The dispatch case of an assignment is the sum of the button's number and
/// the assigned value, modulo 2^32. It plays the playlist of the first case
/// with that value.
pub proof fn law_sums_name_cases(table: DispatchTable, button_id: u16, set: (u32, u32))
    ensures
        sum_case_plays(None, button_id)(set) is None,
        ({
            let value = (button_id + set.1) % 0x1_0000_0000;
            match sum_case_plays(Some(&table), button_id)(set) {
                Some(playlist) => exists|k: int|
                    0 <= k < table.cases@.len() && (#[trigger] table.cases@[k]).0 == value
                        && playlist == table.cases@[k].1 && forall|j: int|
                        0 <= j < k ==> (#[trigger] table.cases@[j]).0 != value,
                None => forall|j: int|
                    0 <= j < table.cases@.len() ==> (#[trigger] table.cases@[j]).0 != value,
            }
        }),
{
    let value = (button_id as u32).wrapping_add(set.1);
    assert(value == (button_id + set.1) % 0x1_0000_0000);
    law_first_comes_first(table.cases@, case_is(value));
    let found = first_where(table.cases@, case_is(value));
    if found is Some {
        let k = choose|k: int|
            0 <= k < table.cases@.len() && #[trigger] table.cases@[k] == found->0 && case_is(
                value,
            )(found->0) && forall|j: int|
                0 <= j < k ==> !case_is(value)(#[trigger] table.cases@[j]);
        assert(table.cases@[k].0 == value);
        assert forall|j: int| 0 <= j < k implies (#[trigger] table.cases@[j]).0 != value by {
            assert(!case_is(value)(table.cases@[j]));
        }
    } else {
        assert forall|j: int| 0 <= j < table.cases@.len() implies (#[trigger] table.cases@[j]).0
            != value by {
            assert(!case_is(value)(table.cases@[j]));
        }
    }
}

/// Whether the first list has an element at `k` that the second does not have
/// there, and the two agree from `i` up to that place.
pub open spec fn part_at(a: Seq<u16>, b: Seq<u16>, i: int, k: int) -> bool {
    &&& i <= k < a.len()
    &&& k >= b.len() || a[k] != b[k]
    &&& k <= b.len() || k == i
    &&& forall|j: int| i <= j < k ==> #[trigger] a[j] == b[j]
}

/// Two lists diverge at the first place where the first has an element that
/// the second does not have there.
pub proof fn law_divergence(a: Seq<u16>, b: Seq<u16>, i: int)
    requires
        0 <= i,
    ensures
        match first_divergence(a, b, i) {
            Some(x) => exists|k: int| #[trigger] part_at(a, b, i, k) && a[k] == x,
            None => (i < a.len() ==> a.len() <= b.len()) && forall|j: int|
                i <= j < a.len() ==> #[trigger] a[j] == b[j],
        },
    decreases a.len() - i,
{
    if i < a.len() {
        if i >= b.len() || a[i] != b[i] {
            assert(part_at(a, b, i, i));
        } else {
            law_divergence(a, b, i + 1);
            if let Some(x) = first_divergence(a, b, i + 1) {
                let k = choose|k: int| #[trigger] part_at(a, b, i + 1, k) && a[k] == x;
                assert(part_at(a, b, i, k));
            }
        }
    }
}

/// Only objects that play a playlist from a register count for the last two
/// ways.
pub proof fn law_other_objects_pass(
    m: MovieObject,
    sets: Seq<(u32, u32)>,
    valid: Set<u32>,
    ctx: PlayerContext,
)
    requires
        forall|i: int|
            0 <= i < m.instructions@.len() && (#[trigger] m.instructions@[i]).group == 0
                && m.instructions@[i].sub_group == 2 ==> m.instructions@[i].imm_op1,
    ensures
        lifecycle_plays(sets, valid, ctx)(m) is None,
        direct_plays(sets, valid, ctx)(m) is None,
{
}

/// An object that begins by playing the playlist in a register plays the
/// number that the button assigned to that register last.
pub proof fn law_objects_read_assignments(
    m: MovieObject,
    sets: Seq<(u32, u32)>,
    valid: Set<u32>,
    ctx: PlayerContext,
    k: int,
)
    requires
        m.instructions@.len() > 0,
        m.instructions@[0].group == 0,
        m.instructions@[0].sub_group == 2,
        !m.instructions@[0].imm_op1,
        0 <= k < sets.len(),
        m.instructions@[0].dst == sets[k].0,
        sets[k].0 < 0x8000_0000,
        forall|j: int| k < j < sets.len() ==> (#[trigger] sets[j]).0 != sets[k].0,
        sets[k].1 < 0x1_0000,
        accepted(sets[k].1, valid),
    ensures
        direct_plays(sets, valid, ctx)(m) == Some(sets[k].1 as u16),
{
    let instrs = m.instructions@;
    lemma_reads_last(instrs[0], sets, ctx, k);
    law_entered_play_reads_assignments(instrs, 0, sets, valid, ctx);
    assert(crate::mobj::vm::is_play(instrs[0]));
    assert(plays_register(instrs));
}

/// The first playlist that an object meets with the assignments and not
/// without them is that of the first place in which the two lists of what it
/// meets differ.
pub proof fn law_lifecycle_compares_runs(
    m: MovieObject,
    sets: Seq<(u32, u32)>,
    valid: Set<u32>,
    ctx: PlayerContext,
    i: int,
)
    requires
        0 <= i < m.instructions@.len(),
        m.instructions@[i].group == 0,
        m.instructions@[i].sub_group == 2,
        !m.instructions@[i].imm_op1,
    ensures
        ({
            let with = traced(m.instructions@, sets, valid, ctx);
            let without = traced(m.instructions@, Seq::empty(), valid, ctx);
            match lifecycle_plays(sets, valid, ctx)(m) {
                Some(x) => exists|k: int| #[trigger] part_at(with, without, 0, k) && with[k] == x,
                None => with.len() <= without.len() && forall|j: int|
                    0 <= j < with.len() ==> #[trigger] with[j] == without[j],
            }
        }),
{
    assert(crate::mobj::vm::is_play(m.instructions@[i]));
    assert(plays_register(m.instructions@));
    law_divergence(
        traced(m.instructions@, sets, valid, ctx),
        traced(m.instructions@, seq![], valid, ctx),
        0,
    );
}

// ---------------------------------------------------------------------------
// Buttons
// ---------------------------------------------------------------------------

/// In which order the ways are tried. A button that assigns nothing plays
/// nothing. A button that jumps plays what its object plays for its last
/// assignment, and goes no other way. For any other button the first object
/// that resumes and plays something decides, else the first assignment that
/// names a dispatch case, else the first object that its assignments change,
/// else the first object that plays something from its start.
pub proof fn law_ways_of_a_button(
    button: Button,
    file: MovieObjectFile,
    valid: Set<u32>,
    ctx: PlayerContext,
    entries: Seq<DispatchEntry>,
    table: Option<&DispatchTable>,
)
    ensures
        ({
            let sets = assignments(button.commands@);
            let jump = jump_object(button.commands@);
            let result = button_plays(button, file, valid, ctx, entries, table);
            let resumes = |i: int| entry_plays(file, sets, valid, ctx)(entries[i]);
            let names = |i: int| sum_case_plays(table, button.button_id)(sets[i]);
            let changes = |i: int| lifecycle_plays(sets, valid, ctx)(file.objects@[i]);
            let begins = |i: int| direct_plays(sets, valid, ctx)(file.objects@[i]);
            let (r, c, l, d) = (
                first_of(resumes, entries.len()),
                first_of(names, sets.len()),
                first_of(changes, file.objects@.len()),
                first_of(begins, file.objects@.len()),
            );
            &&& sets.len() == 0 ==> result is None
            &&& sets.len() > 0 && jump is Some && jump->0 < file.objects@.len() ==> result
                == static_play(
                file.objects@[jump->0 as int].instructions@,
                sets[sets.len() - 1].0,
                sets[sets.len() - 1].1,
            )
            &&& sets.len() > 0 && jump is Some && jump->0 >= file.objects@.len() ==> result is None
            &&& sets.len() > 0 && jump is None && r is Some ==> result == resumes(r->0)
            &&& sets.len() > 0 && jump is None && r is None && c is Some ==> result == names(c->0)
            &&& sets.len() > 0 && jump is None && r is None && c is None && l is Some ==> result
                == changes(l->0)
            &&& sets.len() > 0 && jump is None && r is None && c is None && l is None && d is Some
                ==> result == begins(d->0)
            &&& sets.len() > 0 && jump is None && r is None && c is None && l is None && d is None
                ==> result is None
        }),
{
    let sets = assignments(button.commands@);
    let resumes = |i: int| entry_plays(file, sets, valid, ctx)(entries[i]);
    let names = |i: int| sum_case_plays(table, button.button_id)(sets[i]);
    let changes = |i: int| lifecycle_plays(sets, valid, ctx)(file.objects@[i]);
    let begins = |i: int| direct_plays(sets, valid, ctx)(file.objects@[i]);
    lemma_first_some(entries, entry_plays(file, sets, valid, ctx), resumes);
    lemma_first_some(sets, sum_case_plays(table, button.button_id), names);
    lemma_first_some(file.objects@, lifecycle_plays(sets, valid, ctx), changes);
    lemma_first_some(file.objects@, direct_plays(sets, valid, ctx), begins);
}

/// The first place below `n` at which something is played.
pub open spec fn first_of(plays: spec_fn(int) -> Option<u16>, n: nat) -> Option<int> {
    if exists|i: int| first_at(plays, n, i) {
        Some(choose|i: int| first_at(plays, n, i))
    } else {
        None
    }
}

/// Whether something is played at place `i` below `n`, and nothing before it.
pub open spec fn first_at(plays: spec_fn(int) -> Option<u16>, n: nat, i: int) -> bool {
    0 <= i < n && plays(i) is Some && forall|j: int| 0 <= j < i ==> #[trigger] plays(j) is None
}

proof fn lemma_first_some<T>(
    s: Seq<T>,
    f: spec_fn(T) -> Option<u16>,
    plays: spec_fn(int) -> Option<u16>,
)
    requires
        forall|i: int| 0 <= i < s.len() ==> #[trigger] plays(i) == f(s[i]),
    ensures
        match first_of(plays, s.len()) {
            Some(i) => first_some(s, f) == plays(i),
            None => first_some(s, f) is None,
        },
{
    law_first_result(s, f);
    match first_some(s, f) {
        Some(x) => {
            let k = choose|k: int|
                0 <= k < s.len() && f(#[trigger] s[k]) == Some(x) && forall|j: int|
                    0 <= j < k ==> f(#[trigger] s[j]) is None;
            assert forall|j: int| 0 <= j < k implies #[trigger] plays(j) is None by {
                assert(f(s[j]) is None);
            }
            assert(plays(k) is Some);
            assert(first_at(plays, s.len(), k));
            let i = choose|i: int| first_at(plays, s.len(), i);
            assert(first_at(plays, s.len(), i));
            if i < k {
                assert(plays(i) is None);
            }
            if k < i {
                assert(plays(k) is None);
            }
        },
        None => {
            if exists|i: int| first_at(plays, s.len(), i) {
                let i = choose|i: int| first_at(plays, s.len(), i);
                assert(f(s[i]) is None);
            }
        },
    }
}

/// The resolved buttons are, in order, those that do not play a playlist
/// directly and lead to one, which is played from its start.
pub proof fn law_resolved_buttons_listed(
    buttons: Seq<(Button, PlayerContext)>,
    file: MovieObjectFile,
    valid: Set<u32>,
    entries: Seq<DispatchEntry>,
    table: Option<&DispatchTable>,
    n: int,
) -> (from: Seq<int>)
    requires
        0 <= n <= buttons.len(),
    ensures
        ({
            let list = buttons_resolved(buttons, file, valid, entries, table, n);
            &&& from.len() == list.len()
            &&& forall|k: int|
                0 <= k < from.len() ==> {
                    let (button, ctx) = buttons[#[trigger] from[k]];
                    let playlist = button_plays(button, file, valid, ctx, entries, table);
                    &&& 0 <= from[k] < n
                    &&& !plays_directly(button)
                    &&& playlist is Some
                    &&& list[k].button_id == button.button_id
                    &&& list[k].target.playlist == playlist->0
                    &&& list[k].target.branch_opt == 0
                    &&& list[k].target.mark_or_pi == 0
                }
            &&& forall|j: int, k: int|
                0 <= j < k < from.len() ==> #[trigger] from[j] < #[trigger] from[k]
            &&& forall|i: int|
                0 <= i < n && !plays_directly((#[trigger] buttons[i]).0) && button_plays(
                    buttons[i].0,
                    file,
                    valid,
                    buttons[i].1,
                    entries,
                    table,
                ) is Some ==> from.contains(i)
        }),
    decreases n,
{
    if n == 0 {
        seq![]
    } else {
        let before = law_resolved_buttons_listed(buttons, file, valid, entries, table, n - 1);
        let (button, ctx) = buttons[n - 1];
        if button_plays(button, file, valid, ctx, entries, table) is Some && !plays_directly(
            button,
        ) {
            let from = before.push(n - 1);
            assert forall|i: int|
                0 <= i < n && !plays_directly((#[trigger] buttons[i]).0) && button_plays(
                    buttons[i].0,
                    file,
                    valid,
                    buttons[i].1,
                    entries,
                    table,
                ) is Some implies from.contains(i) by {
                if i == n - 1 {
                    assert(from[before.len() as int] == i);
                } else {
                    let k = choose|k: int| 0 <= k < before.len() && before[k] == i;
                    assert(from[k] == i);
                }
            }
            from
        } else {
            before
        }
    }
}

} // verus!
