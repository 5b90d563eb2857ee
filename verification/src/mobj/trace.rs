//! What a button plays, told from its register assignments by following the
//! movie objects that read them.
use std::collections::HashSet;

use vstd::prelude::*;

use super::press::{case_playlist, from_start, has_direct_play, lookup_case, plays_directly};
use super::vm::{execute_from, is_play, low_half, low_u16, played_from, trace_play_pls, traced};
use super::{
    DispatchEntry, DispatchTable, Instruction, MovieObject, MovieObjectFile, PlayTarget,
    PlayerContext, ResolvedButton, BRANCH_GOTO, BRANCH_PLAY, GRP_BRANCH, GRP_CMP,
};
use crate::nav::{Button, NavigationCommand};
use crate::seqs::{
    first_some, first_where, lemma_first_some_skip, lemma_first_where_found, lemma_first_where_none,
};

pub mod laws;

verus! {

// ---------------------------------------------------------------------------
// Comparisons and the plays that they lead to
// ---------------------------------------------------------------------------

/// Whether the instruction plays a playlist given as an immediate value.
pub open spec fn plays_immediate(insn: Instruction) -> bool {
    is_play(insn) && insn.imm_op1
}

/// The value with which an instruction compares a register.
pub open spec fn compares(insn: Instruction, register: u32) -> Option<u32> {
    if insn.group != GRP_CMP {
        None
    } else if !insn.imm_op1 && insn.dst == register && insn.imm_op2 {
        Some(insn.src)
    } else if insn.imm_op1 && !insn.imm_op2 && insn.src == register {
        Some(insn.dst)
    } else {
        None
    }
}

/// An integer as an index.
pub open spec fn index_of(n: int) -> usize {
    n as usize
}

/// Places and values of the comparisons with a register, among the first `n`
/// instructions.
pub open spec fn comparisons(instrs: Seq<Instruction>, register: u32, n: int) -> Seq<(usize, u32)>
    decreases n,
{
    if n <= 0 {
        seq![]
    } else {
        let before = comparisons(instrs, register, n - 1);
        match compares(instrs[n - 1], register) {
            Some(value) => before.push((index_of(n - 1), value)),
            None => before,
        }
    }
}

/// The playlists that the first `n` instructions play by immediate value.
pub open spec fn immediate_plays(instrs: Seq<Instruction>, n: int) -> Seq<u16>
    decreases n,
{
    if n <= 0 {
        seq![]
    } else {
        let before = immediate_plays(instrs, n - 1);
        if plays_immediate(instrs[n - 1]) {
            before.push(low_u16(instrs[n - 1].dst))
        } else {
            before
        }
    }
}

/// The playlist played where the goto after place `i` leads.
pub open spec fn jump_plays(instrs: Seq<Instruction>, i: int) -> Option<u16> {
    let next = instrs[i + 1];
    if i + 1 < instrs.len() && next.group == GRP_BRANCH && next.sub_group == BRANCH_GOTO
        && next.imm_op1 && next.dst < instrs.len() && plays_immediate(instrs[next.dst as int]) {
        Some(low_u16(instrs[next.dst as int].dst))
    } else {
        None
    }
}

/// Whether each of the comparisons is followed by a goto to a play.
pub open spec fn all_jump(instrs: Seq<Instruction>, comps: Seq<(usize, u32)>) -> bool {
    forall|k: int|
        0 <= k < comps.len() ==> jump_plays(instrs, (#[trigger] comps[k]).0 as int) is Some
}

/// Compared values with the playlists that the gotos lead to.
pub open spec fn jump_pairs(instrs: Seq<Instruction>, comps: Seq<(usize, u32)>) -> Seq<
    (u32, u16),
> {
    comps.map_values(|c: (usize, u32)| (c.1, jump_plays(instrs, c.0 as int)->0))
}

/// Compared values with the playlists in the same position.
pub open spec fn positional_pairs(comps: Seq<(usize, u32)>, plays: Seq<u16>) -> Seq<(u32, u16)> {
    Seq::new(
        if comps.len() < plays.len() {
            comps.len()
        } else {
            plays.len()
        },
        |k: int| (comps[k].1, plays[k]),
    )
}

/// The values with which a program compares a register, each with the
/// playlist that it then plays: by the gotos after the comparisons if all of
/// them lead to a play, else by position.
pub open spec fn value_plays(instrs: Seq<Instruction>, register: u32) -> Seq<(u32, u16)> {
    let comps = comparisons(instrs, register, instrs.len() as int);
    let plays = immediate_plays(instrs, instrs.len() as int);
    if comps.len() == 0 || plays.len() == 0 {
        seq![]
    } else if all_jump(instrs, comps) {
        jump_pairs(instrs, comps)
    } else {
        positional_pairs(comps, plays)
    }
}

/// A pair with the given value.
pub open spec fn value_is(value: u32) -> spec_fn((u32, u16)) -> bool {
    |p: (u32, u16)| p.0 == value
}

/// What a program plays when a register holds a value: the playlist paired
/// with the value, or the only playlist there is if no value is compared.
pub open spec fn static_play(instrs: Seq<Instruction>, register: u32, value: u32) -> Option<u16> {
    let pairs = value_plays(instrs, register);
    let plays = immediate_plays(instrs, instrs.len() as int);
    match first_where(pairs, value_is(value)) {
        Some(pair) => Some(pair.1),
        None => if pairs.len() == 0 && plays.len() == 1 {
            Some(plays[0])
        } else {
            None
        },
    }
}

fn to_index(x: u32) -> (i: usize)
    ensures
        i == x,
{
    x as usize
}

fn compared_value(insn: &Instruction, register: u32) -> (value: Option<u32>)
    ensures
        value == compares(*insn, register),
{
    if insn.group != GRP_CMP {
        None
    } else if !insn.imm_op1 && insn.dst == register && insn.imm_op2 {
        Some(insn.src)
    } else if insn.imm_op1 && !insn.imm_op2 && insn.src == register {
        Some(insn.dst)
    } else {
        None
    }
}

fn is_immediate_play(insn: &Instruction) -> (yes: bool)
    ensures
        yes == plays_immediate(*insn),
{
    insn.group == GRP_BRANCH && insn.sub_group == BRANCH_PLAY && insn.imm_op1
}

fn collect_comparisons(instrs: &[Instruction], register: u32) -> (comps: Vec<(usize, u32)>)
    ensures
        comps@ == comparisons(instrs@, register, instrs@.len() as int),
        forall|k: int| 0 <= k < comps@.len() ==> (#[trigger] comps@[k]).0 < instrs@.len(),
{
    let mut comps: Vec<(usize, u32)> = Vec::new();
    let mut i: usize = 0;
    while i < instrs.len()
        invariant
            i <= instrs.len(),
            comps@ == comparisons(instrs@, register, i as int),
            forall|k: int| 0 <= k < comps@.len() ==> (#[trigger] comps@[k]).0 < instrs@.len(),
        decreases instrs.len() - i,
    {
        if let Some(value) = compared_value(&instrs[i], register) {
            comps.push((i, value));
        }
        i = i + 1;
    }
    comps
}

fn collect_immediate_plays(instrs: &[Instruction]) -> (plays: Vec<u16>)
    ensures
        plays@ == immediate_plays(instrs@, instrs@.len() as int),
{
    let mut plays: Vec<u16> = Vec::new();
    let mut i: usize = 0;
    while i < instrs.len()
        invariant
            i <= instrs.len(),
            plays@ == immediate_plays(instrs@, i as int),
        decreases instrs.len() - i,
    {
        if is_immediate_play(&instrs[i]) {
            plays.push(low_half(instrs[i].dst));
        }
        i = i + 1;
    }
    plays
}

fn jump_play(instrs: &[Instruction], i: usize) -> (playlist: Option<u16>)
    requires
        i < instrs@.len(),
    ensures
        playlist == jump_plays(instrs@, i as int),
{
    if instrs.len() - i > 1 {
        let next: &Instruction = &instrs[i + 1];
        if next.group == GRP_BRANCH && next.sub_group == BRANCH_GOTO && next.imm_op1 {
            let target: usize = to_index(next.dst);
            if target < instrs.len() && is_immediate_play(&instrs[target]) {
                return Some(low_half(instrs[target].dst));
            }
        }
    }
    None
}

/// Pairs each comparison with the playlist that the goto after it leads to.
/// Returns nothing unless all of them can be paired.
fn try_branch_target_pairing(instrs: &[Instruction], comps: &[(usize, u32)]) -> (pairs: Vec<
    (u32, u16),
>)
    requires
        forall|k: int| 0 <= k < comps@.len() ==> (#[trigger] comps@[k]).0 < instrs@.len(),
    ensures
        pairs@ == if all_jump(instrs@, comps@) {
            jump_pairs(instrs@, comps@)
        } else {
            seq![]
        },
{
    let mut pairs: Vec<(u32, u16)> = Vec::new();
    let mut k: usize = 0;
    while k < comps.len()
        invariant
            k <= comps.len(),
            pairs@ == jump_pairs(instrs@, comps@.take(k as int)),
            forall|j: int|
                0 <= j < k ==> jump_plays(instrs@, (#[trigger] comps@[j]).0 as int) is Some,
            forall|j: int| 0 <= j < comps@.len() ==> (#[trigger] comps@[j]).0 < instrs@.len(),
        decreases comps.len() - k,
    {
        let (i, value) = comps[k];
        match jump_play(instrs, i) {
            Some(playlist) => {
                pairs.push((value, playlist));
                proof {
                    assert(comps@.take(k + 1) =~= comps@.take(k as int).push(comps@[k as int]));
                }
            },
            None => {
                assert(jump_plays(instrs@, comps@[k as int].0 as int) is None);
                return Vec::new();
            },
        }
        k = k + 1;
    }
    proof {
        assert(comps@.take(k as int) =~= comps@);
    }
    pairs
}

fn pair_by_position(comps: &[(usize, u32)], plays: &[u16]) -> (pairs: Vec<(u32, u16)>)
    ensures
        pairs@ == positional_pairs(comps@, plays@),
{
    let mut pairs: Vec<(u32, u16)> = Vec::new();
    let mut k: usize = 0;
    while k < comps.len() && k < plays.len()
        invariant
            k <= comps.len(),
            k <= plays.len(),
            pairs@ == positional_pairs(comps@.take(k as int), plays@),
        decreases comps.len() - k,
    {
        pairs.push((comps[k].1, plays[k]));
        k = k + 1;
    }
    proof {
        assert(pairs@ =~= positional_pairs(comps@, plays@));
    }
    pairs
}

/// Collects the values with which a program compares a register, each with
/// the playlist that it then plays.
pub fn collect_cmp_play_pairs(instrs: &[Instruction], register: u32) -> (pairs: Vec<(u32, u16)>)
    ensures
        pairs@ == value_plays(instrs@, register),
{
    let comps: Vec<(usize, u32)> = collect_comparisons(instrs, register);
    let plays: Vec<u16> = collect_immediate_plays(instrs);
    if comps.is_empty() || plays.is_empty() {
        return Vec::new();
    }
    let pairs: Vec<(u32, u16)> = try_branch_target_pairing(instrs, &comps);
    if !pairs.is_empty() {
        return pairs;
    }
    pair_by_position(&comps, &plays)
}

fn play_paired_with(pairs: &[(u32, u16)], value: u32) -> (playlist: Option<u16>)
    ensures
        playlist == match first_where(pairs@, value_is(value)) {
            Some(pair) => Some(pair.1),
            None => None,
        },
{
    let mut i: usize = 0;
    while i < pairs.len()
        invariant
            i <= pairs.len(),
            forall|j: int| 0 <= j < i ==> !value_is(value)(#[trigger] pairs@[j]),
        decreases pairs.len() - i,
    {
        if pairs[i].0 == value {
            proof {
                lemma_first_where_found(pairs@, value_is(value), i as int);
            }
            return Some(pairs[i].1);
        }
        i = i + 1;
    }
    proof {
        lemma_first_where_none(pairs@, value_is(value));
    }
    None
}

/// Tells what a movie object plays when a register holds a value, without
/// running it.
fn resolve_in_mobj_static(mobj: &MovieObject, register: u32, value: u32) -> (playlist: Option<u16>)
    ensures
        playlist == static_play(mobj.instructions@, register, value),
{
    let pairs: Vec<(u32, u16)> = collect_cmp_play_pairs(&mobj.instructions, register);
    let paired: Option<u16> = play_paired_with(&pairs, value);
    if paired.is_some() {
        return paired;
    }
    if pairs.is_empty() {
        let plays: Vec<u16> = collect_immediate_plays(&mobj.instructions);
        if plays.len() == 1 {
            return Some(plays[0]);
        }
    }
    None
}

// ---------------------------------------------------------------------------
// Following a button
// ---------------------------------------------------------------------------

/// The register assignments of a button's program, in order.
pub open spec fn assignments(commands: Seq<NavigationCommand>) -> Seq<(u32, u32)>
    decreases commands.len(),
{
    if commands.len() == 0 {
        seq![]
    } else {
        let before = assignments(commands.drop_last());
        match commands.last() {
            NavigationCommand::SetGpr { register, value } => before.push((register, value)),
            _ => before,
        }
    }
}

/// The movie object to which a button's program last jumps.
pub open spec fn jump_object(commands: Seq<NavigationCommand>) -> Option<u32>
    decreases commands.len(),
{
    if commands.len() == 0 {
        None
    } else {
        match commands.last() {
            NavigationCommand::GotoMobj { object_id } => Some(object_id),
            _ => jump_object(commands.drop_last()),
        }
    }
}

/// The playlist of a target.
pub open spec fn playlist_of(target: Option<PlayTarget>) -> Option<u16> {
    match target {
        Some(t) => Some(t.playlist),
        None => None,
    }
}

/// What is played when an object resumes at an entry with a button's
/// assignments.
pub open spec fn entry_plays(
    file: MovieObjectFile,
    sets: Seq<(u32, u32)>,
    valid: Set<u32>,
    ctx: PlayerContext,
) -> spec_fn(DispatchEntry) -> Option<u16> {
    |e: DispatchEntry|
        if e.mobj_index < file.objects@.len() {
            playlist_of(
                played_from(
                    file.objects@[e.mobj_index as int].instructions@,
                    e.dispatch_pc,
                    sets,
                    valid,
                    ctx,
                ),
            )
        } else {
            None
        }
}

/// What the dispatch case is that a button's number and an assigned value
/// make, and what it plays.
pub open spec fn sum_case_plays(table: Option<&DispatchTable>, button_id: u16) -> spec_fn(
    (u32, u32),
) -> Option<u16> {
    |set: (u32, u32)| case_playlist(table, (button_id as u32).wrapping_add(set.1))
}

/// Whether a program plays a playlist that it reads from a register.
pub open spec fn plays_register(instrs: Seq<Instruction>) -> bool {
    exists|i: int| 0 <= i < instrs.len() && is_play(#[trigger] instrs[i]) && !instrs[i].imm_op1
}

/// The first element of `a`, from `i` on, in which it differs from `b`.
pub open spec fn first_divergence(a: Seq<u16>, b: Seq<u16>, i: int) -> Option<u16>
    decreases a.len() - i,
{
    if i >= a.len() {
        None
    } else if i >= b.len() || a[i] != b[i] {
        Some(a[i])
    } else {
        first_divergence(a, b, i + 1)
    }
}

/// The first playlist that an object meets with a button's assignments but
/// not without them.
pub open spec fn lifecycle_plays(
    sets: Seq<(u32, u32)>,
    valid: Set<u32>,
    ctx: PlayerContext,
) -> spec_fn(MovieObject) -> Option<u16> {
    |m: MovieObject|
        if plays_register(m.instructions@) {
            first_divergence(
                traced(m.instructions@, sets, valid, ctx),
                traced(m.instructions@, seq![], valid, ctx),
                0,
            )
        } else {
            None
        }
}

/// What an object plays when it runs from its start with a button's
/// assignments.
pub open spec fn direct_plays(
    sets: Seq<(u32, u32)>,
    valid: Set<u32>,
    ctx: PlayerContext,
) -> spec_fn(MovieObject) -> Option<u16> {
    |m: MovieObject|
        if plays_register(m.instructions@) {
            playlist_of(played_from(m.instructions@, 0, sets, valid, ctx))
        } else {
            None
        }
}

/// What a button plays. A button that assigns no register plays nothing. If it
/// jumps to an object, the object's comparisons with the last assignment tell.
/// Else, in this order: the objects that resume after a menu, the dispatch
/// table, the objects with and without the assignments, the objects from their
/// start.
pub open spec fn button_plays(
    button: Button,
    file: MovieObjectFile,
    valid: Set<u32>,
    ctx: PlayerContext,
    entries: Seq<DispatchEntry>,
    table: Option<&DispatchTable>,
) -> Option<u16> {
    let sets = assignments(button.commands@);
    let resumed = first_some(entries, entry_plays(file, sets, valid, ctx));
    let tabled = first_some(sets, sum_case_plays(table, button.button_id));
    let lived = first_some(file.objects@, lifecycle_plays(sets, valid, ctx));
    if sets.len() == 0 {
        None
    } else if let Some(object_id) = jump_object(button.commands@) {
        if object_id < file.objects@.len() {
            static_play(
                file.objects@[object_id as int].instructions@,
                sets.last().0,
                sets.last().1,
            )
        } else {
            None
        }
    } else if resumed is Some {
        resumed
    } else if tabled is Some {
        tabled
    } else if lived is Some {
        lived
    } else {
        first_some(file.objects@, direct_plays(sets, valid, ctx))
    }
}

/// The buttons among the first `n` that lead to a playlist, with it.
pub open spec fn buttons_resolved(
    buttons: Seq<(Button, PlayerContext)>,
    file: MovieObjectFile,
    valid: Set<u32>,
    entries: Seq<DispatchEntry>,
    table: Option<&DispatchTable>,
    n: int,
) -> Seq<ResolvedButton>
    decreases n,
{
    if n <= 0 {
        seq![]
    } else {
        let before = buttons_resolved(buttons, file, valid, entries, table, n - 1);
        let (button, ctx) = buttons[n - 1];
        match button_plays(button, file, valid, ctx, entries, table) {
            Some(playlist) if !plays_directly(button) => before.push(
                ResolvedButton { button_id: button.button_id, target: from_start(playlist) },
            ),
            _ => before,
        }
    }
}

fn has_register_play(instrs: &[Instruction]) -> (yes: bool)
    ensures
        yes == plays_register(instrs@),
{
    let mut i: usize = 0;
    while i < instrs.len()
        invariant
            i <= instrs.len(),
            forall|j: int|
                0 <= j < i ==> !(is_play(#[trigger] instrs@[j]) && !instrs@[j].imm_op1),
        decreases instrs.len() - i,
    {
        let insn: &Instruction = &instrs[i];
        if insn.group == GRP_BRANCH && insn.sub_group == BRANCH_PLAY && !insn.imm_op1 {
            assert(is_play(instrs@[i as int]));
            return true;
        }
        i = i + 1;
    }
    false
}

/// Runs movie objects from the dispatch entries until one plays something.
fn resolve_via_dispatch(
    mobj_file: &MovieObjectFile,
    gpr_assignments: &[(u32, u32)],
    valid_playlists: &HashSet<u32>,
    ctx: &PlayerContext,
    dispatch_entries: &[DispatchEntry],
) -> (playlist: Option<u16>)
    ensures
        playlist == first_some(
            dispatch_entries@,
            entry_plays(*mobj_file, gpr_assignments@, valid_playlists@, *ctx),
        ),
{
    let ghost f = entry_plays(*mobj_file, gpr_assignments@, valid_playlists@, *ctx);
    let mut i: usize = 0;
    while i < dispatch_entries.len()
        invariant
            i <= dispatch_entries.len(),
            f == entry_plays(*mobj_file, gpr_assignments@, valid_playlists@, *ctx),
            forall|j: int| 0 <= j < i ==> f(#[trigger] dispatch_entries@[j]) is None,
        decreases dispatch_entries.len() - i,
    {
        let entry: DispatchEntry = dispatch_entries[i];
        if entry.mobj_index < mobj_file.objects.len() {
            if let Some(target) = execute_from(
                &mobj_file.objects[entry.mobj_index].instructions,
                entry.dispatch_pc,
                gpr_assignments,
                valid_playlists,
                ctx,
            ) {
                proof {
                    lemma_first_some_skip(dispatch_entries@, f, i as int);
                }
                return Some(target.playlist);
            }
        }
        i = i + 1;
    }
    proof {
        lemma_first_some_skip(dispatch_entries@, f, i as int);
    }
    None
}

fn diverging(a: &[u16], b: &[u16]) -> (playlist: Option<u16>)
    ensures
        playlist == first_divergence(a@, b@, 0),
{
    let mut i: usize = 0;
    while i < a.len()
        invariant
            i <= a.len(),
            first_divergence(a@, b@, 0) == first_divergence(a@, b@, i as int),
        decreases a.len() - i,
    {
        if i >= b.len() || a[i] != b[i] {
            return Some(a[i]);
        }
        i = i + 1;
    }
    None
}

/// Compares what each movie object meets with a button's assignments to what
/// it meets without them.
fn resolve_via_lifecycle(
    mobj_file: &MovieObjectFile,
    gpr_assignments: &[(u32, u32)],
    valid_playlists: &HashSet<u32>,
    ctx: &PlayerContext,
) -> (playlist: Option<u16>)
    ensures
        playlist == first_some(
            mobj_file.objects@,
            lifecycle_plays(gpr_assignments@, valid_playlists@, *ctx),
        ),
{
    let ghost f = lifecycle_plays(gpr_assignments@, valid_playlists@, *ctx);
    let none: Vec<(u32, u32)> = Vec::new();
    let mut i: usize = 0;
    while i < mobj_file.objects.len()
        invariant
            i <= mobj_file.objects.len(),
            none@ == Seq::<(u32, u32)>::empty(),
            f == lifecycle_plays(gpr_assignments@, valid_playlists@, *ctx),
            forall|j: int| 0 <= j < i ==> f(#[trigger] mobj_file.objects@[j]) is None,
        decreases mobj_file.objects.len() - i,
    {
        let instrs: &Vec<Instruction> = &mobj_file.objects[i].instructions;
        if has_register_play(instrs) {
            let with: Vec<u16> = trace_play_pls(instrs, gpr_assignments, valid_playlists, ctx);
            let without: Vec<u16> = trace_play_pls(instrs, &none, valid_playlists, ctx);
            let found: Option<u16> = diverging(&with, &without);
            assert(found == f(mobj_file.objects@[i as int]));
            if found.is_some() {
                proof {
                    lemma_first_some_skip(mobj_file.objects@, f, i as int);
                }
                return found;
            }
        }
        i = i + 1;
    }
    proof {
        lemma_first_some_skip(mobj_file.objects@, f, i as int);
    }
    None
}

/// Runs each movie object from its start with a button's assignments.
fn resolve_directly(
    mobj_file: &MovieObjectFile,
    gpr_assignments: &[(u32, u32)],
    valid_playlists: &HashSet<u32>,
    ctx: &PlayerContext,
) -> (playlist: Option<u16>)
    ensures
        playlist == first_some(
            mobj_file.objects@,
            direct_plays(gpr_assignments@, valid_playlists@, *ctx),
        ),
{
    let ghost f = direct_plays(gpr_assignments@, valid_playlists@, *ctx);
    let mut i: usize = 0;
    while i < mobj_file.objects.len()
        invariant
            i <= mobj_file.objects.len(),
            f == direct_plays(gpr_assignments@, valid_playlists@, *ctx),
            forall|j: int| 0 <= j < i ==> f(#[trigger] mobj_file.objects@[j]) is None,
        decreases mobj_file.objects.len() - i,
    {
        let instrs: &Vec<Instruction> = &mobj_file.objects[i].instructions;
        if has_register_play(instrs) {
            if let Some(target) = execute_from(instrs, 0, gpr_assignments, valid_playlists, ctx) {
                proof {
                    lemma_first_some_skip(mobj_file.objects@, f, i as int);
                }
                return Some(target.playlist);
            }
        }
        i = i + 1;
    }
    proof {
        lemma_first_some_skip(mobj_file.objects@, f, i as int);
    }
    None
}

fn lookup_sums(table: Option<&DispatchTable>, button_id: u16, sets: &[(u32, u32)]) -> (playlist:
    Option<u16>)
    ensures
        playlist == first_some(sets@, sum_case_plays(table, button_id)),
{
    let ghost f = sum_case_plays(table, button_id);
    let mut i: usize = 0;
    while i < sets.len()
        invariant
            i <= sets.len(),
            f == sum_case_plays(table, button_id),
            forall|j: int| 0 <= j < i ==> f(#[trigger] sets@[j]) is None,
        decreases sets.len() - i,
    {
        let found: Option<u16> = lookup_case(table, (button_id as u32).wrapping_add(sets[i].1));
        assert(found == f(sets@[i as int]));
        if found.is_some() {
            proof {
                lemma_first_some_skip(sets@, f, i as int);
            }
            return found;
        }
        i = i + 1;
    }
    proof {
        lemma_first_some_skip(sets@, f, i as int);
    }
    None
}

/// Tells what one button plays.
fn trace_button(
    button: &Button,
    mobj_file: &MovieObjectFile,
    valid_playlists: &HashSet<u32>,
    ctx: &PlayerContext,
    dispatch_entries: &[DispatchEntry],
    dispatch_table: Option<&DispatchTable>,
) -> (playlist: Option<u16>)
    ensures
        playlist == button_plays(
            *button,
            *mobj_file,
            valid_playlists@,
            *ctx,
            dispatch_entries@,
            dispatch_table,
        ),
{
    let mut sets: Vec<(u32, u32)> = Vec::new();
    let mut jump: Option<u32> = None;
    let mut i: usize = 0;
    while i < button.commands.len()
        invariant
            i <= button.commands.len(),
            sets@ == assignments(button.commands@.take(i as int)),
            jump == jump_object(button.commands@.take(i as int)),
        decreases button.commands.len() - i,
    {
        proof {
            assert(button.commands@.take(i + 1).drop_last() =~= button.commands@.take(i as int));
        }
        match button.commands[i] {
            NavigationCommand::SetGpr { register, value } => {
                sets.push((register, value));
            },
            NavigationCommand::GotoMobj { object_id } => {
                jump = Some(object_id);
            },
            _ => {},
        }
        i = i + 1;
    }
    proof {
        assert(button.commands@.take(i as int) =~= button.commands@);
    }
    if sets.is_empty() {
        return None;
    }
    if let Some(object_id) = jump {
        let index: usize = object_id as usize;
        if index >= mobj_file.objects.len() {
            return None;
        }
        let (register, value) = sets[sets.len() - 1];
        return resolve_in_mobj_static(&mobj_file.objects[index], register, value);
    }
    let resumed: Option<u16> = resolve_via_dispatch(
        mobj_file,
        &sets,
        valid_playlists,
        ctx,
        dispatch_entries,
    );
    if resumed.is_some() {
        return resumed;
    }
    let tabled: Option<u16> = lookup_sums(dispatch_table, button.button_id, &sets);
    if tabled.is_some() {
        return tabled;
    }
    let lived: Option<u16> = resolve_via_lifecycle(mobj_file, &sets, valid_playlists, ctx);
    if lived.is_some() {
        return lived;
    }
    resolve_directly(mobj_file, &sets, valid_playlists, ctx)
}

/// Tells what buttons play, by tracing their register assignments through the
/// movie objects. Buttons that play a playlist directly, and those that lead
/// to none, are left out.
#[must_use]
pub fn resolve_buttons(
    buttons: &[(Button, PlayerContext)],
    mobj_file: &MovieObjectFile,
    valid_playlists: &HashSet<u32>,
    dispatch_entries: &[DispatchEntry],
    dispatch_table: Option<&DispatchTable>,
) -> (list: Vec<ResolvedButton>)
    ensures
        list@ == buttons_resolved(
            buttons@,
            *mobj_file,
            valid_playlists@,
            dispatch_entries@,
            dispatch_table,
            buttons@.len() as int,
        ),
{
    let mut list: Vec<ResolvedButton> = Vec::new();
    let mut i: usize = 0;
    while i < buttons.len()
        invariant
            i <= buttons.len(),
            list@ == buttons_resolved(
                buttons@,
                *mobj_file,
                valid_playlists@,
                dispatch_entries@,
                dispatch_table,
                i as int,
            ),
        decreases buttons.len() - i,
    {
        let button: &Button = &buttons[i].0;
        if !has_direct_play(button) {
            if let Some(playlist) = trace_button(
                button,
                mobj_file,
                valid_playlists,
                &buttons[i].1,
                dispatch_entries,
                dispatch_table,
            ) {
                list.push(
                    ResolvedButton {
                        button_id: button.button_id,
                        target: PlayTarget { playlist, branch_opt: 0, mark_or_pi: 0 },
                    },
                );
            }
        }
        i = i + 1;
    }
    list
}

// ---------------------------------------------------------------------------
// Laws
// ---------------------------------------------------------------------------

/// Every entry is that of a button that plays nothing directly, starts its
/// playlist at the beginning, and comes before the entries of later buttons:
/// there is an ascending choice of buttons, one for each entry.
pub proof fn law_one_entry_per_button(
    buttons: Seq<(Button, PlayerContext)>,
    file: MovieObjectFile,
    valid: Set<u32>,
    entries: Seq<DispatchEntry>,
    table: Option<&DispatchTable>,
    n: int,
) -> (from: Seq<int>)
    requires
        0 <= n <= buttons.len(),
    ensures
        from.len() == buttons_resolved(buttons, file, valid, entries, table, n).len(),
        forall|i: int, j: int| 0 <= i < j < from.len() ==> #[trigger] from[i] < #[trigger] from[j],
        forall|i: int|
            0 <= i < from.len() ==> {
                let r = buttons_resolved(buttons, file, valid, entries, table, n)[i];
                &&& 0 <= #[trigger] from[i] < n
                &&& r.button_id == buttons[from[i]].0.button_id
                &&& !plays_directly(buttons[from[i]].0)
                &&& r.target == from_start(r.target.playlist)
                &&& button_plays(
                    buttons[from[i]].0,
                    file,
                    valid,
                    buttons[from[i]].1,
                    entries,
                    table,
                ) == Some(r.target.playlist)
            },
    decreases n,
{
    if n == 0 {
        seq![]
    } else {
        let before = law_one_entry_per_button(buttons, file, valid, entries, table, n - 1);
        let (button, ctx) = buttons[n - 1];
        match button_plays(button, file, valid, ctx, entries, table) {
            Some(playlist) if !plays_directly(button) => before.push(n - 1),
            _ => before,
        }
    }
}

} // verus!
