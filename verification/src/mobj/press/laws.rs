//! What pressing a button comes to, button by button.
use vstd::prelude::*;

use super::{
    case_is, case_playlist, handler_gprs, outcome, page_is, page_of, plays_directly, Disc, Outcome,
    Press,
};
use crate::mobj::anchors::{anchor, shown_for};
use crate::mobj::dispatch::handler_from;
use crate::mobj::vm::laws::{
    accepted, law_buttons_set_and_go, law_last_assignment_wins, law_play_ends_run, lemma_accepted,
    lemma_flag_bit, set_commands, value_of,
};
use crate::mobj::vm::{activated, assigned, in_context, run, ButtonEffect};
use crate::mobj::{DispatchTable, NavClipInput, PlayTarget, PlayerContext, VM_STEP_LIMIT};
use crate::nav::{Button, NavigationCommand, Page};
use crate::seqs::{first_where, law_first_comes_first, law_last_comes_last};

verus! {

/// A value has the playlist of the first case with it.
pub proof fn law_cases_looked_up(table: DispatchTable, value: u32)
    ensures
        case_playlist(None, value) is None,
        match case_playlist(Some(&table), value) {
            Some(playlist) => exists|k: int|
                0 <= k < table.cases@.len() && #[trigger] table.cases@[k] == (value, playlist)
                    && forall|j: int| 0 <= j < k ==> (#[trigger] table.cases@[j]).0 != value,
            None => forall|j: int|
                0 <= j < table.cases@.len() ==> (#[trigger] table.cases@[j]).0 != value,
        },
{
    law_first_comes_first(table.cases@, case_is(value));
    let found = first_where(table.cases@, case_is(value));
    if found is Some {
        let k = choose|k: int|
            0 <= k < table.cases@.len() && #[trigger] table.cases@[k] == found->0 && case_is(
                value,
            )(found->0) && forall|j: int|
                0 <= j < k ==> !case_is(value)(#[trigger] table.cases@[j]);
        let case = found->0;
        assert(table.cases@[k] == (value, case.1));
        assert forall|j: int| 0 <= j < k implies (#[trigger] table.cases@[j]).0 != value by {
            assert(!case_is(value)(table.cases@[j]));
        }
    } else {
        assert forall|j: int| 0 <= j < table.cases@.len() implies (#[trigger] table.cases@[j]).0
            != value by {
            assert(!case_is(value)(table.cases@[j]));
        }
    }
}

/// A button with a command that plays a playlist comes to nothing here.
pub proof fn law_direct_plays_left_out(
    disc: Disc,
    ig_pid: u16,
    page: Page,
    page_id: u8,
    button: Button,
    gprs: Map<u32, u32>,
    i: int,
)
    requires
        0 <= i < button.commands@.len(),
        button.commands@[i] is PlayPl,
    ensures
        outcome(disc, ig_pid, page, page_id, button, gprs) is Nothing,
{
    assert(plays_directly(button));
}

/// A button whose commands are all empty plays, from its start, the playlist
/// of the dispatch case with its own number.
pub proof fn law_anchors_play_their_case(
    disc: Disc,
    ig_pid: u16,
    page: Page,
    page_id: u8,
    button: Button,
    gprs: Map<u32, u32>,
)
    requires
        forall|i: int|
            0 <= i < button.commands@.len() ==> #[trigger] button.commands@[i] == (
            NavigationCommand::Other { opcode: 0, dst: 0, src: 0 }),
    ensures
        match case_playlist(disc.table, button.button_id as u32) {
            Some(playlist) => outcome(disc, ig_pid, page, page_id, button, gprs) == (
            Outcome::Plays {
                target: PlayTarget { playlist, branch_opt: 0, mark_or_pi: 0 },
                button_id: shown_for(page, button, ig_pid, page_id, gprs),
            }),
            None => outcome(disc, ig_pid, page, page_id, button, gprs) is Nothing,
        },
{
    assert(anchor(button));
    if plays_directly(button) {
        let i = choose|i: int|
            0 <= i < button.commands@.len() && #[trigger] button.commands@[i] is PlayPl;
        assert(button.commands@[i] is Other);
    }
}

/// What any other button comes to, by what its program comes to in its
/// context: stream, own number and page. A playlist is played if its number is
/// accepted, at the mark or play item that the program gave. A movie object
/// plays what its run of ten thousand steps plays, with the registers that the
/// program left. A change of page opens the page of the low byte, and keeps
/// the general purpose registers.
pub proof fn law_programs_decide(
    disc: Disc,
    ig_pid: u16,
    page: Page,
    page_id: u8,
    button: Button,
    gprs: Map<u32, u32>,
    i: int,
)
    requires
        0 <= i < button.commands@.len(),
        button.commands@[i] != (NavigationCommand::Other { opcode: 0, dst: 0, src: 0 }),
        forall|j: int|
            0 <= j < button.commands@.len() ==> !(#[trigger] button.commands@[j] is PlayPl),
    ensures
        ({
            let ctx = PlayerContext {
                ig_stream: ig_pid,
                selected_button_id: button.button_id,
                page_id,
            };
            let (effect, regs) = activated(button.commands@, ctx, gprs);
            let result = outcome(disc, ig_pid, page, page_id, button, gprs);
            &&& effect matches ButtonEffect::Playlist { playlist, branch_opt, mark_or_pi } ==> {
                &&& accepted(playlist as u32, disc.valid@) ==> result == (Outcome::Plays {
                    target: PlayTarget { playlist, branch_opt, mark_or_pi },
                    button_id: button.button_id,
                })
                &&& !accepted(playlist as u32, disc.valid@) ==> result is Nothing
            }
            &&& effect matches ButtonEffect::GotoMobj(id) ==> {
                let plays = if id < disc.file.objects@.len() {
                    run(
                        disc.file.objects@[id as int].instructions@,
                        0,
                        regs,
                        disc.valid@,
                        10_000,
                    ).0
                } else {
                    None
                };
                &&& plays matches Some(target) ==> result == (Outcome::Plays {
                    target,
                    button_id: button.button_id,
                })
                &&& plays is None ==> result is Nothing
            }
            &&& effect matches ButtonEffect::SetButtonPage { composite, page: number } ==> {
                &&& result is Opens
                &&& result->composite == composite
                &&& result->page == number % 256
                &&& forall|r: u32| #[trigger]
                    result->gprs.contains_key(r) <==> r < 0x8000_0000 && regs.contains_key(r)
                &&& forall|r: u32| #[trigger]
                    result->gprs.contains_key(r) ==> result->gprs[r] == regs[r]
            }
            &&& effect is Nothing ==> result is Nothing
        }),
{
    let ctx = PlayerContext { ig_stream: ig_pid, selected_button_id: button.button_id, page_id };
    let (effect, regs) = activated(button.commands@, ctx, gprs);
    let result = outcome(disc, ig_pid, page, page_id, button, gprs);
    assert(!anchor(button)) by {
        if anchor(button) {
            assert(crate::mobj::anchors::is_nop(button.commands@[i]));
        }
    }
    assert(!plays_directly(button));
    if let ButtonEffect::Playlist { playlist, branch_opt, mark_or_pi } = effect {
        lemma_accepted(playlist as u32, disc.valid@);
    }
    if let ButtonEffect::SetButtonPage { composite, page: number } = effect {
        assert((number & 0xFF) as u8 == number % 256) by (bit_vector);
        assert forall|r: u32| #[trigger] result->gprs.contains_key(r) <==> r < 0x8000_0000
            && regs.contains_key(r) by {
            lemma_flag_bit(r);
        }
    }
}

/// A button that sets registers and jumps to an object, which begins by
/// playing the playlist in one of them, plays the number that was set last, at
/// the mark or play item that the object gives.
#[verifier::rlimit(30)]
pub proof fn law_buttons_hand_numbers_to_objects(
    disc: Disc,
    ig_pid: u16,
    page: Page,
    page_id: u8,
    button: Button,
    gprs: Map<u32, u32>,
    sets: Seq<(u32, u32)>,
    object_id: u32,
    k: int,
)
    requires
        0 <= k < sets.len() < 10_000,
        button.commands@ == set_commands(sets).push(NavigationCommand::GotoMobj { object_id }),
        object_id < disc.file.objects@.len(),
        disc.file.objects@[object_id as int].instructions@.len() > 0,
        ({
            let insn = disc.file.objects@[object_id as int].instructions@[0];
            insn.group == 0 && insn.sub_group == 2 && !insn.imm_op1 && insn.dst == sets[k].0
        }),
        forall|j: int| k < j < sets.len() ==> (#[trigger] sets[j]).0 != sets[k].0,
        sets[k].1 < 0x1_0000,
        accepted(sets[k].1, disc.valid@),
    ensures
        ({
            let insn = disc.file.objects@[object_id as int].instructions@[0];
            let ctx = PlayerContext {
                ig_stream: ig_pid,
                selected_button_id: button.button_id,
                page_id,
            };
            outcome(disc, ig_pid, page, page_id, button, gprs) == (Outcome::Plays {
                target: PlayTarget {
                    playlist: sets[k].1 as u16,
                    branch_opt: insn.branch_opt,
                    mark_or_pi: value_of(
                        insn.imm_op2,
                        insn.src,
                        assigned(in_context(gprs, ctx), sets),
                    ),
                },
                button_id: button.button_id,
            })
        }),
{
    let ctx = PlayerContext { ig_stream: ig_pid, selected_button_id: button.button_id, page_id };
    let last = NavigationCommand::GotoMobj { object_id };
    law_buttons_set_and_go(sets, last, ctx, gprs);
    let regs = assigned(in_context(gprs, ctx), sets);
    law_last_assignment_wins(in_context(gprs, ctx), sets, sets[k].0);
    let instrs = disc.file.objects@[object_id as int].instructions@;
    law_play_ends_run(instrs, 0, regs, disc.valid@, VM_STEP_LIMIT as nat);
    assert(button.commands@[sets.len() as int] == last);
    assert forall|j: int| 0 <= j < button.commands@.len() implies !(
    #[trigger] button.commands@[j] is PlayPl) by {
        if j < sets.len() {
            assert(button.commands@[j] == (NavigationCommand::SetGpr {
                register: sets[j].0,
                value: sets[j].1,
            }));
        }
    }
    law_programs_decide(disc, ig_pid, page, page_id, button, gprs, sets.len() as int);
}

/// The registers of a handler are the general purpose registers at the end of
/// a run from its start that begins with none. It ends where it first plays
/// something.
pub proof fn law_handler_registers(disc: Disc, case: u32, r: u32)
    ensures
        disc.table is None ==> handler_gprs(disc, case) is None,
        disc.table matches Some(t) ==> {
            let instrs = disc.file.objects@[t.mobj_index as int].instructions@;
            let there = t.mobj_index < disc.file.objects@.len();
            let start = handler_from(instrs, 0, case, t.dispatch_register);
            &&& !there || start is None ==> handler_gprs(disc, case) is None
            &&& there && start is Some ==> {
                let left = run(instrs, start->0, Map::empty(), Set::empty(), 10_000).1;
                &&& handler_gprs(disc, case) is Some
                &&& handler_gprs(disc, case)->0.contains_key(r) <==> r < 0x8000_0000
                    && left.contains_key(r)
                &&& handler_gprs(disc, case)->0.contains_key(r) ==> handler_gprs(disc, case)->0[r]
                    == left[r]
            }
        },
{
    lemma_flag_bit(r);
}

/// A page of a clip is the last one with its number.
pub proof fn law_pages_by_number(clip: NavClipInput, id: u8)
    ensures
        match page_of(clip, id) {
            Some(page) => page.page_id == id && exists|k: int|
                0 <= k < clip.pages@.len() && #[trigger] clip.pages@[k] == page && forall|j: int|
                    k < j < clip.pages@.len() ==> (#[trigger] clip.pages@[j]).page_id != id,
            None => forall|j: int|
                0 <= j < clip.pages@.len() ==> (#[trigger] clip.pages@[j]).page_id != id,
        },
{
    law_last_comes_last(clip.pages@, page_is(id));
    match page_of(clip, id) {
        Some(page) => {
            let k = choose|k: int|
                0 <= k < clip.pages@.len() && #[trigger] clip.pages@[k] == page && page_is(id)(
                    page,
                ) && forall|j: int|
                    k < j < clip.pages@.len() ==> !page_is(id)(#[trigger] clip.pages@[j]);
            assert forall|j: int| k < j < clip.pages@.len() implies (
            #[trigger] clip.pages@[j]).page_id != id by {
                assert(!page_is(id)(clip.pages@[j]));
            }
        },
        None => {
            assert forall|j: int| 0 <= j < clip.pages@.len() implies (
            #[trigger] clip.pages@[j]).page_id != id by {
                assert(!page_is(id)(clip.pages@[j]));
            }
        },
    }
}

/// What a press comes to is what its contents say.
pub proof fn law_press_contents(p: Press)
    ensures
        p matches Press::Plays { target, button_id } ==> p@ == (Outcome::Plays {
            target,
            button_id,
        }),
        p matches Press::Opens { composite, page, gprs } ==> p@ == (Outcome::Opens {
            composite,
            page,
            gprs: gprs@,
        }),
        p is Nothing ==> p@ is Nothing,
{
}

} // verus!
