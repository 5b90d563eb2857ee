//! What pressing a menu button comes to on a given disc.
use std::collections::{HashMap, HashSet};

use vstd::prelude::*;

use super::anchors::{anchor, button_shown_for, is_nop_anchor, shown_for};
use super::dispatch::{find_handler_pc, handler_from};
use super::vm::{
    activated, execute_button_commands, gprs_of, is_playable, keep_gprs, playable, run,
    run_mobj_vm, ButtonEffect,
};
use super::{
    DispatchTable, MovieObjectFile, NavClipInput, PlayTarget, PlayerContext, VM_STEP_LIMIT,
};
use crate::nav::{Button, NavigationCommand, Page};
use crate::seqs::{
    first_where, last_where, lemma_first_where_found, lemma_first_where_none, lemma_last_where_take,
};

pub mod laws;

verus! {

broadcast use vstd::std_specs::hash::group_hash_axioms;

/// The menus of a disc and what their buttons can refer to.
#[derive(Clone, Copy)]
pub struct Disc<'a> {
    /// Menu pages, clip by clip.
    pub clips: &'a [NavClipInput<'a>],
    /// Movie objects.
    pub file: &'a MovieObjectFile,
    /// Switch table of the central dispatch object, if there is one.
    pub table: Option<&'a DispatchTable>,
    /// Playlists that exist; all that are not reserved if empty.
    pub valid: &'a HashSet<u32>,
}

/// What pressing a button comes to.
pub enum Outcome {
    /// A playlist is played.
    Plays {
        /// What is played.
        target: PlayTarget,
        /// The button to be shown for it.
        button_id: u16,
    },
    /// A page is opened.
    Opens {
        /// Value of the button operand, which is also a dispatch case.
        composite: u32,
        /// The page.
        page: u8,
        /// General purpose registers at that point.
        gprs: Map<u32, u32>,
    },
    /// Neither.
    Nothing,
}

/// [`Outcome`] with an executable register file.
pub enum Press {
    /// See [`Outcome::Plays`].
    Plays {
        /// What is played.
        target: PlayTarget,
        /// The button to be shown for it.
        button_id: u16,
    },
    /// See [`Outcome::Opens`].
    Opens {
        /// Value of the button operand, which is also a dispatch case.
        composite: u32,
        /// The page.
        page: u8,
        /// General purpose registers at that point.
        gprs: HashMap<u32, u32>,
    },
    /// See [`Outcome::Nothing`].
    Nothing,
}

impl View for Press {
    type V = Outcome;

    open spec fn view(&self) -> Outcome {
        match self {
            Press::Plays { target, button_id } => Outcome::Plays {
                target: *target,
                button_id: *button_id,
            },
            Press::Opens { composite, page, gprs } => Outcome::Opens {
                composite: *composite,
                page: *page,
                gprs: gprs@,
            },
            Press::Nothing => Outcome::Nothing,
        }
    }
}

/// Whether a button plays a playlist directly.
pub open spec fn plays_directly(button: Button) -> bool {
    exists|i: int|
        0 <= i < button.commands@.len() && #[trigger] button.commands@[i] is PlayPl
}

/// A case with the given value.
pub open spec fn case_is(value: u32) -> spec_fn((u32, u16)) -> bool {
    |c: (u32, u16)| c.0 == value
}

/// The playlist of the first case of a dispatch table with the given value.
pub open spec fn case_playlist(table: Option<&DispatchTable>, value: u32) -> Option<u16> {
    match table {
        Some(t) => match first_where(t.cases@, case_is(value)) {
            Some(case) => Some(case.1),
            None => None,
        },
        None => None,
    }
}

/// Playback of a playlist from its start.
pub open spec fn from_start(playlist: u16) -> PlayTarget {
    PlayTarget { playlist, branch_opt: 0, mark_or_pi: 0 }
}

/// The low 8 bits of a number.
pub open spec fn low_u8(x: u32) -> u8 {
    (x & 0xFF) as u8
}

/// What pressing a button comes to with the given general purpose registers.
/// Buttons that play a playlist directly are left to the caller. An anchor
/// plays the dispatch case of its own number.
pub open spec fn outcome(
    disc: Disc,
    ig_pid: u16,
    page: Page,
    page_id: u8,
    button: Button,
    gprs: Map<u32, u32>,
) -> Outcome {
    let id = button.button_id;
    let ctx = PlayerContext { ig_stream: ig_pid, selected_button_id: id, page_id };
    let (effect, regs) = activated(button.commands@, ctx, gprs);
    if plays_directly(button) {
        Outcome::Nothing
    } else if anchor(button) {
        match case_playlist(disc.table, id as u32) {
            Some(playlist) => Outcome::Plays {
                target: from_start(playlist),
                button_id: shown_for(page, button, ig_pid, page_id, gprs),
            },
            None => Outcome::Nothing,
        }
    } else {
        match effect {
            ButtonEffect::Playlist { playlist, branch_opt, mark_or_pi } => if playable(
                playlist as u32,
                disc.valid@,
            ) {
                Outcome::Plays {
                    target: PlayTarget { playlist, branch_opt, mark_or_pi },
                    button_id: id,
                }
            } else {
                Outcome::Nothing
            },
            ButtonEffect::GotoMobj(object_id) => match object_plays(disc, object_id, regs) {
                Some(target) => Outcome::Plays { target, button_id: id },
                None => Outcome::Nothing,
            },
            ButtonEffect::SetButtonPage { composite, page } => Outcome::Opens {
                composite,
                page: low_u8(page),
                gprs: gprs_of(regs),
            },
            ButtonEffect::Nothing => Outcome::Nothing,
        }
    }
}

/// What a movie object plays when control passes to it.
pub open spec fn object_plays(disc: Disc, object_id: u32, regs: Map<u32, u32>) -> Option<
    PlayTarget,
> {
    if object_id < disc.file.objects@.len() {
        run(
            disc.file.objects@[object_id as int].instructions@,
            0,
            regs,
            disc.valid@,
            VM_STEP_LIMIT as nat,
        ).0
    } else {
        None
    }
}

/// The general purpose registers that the handler of a dispatch case sets
/// before it first plays something; `None` where the case has no handler.
pub open spec fn handler_gprs(disc: Disc, case: u32) -> Option<Map<u32, u32>> {
    match disc.table {
        Some(t) if t.mobj_index < disc.file.objects@.len() => {
            let instrs = disc.file.objects@[t.mobj_index as int].instructions@;
            match handler_from(instrs, 0, case, t.dispatch_register) {
                Some(pc) => Some(
                    gprs_of(run(instrs, pc, Map::empty(), Set::empty(), VM_STEP_LIMIT as nat).1),
                ),
                None => None,
            }
        },
        _ => None,
    }
}

/// A page with the given number.
pub open spec fn page_is<'a>(id: u8) -> spec_fn(&'a Page) -> bool {
    |p: &'a Page| p.page_id == id
}

/// The page with the given number, the last one where there are several.
pub open spec fn page_of<'a>(clip: NavClipInput<'a>, id: u8) -> Option<&'a Page> {
    last_where(clip.pages@, page_is(id))
}

/// Returns whether a button plays a playlist directly.
pub fn has_direct_play(button: &Button) -> (yes: bool)
    ensures
        yes == plays_directly(*button),
{
    let mut i: usize = 0;
    while i < button.commands.len()
        invariant
            i <= button.commands.len(),
            forall|j: int| 0 <= j < i ==> !(#[trigger] button.commands@[j] is PlayPl),
        decreases button.commands.len() - i,
    {
        if let NavigationCommand::PlayPl { .. } = button.commands[i] {
            assert(button.commands@[i as int] is PlayPl);
            return true;
        }
        i = i + 1;
    }
    false
}

/// Looks up a dispatch case.
pub fn lookup_case(table: Option<&DispatchTable>, value: u32) -> (playlist: Option<u16>)
    ensures
        playlist == case_playlist(table, value),
{
    match table {
        Some(t) => {
            let mut i: usize = 0;
            while i < t.cases.len()
                invariant
                    i <= t.cases.len(),
                    table == Some(t),
                    forall|j: int| 0 <= j < i ==> !case_is(value)(#[trigger] t.cases@[j]),
                decreases t.cases.len() - i,
            {
                let case: (u32, u16) = t.cases[i];
                if case.0 == value {
                    proof {
                        lemma_first_where_found(t.cases@, case_is(value), i as int);
                    }
                    return Some(case.1);
                }
                i = i + 1;
            }
            proof {
                lemma_first_where_none(t.cases@, case_is(value));
            }
            None
        },
        None => None,
    }
}

/// Runs the handler of a dispatch case and returns the general purpose
/// registers that it sets before it first plays something.
pub fn run_handler(disc: &Disc, case: u32) -> (gprs: Option<HashMap<u32, u32>>)
    ensures
        match handler_gprs(*disc, case) {
            Some(regs) => gprs matches Some(g) && g@ == regs,
            None => gprs is None,
        },
{
    match disc.table {
        Some(t) => {
            if t.mobj_index >= disc.file.objects.len() {
                return None;
            }
            let instrs: &Vec<super::Instruction> = &disc.file.objects[t.mobj_index].instructions;
            match find_handler_pc(instrs, case, t.dispatch_register) {
                Some(pc) => {
                    let mut regs: HashMap<u32, u32> = HashMap::new();
                    let any: HashSet<u32> = HashSet::new();
                    run_mobj_vm(instrs, pc, &mut regs, &any);
                    Some(keep_gprs(&regs))
                },
                None => None,
            }
        },
        None => None,
    }
}

/// Finds a page of a clip by its number.
pub fn find_page<'a>(clip: &NavClipInput<'a>, id: u8) -> (page: Option<&'a Page>)
    ensures
        page == page_of(*clip, id),
{
    let ghost p = page_is(id);
    let mut i: usize = clip.pages.len();
    while i > 0
        invariant
            i <= clip.pages.len(),
            p == page_is(id),
            forall|j: int| i <= j < clip.pages.len() ==> !p(#[trigger] clip.pages@[j]),
        decreases i,
    {
        i = i - 1;
        let page: &'a Page = clip.pages[i];
        if page.page_id == id {
            proof {
                lemma_last_where_take(clip.pages@, p, i + 1);
                assert(clip.pages@.take(i + 1).last() == page);
            }
            return Some(page);
        }
    }
    proof {
        lemma_last_where_take(clip.pages@, p, 0);
        assert(clip.pages@.take(0).len() == 0);
    }
    None
}

fn low_byte(x: u32) -> (y: u8)
    ensures
        y == low_u8(x),
{
    (x & 0xFF) as u8
}

/// Presses a button.
pub fn press_button(
    disc: &Disc,
    ig_pid: u16,
    page: &Page,
    page_id: u8,
    button: &Button,
    gprs: &HashMap<u32, u32>,
) -> (result: Press)
    ensures
        result@ == outcome(*disc, ig_pid, *page, page_id, *button, gprs@),
{
    if has_direct_play(button) {
        return Press::Nothing;
    }
    let id: u16 = button.button_id;
    if is_nop_anchor(button) {
        return match lookup_case(disc.table, id as u32) {
            Some(playlist) => {
                let button_id: u16 = button_shown_for(page, button, ig_pid, page_id, gprs);
                Press::Plays {
                    target: PlayTarget { playlist, branch_opt: 0, mark_or_pi: 0 },
                    button_id,
                }
            },
            None => Press::Nothing,
        };
    }
    let ctx: PlayerContext = PlayerContext { ig_stream: ig_pid, selected_button_id: id, page_id };
    let (effect, after) = execute_button_commands(&button.commands, &ctx, gprs);
    let mut regs: HashMap<u32, u32> = after;
    match effect {
        ButtonEffect::Playlist { playlist, branch_opt, mark_or_pi } => {
            if is_playable(playlist as u32, disc.valid) {
                Press::Plays {
                    target: PlayTarget { playlist, branch_opt, mark_or_pi },
                    button_id: id,
                }
            } else {
                Press::Nothing
            }
        },
        ButtonEffect::GotoMobj(object_id) => {
            if object_id as usize >= disc.file.objects.len() {
                return Press::Nothing;
            }
            let instrs: &Vec<super::Instruction> =
                &disc.file.objects[object_id as usize].instructions;
            match run_mobj_vm(instrs, 0, &mut regs, disc.valid) {
                Some(target) => Press::Plays { target, button_id: id },
                None => Press::Nothing,
            }
        },
        ButtonEffect::SetButtonPage { composite, page } => Press::Opens {
            composite,
            page: low_byte(page),
            gprs: keep_gprs(&regs),
        },
        ButtonEffect::Nothing => Press::Nothing,
    }
}

} // verus!
