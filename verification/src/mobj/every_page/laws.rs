//! What single steps of the tour of all pages do.
use vstd::prelude::*;

use super::{all_stops, buttons_mapped, pair_known, same_pair, tour_start, with_pair, Stop, Tour};
use crate::mobj::press::{case_playlist, handler_gprs, outcome, page_of, Disc, Outcome};
use crate::mobj::vm::seeded;
use crate::mobj::{PlayTarget, ResolvedButton};
use crate::nav::{Button, Page};

verus! {

/// Whether a list has an entry of the button with the playlist.
pub open spec fn has_pair(found: Seq<ResolvedButton>, button_id: u16, playlist: u16) -> bool {
    exists|i: int|
        0 <= i < found.len() && (#[trigger] found[i]).button_id == button_id
            && found[i].target.playlist == playlist
}

/// An entry is added at the end, unless there is one of its button with its
/// playlist.
pub proof fn law_pairs_added_once(found: Seq<ResolvedButton>, r: ResolvedButton)
    ensures
        has_pair(found, r.button_id, r.target.playlist) ==> with_pair(found, r) == found,
        !has_pair(found, r.button_id, r.target.playlist) ==> with_pair(found, r) == found.push(r),
{
    if pair_known(found, r.button_id, r.target.playlist) {
        let i = choose|i: int|
            0 <= i < found.len() && same_pair(
                #[trigger] found[i],
                r.button_id,
                r.target.playlist,
            );
        assert(found[i].button_id == r.button_id);
    }
    if has_pair(found, r.button_id, r.target.playlist) {
        let i = choose|i: int|
            0 <= i < found.len() && (#[trigger] found[i]).button_id == r.button_id
                && found[i].target.playlist == r.target.playlist;
        assert(same_pair(found[i], r.button_id, r.target.playlist));
    }
}

/// A page is put at the end of the queue, unless the same page of the same
/// clip was queued with the same registers before.
pub proof fn law_stops_queued_once(t: Tour, stop: Stop)
    ensures
        ({
            let now = t.enqueued(stop);
            let before = exists|i: int| 0 <= i < t.seen.len() && #[trigger] t.seen[i] == stop;
            &&& before ==> now == t
            &&& !before ==> now.queue == t.queue.push(stop) && now.seen == t.seen.push(stop)
            &&& now.found == t.found
        }),
{
}

/// What a button does that plays something: the button itself gets an entry.
/// Nothing is queued.
pub proof fn law_plays_mapped(
    t: Tour,
    disc: Disc,
    stop: Stop,
    page: Page,
    button: Button,
    target: PlayTarget,
    shown: u16,
)
    requires
        outcome(disc, disc.clips@[stop.0 as int].ig_pid, page, stop.1, button, stop.2) == (
        Outcome::Plays { target, button_id: shown }),
    ensures
        ({
            let now = t.pressed(disc, stop, page, button);
            &&& now.queue == t.queue
            &&& now.seen == t.seen
            &&& has_pair(t.found, button.button_id, target.playlist) ==> now.found == t.found
            &&& !has_pair(t.found, button.button_id, target.playlist) ==> now.found
                == t.found.push(ResolvedButton { button_id: button.button_id, target })
        }),
{
    law_pairs_added_once(
        t.found,
        ResolvedButton { button_id: button.button_id, target },
    );
}

/// What a button does that opens a page. If its operand is a dispatch case,
/// the button gets an entry with the playlist of the case, from its start. If
/// the case has a handler, all pages of the clip are queued with its registers.
/// After that the opened page is queued, if the clip has it.
pub proof fn law_openings_mapped(
    t: Tour,
    disc: Disc,
    stop: Stop,
    page: Page,
    button: Button,
    composite: u32,
    number: u8,
    gprs: Map<u32, u32>,
)
    requires
        outcome(disc, disc.clips@[stop.0 as int].ig_pid, page, stop.1, button, stop.2) == (
        Outcome::Opens { composite, page: number, gprs }),
    ensures
        ({
            let now = t.pressed(disc, stop, page, button);
            let clip = disc.clips@[stop.0 as int];
            let case = case_playlist(disc.table, composite);
            let id = button.button_id;
            let fresh = case is Some && !has_pair(t.found, id, case->0);
            let target = PlayTarget { playlist: case->0, branch_opt: 0, mark_or_pi: 0 };
            let found = if fresh {
                t.found.push(ResolvedButton { button_id: id, target })
            } else {
                t.found
            };
            let listed = Tour { found, ..t };
            let handled = match handler_gprs(disc, composite) {
                Some(regs) => listed.refreshed(
                    stop.0,
                    clip.pages@,
                    regs,
                    clip.pages@.len() as int,
                ),
                None => listed,
            };
            &&& page_of(clip, number) is Some ==> now == handled.enqueued((stop.0, number, gprs))
            &&& page_of(clip, number) is None ==> now == handled
        }),
{
    if let Some(playlist) = case_playlist(disc.table, composite) {
        let target = PlayTarget { playlist, branch_opt: 0, mark_or_pi: 0 };
        law_pairs_added_once(
            t.found,
            ResolvedButton { button_id: button.button_id, target },
        );
    }
}

/// A button that comes to nothing changes nothing.
pub proof fn law_other_buttons_pass(t: Tour, disc: Disc, stop: Stop, page: Page, button: Button)
    requires
        outcome(
            disc,
            disc.clips@[stop.0 as int].ig_pid,
            page,
            stop.1,
            button,
            stop.2,
        ) is Nothing,
    ensures
        t.pressed(disc, stop, page, button) == t,
{
}

/// Refreshing queues all pages of the list with the new registers, in order,
/// but for those that were queued so before.
pub proof fn law_all_pages_refreshed(
    t: Tour,
    clip: usize,
    pages: Seq<&Page>,
    gprs: Map<u32, u32>,
    n: int,
)
    requires
        0 < n <= pages.len(),
    ensures
        t.refreshed(clip, pages, gprs, 0) == t,
        t.refreshed(clip, pages, gprs, n) == t.refreshed(clip, pages, gprs, n - 1).enqueued(
            (clip, pages[n - 1].page_id, gprs),
        ),
{
}

/// The buttons of a page are pressed in order, the page that was queued first
/// is visited first, and there are at most fifty thousand visits.
pub proof fn law_tour_in_order(t: Tour, disc: Disc, stop: Stop, page: Page, n: int, fuel: nat)
    requires
        0 < n <= page.buttons@.len(),
    ensures
        t.pressed_first(disc, stop, page, 0) == t,
        t.pressed_first(disc, stop, page, n) == t.pressed_first(
            disc,
            stop,
            page,
            n - 1,
        ).pressed(disc, stop, page, page.buttons@[n - 1]),
        fuel == 0 || t.queue.len() == 0 ==> t.toured(disc, fuel) == t,
        fuel > 0 && t.queue.len() > 0 ==> ({
            let first = t.queue[0];
            let rest = Tour { queue: t.queue.subrange(1, t.queue.len() as int), ..t };
            match page_of(disc.clips@[first.0 as int], first.1) {
                Some(p) => t.toured(disc, fuel) == rest.pressed_first(
                    disc,
                    first,
                    *p,
                    p.buttons@.len() as int,
                ).toured(disc, (fuel - 1) as nat),
                None => t.toured(disc, fuel) == rest.toured(disc, (fuel - 1) as nat),
            }
        }),
        buttons_mapped(disc) == tour_start(disc).toured(disc, 50_000).found,
{
    if t.queue.len() > 0 {
        assert(t.queue.skip(1) =~= t.queue.subrange(1, t.queue.len() as int));
    }
}

/// A tour starts with every page of every clip, in order, with the registers
/// that the first movie object leaves behind.
pub proof fn law_all_pages_start(disc: Disc, n: int, k: int)
    requires
        0 < n <= disc.clips@.len() <= usize::MAX,
        0 <= k < disc.clips@[n - 1].pages@.len(),
    ensures
        ({
            let gprs = seeded(*disc.file);
            let before = all_stops(disc, gprs, n - 1);
            let now = all_stops(disc, gprs, n);
            &&& all_stops(disc, gprs, 0).len() == 0
            &&& now.len() == before.len() + disc.clips@[n - 1].pages@.len()
            &&& now.take(before.len() as int) == before
            &&& now[before.len() + k].0 == n - 1
            &&& now[before.len() + k].1 == disc.clips@[n - 1].pages@[k].page_id
            &&& now[before.len() + k].2 == gprs
        }),
        tour_start(disc).found.len() == 0,
        tour_start(disc).queue == all_stops(disc, seeded(*disc.file), disc.clips@.len() as int),
        tour_start(disc).seen == tour_start(disc).queue,
{
    let gprs = seeded(*disc.file);
    let before = all_stops(disc, gprs, n - 1);
    let now = all_stops(disc, gprs, n);
    assert(now.take(before.len() as int) =~= before);
}

} // verus!
