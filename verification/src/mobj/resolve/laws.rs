//! What single steps of the menu search do.
use vstd::prelude::*;

use super::{
    dispatched, entries, known, reached, resolved, rooted, same_play, search_end, smallest_id,
    swept, swept_clip, swept_page, Found, Node, Search,
};
use crate::mobj::press::{handler_gprs, outcome, page_of, Disc, Outcome};
use crate::mobj::vm::laws::{accepted, lemma_accepted};
use crate::mobj::vm::seeded;
use crate::mobj::{BreadcrumbStep, PlayTarget, ResolvedPlaylist};
use crate::nav::{Button, Page};

verus! {

// ---------------------------------------------------------------------------
// Roots
// ---------------------------------------------------------------------------

/// The root page of a clip has a number of one of its pages, and none has a
/// smaller one.
pub proof fn law_root_page_is_smallest(pages: Seq<&Page>, n: int)
    requires
        0 < n <= pages.len(),
    ensures
        exists|k: int| 0 <= k < n && (#[trigger] pages[k]).page_id == smallest_id(pages, n),
        forall|j: int| 0 <= j < n ==> smallest_id(pages, n) <= (#[trigger] pages[j]).page_id,
    decreases n,
{
    if n > 1 {
        law_root_page_is_smallest(pages, n - 1);
        let k = choose|k: int|
            0 <= k < n - 1 && (#[trigger] pages[k]).page_id == smallest_id(pages, n - 1);
        assert(pages[k].page_id == smallest_id(pages, n - 1));
        assert(pages[n - 1].page_id == pages[n - 1].page_id);
    } else {
        assert(pages[0].page_id == smallest_id(pages, n));
    }
}

/// A search starts with one page of each clip that has any, clip by clip: the
/// root page, with the registers that the first movie object leaves behind and
/// no presses. Nothing is found or noted yet.
pub proof fn law_roots_queued(disc: Disc, n: int) -> (from: Seq<int>)
    requires
        0 <= n <= disc.clips@.len() <= usize::MAX,
    ensures
        ({
            let s = rooted(disc, n);
            &&& s.found.len() == 0
            &&& s.composites == Map::<u32, Seq<BreadcrumbStep>>::empty()
            &&& from.len() == s.queue.len()
            &&& from.len() == s.seen.len()
            &&& forall|k: int|
                0 <= k < from.len() ==> {
                    let pages = disc.clips@[#[trigger] from[k]].pages@;
                    &&& 0 <= from[k] < n
                    &&& pages.len() > 0
                    &&& s.queue[k].clip == from[k]
                    &&& s.queue[k].page == smallest_id(pages, pages.len() as int)
                    &&& s.queue[k].gprs == seeded(*disc.file)
                    &&& s.queue[k].breadcrumb.len() == 0
                    &&& s.seen[k] == (s.queue[k].clip, s.queue[k].page, s.queue[k].gprs)
                }
            &&& forall|j: int, k: int|
                0 <= j < k < from.len() ==> #[trigger] from[j] < #[trigger] from[k]
            &&& forall|c: int|
                0 <= c < n && (#[trigger] disc.clips@[c]).pages@.len() > 0 ==> from.contains(c)
        }),
    decreases n,
{
    if n == 0 {
        seq![]
    } else {
        let before = law_roots_queued(disc, n - 1);
        let pages = disc.clips@[n - 1].pages@;
        let s = rooted(disc, n - 1);
        if pages.len() == 0 {
            before
        } else {
            let key = (
                (n - 1) as usize,
                smallest_id(pages, pages.len() as int),
                seeded(*disc.file),
            );
            assert(!s.seen.contains(key)) by {
                if s.seen.contains(key) {
                    let k = choose|k: int| 0 <= k < s.seen.len() && s.seen[k] == key;
                    assert(0 <= before[k] < n - 1);
                }
            }
            let from = before.push(n - 1);
            assert forall|c: int|
                0 <= c < n && (#[trigger] disc.clips@[c]).pages@.len() > 0 implies from.contains(
                c,
            ) by {
                if c == n - 1 {
                    assert(from[before.len() as int] == c);
                } else {
                    let k = choose|k: int| 0 <= k < before.len() && before[k] == c;
                    assert(from[k] == c);
                }
            }
            from
        }
    }
}

// ---------------------------------------------------------------------------
// Presses
// ---------------------------------------------------------------------------

/// A page is put at the end of the queue, unless the same page of the same
/// clip was queued with the same registers before.
pub proof fn law_pages_queued_once(s: Search, node: Node)
    ensures
        ({
            let now = s.enqueued(node);
            let before = exists|i: int|
                0 <= i < s.seen.len() && #[trigger] s.seen[i] == (node.clip, node.page, node.gprs);
            &&& before ==> now == s
            &&& !before ==> now.queue == s.queue.push(node) && now.seen == s.seen.push(
                (node.clip, node.page, node.gprs),
            )
            &&& now.found == s.found
            &&& now.composites == s.composites
        }),
{
    let key = (node.clip, node.page, node.gprs);
    if s.seen.contains(key) {
        let i = choose|i: int| 0 <= i < s.seen.len() && s.seen[i] == key;
        assert(s.seen[i] == (node.clip, node.page, node.gprs));
    }
}

/// Whether a list has an entry with the target whose last press lies in the
/// clip.
pub open spec fn has_play(found: Seq<Found>, clip: usize, target: PlayTarget) -> bool {
    exists|i: int|
        0 <= i < found.len() && (#[trigger] found[i]).target == target
            && found[i].breadcrumb.last().clip_index == clip
}

proof fn lemma_has_play(found: Seq<Found>, clip: usize, target: PlayTarget)
    ensures
        known(found, clip, target) == has_play(found, clip, target),
{
    if known(found, clip, target) {
        let i = choose|i: int| 0 <= i < found.len() && same_play(#[trigger] found[i], clip, target);
        assert(found[i].target == target);
    }
    if has_play(found, clip, target) {
        let i = choose|i: int|
            0 <= i < found.len() && (#[trigger] found[i]).target == target
                && found[i].breadcrumb.last().clip_index == clip;
        assert(same_play(found[i], clip, target));
    }
}

/// The presses that lead to a page, and one more on it.
pub open spec fn presses_with(node: Node, button_id: u16) -> Seq<BreadcrumbStep> {
    node.breadcrumb + seq![
        BreadcrumbStep { clip_index: node.clip, page_id: node.page, button_id },
    ]
}

/// A button that plays something adds an entry at the end: all presses that
/// led to its page, and the press of the button that is shown for it. A clip
/// that has an entry with the target already gets no other. Nothing else
/// changes.
pub proof fn law_plays_entered(
    s: Search,
    disc: Disc,
    node: Node,
    page: Page,
    button: Button,
    target: PlayTarget,
    button_id: u16,
)
    requires
        outcome(
            disc,
            disc.clips@[node.clip as int].ig_pid,
            page,
            node.page,
            button,
            node.gprs,
        ) == (Outcome::Plays { target, button_id }),
    ensures
        ({
            let now = s.pressed(disc, node, page, button);
            &&& has_play(s.found, node.clip, target) ==> now.found == s.found
            &&& !has_play(s.found, node.clip, target) ==> now.found == s.found.push(
                Found { breadcrumb: presses_with(node, button_id), orphan: false, target },
            )
            &&& now.queue == s.queue
            &&& now.seen == s.seen
            &&& now.composites == s.composites
        }),
{
    lemma_has_play(s.found, node.clip, target);
    assert(presses_with(node, button_id) =~= node.breadcrumb.push(
        BreadcrumbStep { clip_index: node.clip, page_id: node.page, button_id },
    ));
}

/// A button that opens a page notes the presses for its operand, unless some
/// are noted for it. The page is queued with the registers that the button
/// leaves and these presses, if the clip has it. Nothing is found.
pub proof fn law_pages_opened(
    s: Search,
    disc: Disc,
    node: Node,
    page: Page,
    button: Button,
    composite: u32,
    number: u8,
    gprs: Map<u32, u32>,
)
    requires
        outcome(
            disc,
            disc.clips@[node.clip as int].ig_pid,
            page,
            node.page,
            button,
            node.gprs,
        ) == (Outcome::Opens { composite, page: number, gprs }),
        handler_gprs(disc, composite) is None,
    ensures
        ({
            let now = s.pressed(disc, node, page, button);
            let presses = presses_with(node, button.button_id);
            let clip = disc.clips@[node.clip as int];
            let next = Node { clip: node.clip, page: number, gprs, breadcrumb: presses };
            let fresh = page_of(clip, number) is Some && !s.seen.contains(
                (node.clip, number, gprs),
            );
            &&& now.found == s.found
            &&& s.composites.contains_key(composite) ==> now.composites == s.composites
            &&& !s.composites.contains_key(composite) ==> now.composites == s.composites.insert(
                composite,
                presses,
            )
            &&& fresh ==> now.queue == s.queue.push(next) && now.seen == s.seen.push(
                (node.clip, number, gprs),
            )
            &&& !fresh ==> now.queue == s.queue && now.seen == s.seen
        }),
{
    assert(presses_with(node, button.button_id) =~= node.breadcrumb.push(
        BreadcrumbStep {
            clip_index: node.clip,
            page_id: node.page,
            button_id: button.button_id,
        },
    ));
}

/// If the operand is a case with a handler, the pages of the clip that were
/// reached are queued behind the opened page, with the registers of the
/// handler. `opened` is the state with the opened page alone.
pub proof fn law_handlers_refresh(
    s: Search,
    opened: Search,
    disc: Disc,
    node: Node,
    page: Page,
    button: Button,
    composite: u32,
    number: u8,
    gprs: Map<u32, u32>,
)
    requires
        outcome(
            disc,
            disc.clips@[node.clip as int].ig_pid,
            page,
            node.page,
            button,
            node.gprs,
        ) == (Outcome::Opens { composite, page: number, gprs }),
        handler_gprs(disc, composite) is Some,
        ({
            let presses = presses_with(node, button.button_id);
            let noted = s.noted(composite, presses);
            opened == if page_of(disc.clips@[node.clip as int], number) is Some {
                noted.enqueued(
                    Node { clip: node.clip, page: number, gprs, breadcrumb: presses },
                )
            } else {
                noted
            }
        }),
    ensures
        s.pressed(disc, node, page, button) == opened.refreshed(
            node.clip,
            disc.clips@[node.clip as int].pages@,
            handler_gprs(disc, composite)->0,
            disc.clips@[node.clip as int].pages@.len() as int,
        ),
{
    assert(presses_with(node, button.button_id) =~= node.breadcrumb.push(
        BreadcrumbStep {
            clip_index: node.clip,
            page_id: node.page,
            button_id: button.button_id,
        },
    ));
}

/// Refreshing queues every page of the list that was reached, and no other,
/// with the new registers and without presses. What was queued before stays in
/// front, and nothing is found or noted.
pub proof fn law_reached_pages_refreshed(
    s: Search,
    clip: usize,
    pages: Seq<&Page>,
    gprs: Map<u32, u32>,
    n: int,
)
    requires
        0 <= n <= pages.len(),
    ensures
        ({
            let now = s.refreshed(clip, pages, gprs, n);
            &&& now.found == s.found
            &&& now.composites == s.composites
            &&& s.queue.len() <= now.queue.len()
            &&& s.seen.len() <= now.seen.len()
            &&& now.queue.len() - s.queue.len() == now.seen.len() - s.seen.len()
            &&& forall|i: int| 0 <= i < s.queue.len() ==> #[trigger] now.queue[i] == s.queue[i]
            &&& forall|i: int| 0 <= i < s.seen.len() ==> #[trigger] now.seen[i] == s.seen[i]
            &&& forall|i: int|
                s.queue.len() <= i < now.queue.len() ==> {
                    let node = #[trigger] now.queue[i];
                    &&& node.clip == clip
                    &&& node.gprs == gprs
                    &&& node.breadcrumb.len() == 0
                    &&& reached(s.seen, clip, node.page)
                }
            &&& forall|i: int|
                s.seen.len() <= i < now.seen.len() ==> {
                    let key = #[trigger] now.seen[i];
                    &&& key.0 == clip
                    &&& key.2 == gprs
                    &&& reached(s.seen, clip, key.1)
                }
            &&& forall|k: int|
                0 <= k < n && reached(s.seen, clip, (#[trigger] pages[k]).page_id)
                    ==> now.seen.contains((clip, pages[k].page_id, gprs))
        }),
    decreases n,
{
    if n > 0 {
        law_reached_pages_refreshed(s, clip, pages, gprs, n - 1);
        let before = s.refreshed(clip, pages, gprs, n - 1);
        let now = s.refreshed(clip, pages, gprs, n);
        let id = pages[n - 1].page_id;
        if reached(before.seen, clip, id) {
            let i = choose|i: int|
                0 <= i < before.seen.len() && (#[trigger] before.seen[i]).0 == clip
                    && before.seen[i].1 == id;
            if i < s.seen.len() {
                assert(s.seen[i] == before.seen[i]);
                assert(s.seen[i].0 == clip);
            }
            assert(reached(s.seen, clip, id));
        }
        if reached(s.seen, clip, id) {
            let i = choose|i: int|
                0 <= i < s.seen.len() && (#[trigger] s.seen[i]).0 == clip && s.seen[i].1 == id;
            assert(before.seen[i] == s.seen[i]);
            assert(reached(before.seen, clip, id));
        }
        assert forall|k: int|
            0 <= k < n && reached(s.seen, clip, (#[trigger] pages[k]).page_id) implies
            now.seen.contains((clip, pages[k].page_id, gprs)) by {
            let key = (clip, pages[k].page_id, gprs);
            if k == n - 1 {
                if !before.seen.contains(key) {
                    assert(now.seen[before.seen.len() as int] == key);
                }
            } else {
                let i = choose|i: int| 0 <= i < before.seen.len() && before.seen[i] == key;
                assert(now.seen[i] == key);
            }
        }
    }
}

/// A button that comes to nothing changes nothing.
pub proof fn law_other_presses_change_nothing(
    s: Search,
    disc: Disc,
    node: Node,
    page: Page,
    button: Button,
)
    requires
        outcome(
            disc,
            disc.clips@[node.clip as int].ig_pid,
            page,
            node.page,
            button,
            node.gprs,
        ) is Nothing,
    ensures
        s.pressed(disc, node, page, button) == s,
{
}

/// The buttons of a page are pressed in order, each on the state that the one
/// before it left.
pub proof fn law_buttons_pressed_in_order(s: Search, disc: Disc, node: Node, page: Page, n: int)
    requires
        0 < n <= page.buttons@.len(),
    ensures
        s.pressed_first(disc, node, page, 0) == s,
        s.pressed_first(disc, node, page, n) == s.pressed_first(
            disc,
            node,
            page,
            n - 1,
        ).pressed(disc, node, page, page.buttons@[n - 1]),
{
}

/// The page that was queued first is taken from the queue, and all of its
/// buttons are pressed. The search goes on until the queue is empty, for at
/// most fifty thousand visits.
pub proof fn law_queue_is_visited_in_order(s: Search, disc: Disc, fuel: nat)
    ensures
        fuel == 0 || s.queue.len() == 0 ==> s.searched(disc, fuel) == s,
        fuel > 0 && s.queue.len() > 0 ==> ({
            let node = s.queue[0];
            let rest = Search { queue: s.queue.subrange(1, s.queue.len() as int), ..s };
            match page_of(disc.clips@[node.clip as int], node.page) {
                Some(page) => s.searched(disc, fuel) == rest.pressed_first(
                    disc,
                    node,
                    *page,
                    page.buttons@.len() as int,
                ).searched(disc, (fuel - 1) as nat),
                None => s.searched(disc, fuel) == rest.searched(disc, (fuel - 1) as nat),
            }
        }),
        search_end(disc) == rooted(disc, disc.clips@.len() as int).searched(disc, 50_000),
{
    if s.queue.len() > 0 {
        assert(s.queue.skip(1) =~= s.queue.subrange(1, s.queue.len() as int));
    }
}

// ---------------------------------------------------------------------------
// What the search leaves out
// ---------------------------------------------------------------------------

/// A button of a page that was not reached is pressed with the registers that
/// the first movie object leaves behind. What it plays is added as an orphan
/// with one press, unless the clip has an entry with the target.
pub proof fn law_unreached_buttons(
    disc: Disc,
    found: Seq<Found>,
    clip: usize,
    page: Page,
    n: int,
)
    requires
        0 < n <= page.buttons@.len(),
    ensures
        ({
            let before = swept_page(disc, found, clip, page, n - 1);
            let now = swept_page(disc, found, clip, page, n);
            let result = outcome(
                disc,
                disc.clips@[clip as int].ig_pid,
                page,
                page.page_id,
                page.buttons@[n - 1],
                seeded(*disc.file),
            );
            &&& swept_page(disc, found, clip, page, 0) == found
            &&& !(result is Plays) ==> now == before
            &&& result matches Outcome::Plays { target, button_id } ==> {
                &&& has_play(before, clip, target) ==> now == before
                &&& !has_play(before, clip, target) ==> {
                    &&& now.len() == before.len() + 1
                    &&& now.drop_last() == before
                    &&& now.last().orphan
                    &&& now.last().target == target
                    &&& now.last().breadcrumb.len() == 1
                    &&& now.last().breadcrumb[0].clip_index == clip
                    &&& now.last().breadcrumb[0].page_id == page.page_id
                    &&& now.last().breadcrumb[0].button_id == button_id
                }
            }
        }),
{
    let before = swept_page(disc, found, clip, page, n - 1);
    let result = outcome(
        disc,
        disc.clips@[clip as int].ig_pid,
        page,
        page.page_id,
        page.buttons@[n - 1],
        seeded(*disc.file),
    );
    if let Outcome::Plays { target, button_id } = result {
        lemma_has_play(before, clip, target);
        assert(swept_page(disc, found, clip, page, n).drop_last() =~= before
            || has_play(before, clip, target));
    }
}

/// The pages of a clip are gone through in order, and those that were reached
/// under any registers are passed over; so are the clips.
pub proof fn law_unreached_pages(disc: Disc, s: Search, found: Seq<Found>, clip: usize, n: int)
    requires
        clip < disc.clips@.len(),
        0 < n <= disc.clips@[clip as int].pages@.len(),
    ensures
        ({
            let page = disc.clips@[clip as int].pages@[n - 1];
            let before = swept_clip(disc, s, found, clip, n - 1);
            let seen = exists|i: int|
                0 <= i < s.seen.len() && (#[trigger] s.seen[i]).0 == clip && s.seen[i].1
                    == page.page_id;
            &&& swept_clip(disc, s, found, clip, 0) == found
            &&& seen ==> swept_clip(disc, s, found, clip, n) == before
            &&& !seen ==> swept_clip(disc, s, found, clip, n) == swept_page(
                disc,
                before,
                clip,
                *page,
                page.buttons@.len() as int,
            )
        }),
{
}

/// All clips are gone through in order, after everything that the search
/// itself found.
pub proof fn law_unreached_clips(disc: Disc, s: Search, n: int)
    requires
        0 < n <= disc.clips@.len(),
    ensures
        swept(disc, s, 0) == s.found,
        swept(disc, s, n) == swept_clip(
            disc,
            s,
            swept(disc, s, n - 1),
            (n - 1) as usize,
            disc.clips@[n - 1].pages@.len() as int,
        ),
{
}

/// A dispatch case whose value a button named, and whose playlist is accepted,
/// is added with the presses that were noted for the value, from the start of
/// the playlist; unless the clip has an entry with the target.
pub proof fn law_named_cases(
    disc: Disc,
    composites: Map<u32, Seq<BreadcrumbStep>>,
    found: Seq<Found>,
    cases: Seq<(u32, u16)>,
    n: int,
)
    requires
        0 < n <= cases.len(),
    ensures
        ({
            let before = dispatched(disc, composites, found, cases, n - 1);
            let now = dispatched(disc, composites, found, cases, n);
            let value = cases[n - 1].0;
            let playlist = cases[n - 1].1;
            let target = PlayTarget { playlist, branch_opt: 0, mark_or_pi: 0 };
            let presses = composites[value];
            let fresh = composites.contains_key(value) && accepted(
                playlist as u32,
                disc.valid@,
            ) && !has_play(before, presses.last().clip_index, target);
            &&& dispatched(disc, composites, found, cases, 0) == found
            &&& !fresh ==> now == before
            &&& fresh ==> now == before.push(Found { breadcrumb: presses, orphan: false, target })
        }),
{
    let before = dispatched(disc, composites, found, cases, n - 1);
    let value = cases[n - 1].0;
    let playlist = cases[n - 1].1;
    let target = PlayTarget { playlist, branch_opt: 0, mark_or_pi: 0 };
    lemma_accepted(playlist as u32, disc.valid@);
    lemma_has_play(before, composites[value].last().clip_index, target);
}

/// Everything that the menus lead to: what the search found, what unreached
/// pages play, and the cases that buttons named.
pub proof fn law_parts_of_the_result(disc: Disc)
    ensures
        ({
            let end = search_end(disc);
            let found = swept(disc, end, disc.clips@.len() as int);
            &&& disc.table is None ==> resolved(disc) == found
            &&& disc.table matches Some(t) ==> resolved(disc) == dispatched(
                disc,
                end.composites,
                found,
                t.cases@,
                t.cases@.len() as int,
            )
        }),
{
}

/// What a resolved playlist holds is what its contents say.
pub proof fn law_resolved_contents(r: ResolvedPlaylist, list: Seq<ResolvedPlaylist>, i: int)
    ensures
        r@.breadcrumb == r.breadcrumb@,
        r@.orphan == r.orphan,
        r@.target == r.target,
        entries(list).len() == list.len(),
        0 <= i < list.len() ==> entries(list)[i] == list[i]@,
{
}

} // verus!
