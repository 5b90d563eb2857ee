//! Laws of the menu search: which entries it may hold, that it misses none,
//! and that their button presses are the fewest.
use vstd::prelude::*;

use super::anchors::anchor;
use super::press::{handler_gprs, outcome, page_of, Disc, Outcome};
use super::resolve::{
    added, dispatched, known, resolved, rooted, same_play, search_end, smallest_id, swept,
    swept_clip, swept_page, Found, Node, Search, NAV_GRAPH_LIMIT,
};
use super::vm::{playable, seeded};
use super::{BreadcrumbStep, PlayTarget};
use crate::nav::{Button, Page};

verus! {

// ---------------------------------------------------------------------------
// Entries
// ---------------------------------------------------------------------------

/// Whether all steps lie in one clip.
pub open spec fn in_one_clip(steps: Seq<BreadcrumbStep>, clip: usize) -> bool {
    forall|k: int| 0 <= k < steps.len() ==> (#[trigger] steps[k]).clip_index == clip
}

/// Whether an entry has presses, all in one clip, and a single one if its page
/// cannot be reached.
pub open spec fn well_formed(f: Found) -> bool {
    &&& f.breadcrumb.len() > 0
    &&& in_one_clip(f.breadcrumb, f.breadcrumb.last().clip_index)
    &&& f.orphan ==> f.breadcrumb.len() == 1
}

/// Whether no clip plays a target twice, and every entry is well formed.
pub open spec fn well_listed(found: Seq<Found>) -> bool {
    &&& forall|i: int| 0 <= i < found.len() ==> well_formed(#[trigger] found[i])
    &&& forall|i: int, j: int|
        0 <= i < j < found.len() ==> !same_play(
            #[trigger] found[j],
            (#[trigger] found[i]).breadcrumb.last().clip_index,
            found[i].target,
        )
}

spec fn tidy(s: Search) -> bool {
    &&& well_listed(s.found)
    &&& forall|i: int|
        0 <= i < s.queue.len() ==> in_one_clip(
            (#[trigger] s.queue[i]).breadcrumb,
            s.queue[i].clip,
        )
    &&& forall|c: u32| #[trigger]
        s.composites.contains_key(c) ==> s.composites[c].len() > 0 && in_one_clip(
            s.composites[c],
            s.composites[c].last().clip_index,
        )
}

proof fn lemma_added(found: Seq<Found>, f: Found)
    requires
        well_listed(found),
        well_formed(f),
    ensures
        well_listed(added(found, f)),
{
    let clip = f.breadcrumb.last().clip_index;
    if !known(found, clip, f.target) {
        let now = found.push(f);
        assert forall|i: int, j: int| 0 <= i < j < now.len() implies !same_play(
            #[trigger] now[j],
            (#[trigger] now[i]).breadcrumb.last().clip_index,
            now[i].target,
        ) by {
            if j == found.len() {
                assert(!same_play(found[i], clip, f.target));
            }
        }
    }
}

proof fn lemma_refreshed_tidy(
    s: Search,
    clip: usize,
    pages: Seq<&Page>,
    gprs: Map<u32, u32>,
    n: int,
)
    requires
        tidy(s),
    ensures
        tidy(s.refreshed(clip, pages, gprs, n)),
    decreases n,
{
    if n > 0 {
        lemma_refreshed_tidy(s, clip, pages, gprs, n - 1);
    }
}

proof fn lemma_pressed_tidy(s: Search, disc: Disc, node: Node, page: Page, button: Button)
    requires
        tidy(s),
        in_one_clip(node.breadcrumb, node.clip),
    ensures
        tidy(s.pressed(disc, node, page, button)),
{
    let clip = disc.clips@[node.clip as int];
    match outcome(disc, clip.ig_pid, page, node.page, button, node.gprs) {
        Outcome::Plays { target, button_id } => {
            let step = BreadcrumbStep { clip_index: node.clip, page_id: node.page, button_id };
            let f = Found { breadcrumb: node.breadcrumb.push(step), orphan: false, target };
            assert(well_formed(f));
            lemma_added(s.found, f);
        },
        Outcome::Opens { composite, page: p, gprs } => {
            let step = BreadcrumbStep {
                clip_index: node.clip,
                page_id: node.page,
                button_id: button.button_id,
            };
            let presses = node.breadcrumb.push(step);
            let noted = s.noted(composite, presses);
            assert(in_one_clip(presses, node.clip));
            assert(tidy(noted));
            let opened = if page_of(clip, p) is Some {
                noted.enqueued(Node { clip: node.clip, page: p, gprs, breadcrumb: presses })
            } else {
                noted
            };
            assert(tidy(opened));
            if let Some(regs) = handler_gprs(disc, composite) {
                lemma_refreshed_tidy(
                    opened,
                    node.clip,
                    clip.pages@,
                    regs,
                    clip.pages@.len() as int,
                );
            }
        },
        Outcome::Nothing => {},
    }
}

proof fn lemma_pressed_first_tidy(s: Search, disc: Disc, node: Node, page: Page, n: int)
    requires
        tidy(s),
        in_one_clip(node.breadcrumb, node.clip),
    ensures
        tidy(s.pressed_first(disc, node, page, n)),
    decreases n,
{
    if n > 0 {
        lemma_pressed_first_tidy(s, disc, node, page, n - 1);
        lemma_pressed_tidy(
            s.pressed_first(disc, node, page, n - 1),
            disc,
            node,
            page,
            page.buttons@[n - 1],
        );
    }
}

proof fn lemma_searched_tidy(s: Search, disc: Disc, fuel: nat)
    requires
        tidy(s),
    ensures
        tidy(s.searched(disc, fuel)),
    decreases fuel,
{
    if fuel > 0 && s.queue.len() > 0 {
        let node = s.queue[0];
        let rest = Search { queue: s.queue.skip(1), ..s };
        assert(tidy(rest));
        if let Some(page) = page_of(disc.clips@[node.clip as int], node.page) {
            lemma_pressed_first_tidy(rest, disc, node, *page, page.buttons@.len() as int);
        }
        lemma_searched_tidy(s.visited(disc), disc, (fuel - 1) as nat);
    }
}

proof fn lemma_rooted_tidy(disc: Disc, n: int)
    ensures
        tidy(rooted(disc, n)),
    decreases n,
{
    if n > 0 {
        lemma_rooted_tidy(disc, n - 1);
    }
}

proof fn lemma_swept_page_tidy(disc: Disc, found: Seq<Found>, clip: usize, page: Page, n: int)
    requires
        well_listed(found),
    ensures
        well_listed(swept_page(disc, found, clip, page, n)),
    decreases n,
{
    if n > 0 {
        lemma_swept_page_tidy(disc, found, clip, page, n - 1);
        let before = swept_page(disc, found, clip, page, n - 1);
        let ig_pid = disc.clips@[clip as int].ig_pid;
        match outcome(
            disc,
            ig_pid,
            page,
            page.page_id,
            page.buttons@[n - 1],
            seeded(*disc.file),
        ) {
            Outcome::Plays { target, button_id } => {
                let step = BreadcrumbStep { clip_index: clip, page_id: page.page_id, button_id };
                lemma_added(before, Found { breadcrumb: seq![step], orphan: true, target });
            },
            _ => {},
        }
    }
}

proof fn lemma_swept_clip_tidy(disc: Disc, s: Search, found: Seq<Found>, clip: usize, n: int)
    requires
        well_listed(found),
    ensures
        well_listed(swept_clip(disc, s, found, clip, n)),
    decreases n,
{
    if n > 0 {
        lemma_swept_clip_tidy(disc, s, found, clip, n - 1);
        let page = disc.clips@[clip as int].pages@[n - 1];
        lemma_swept_page_tidy(
            disc,
            swept_clip(disc, s, found, clip, n - 1),
            clip,
            *page,
            page.buttons@.len() as int,
        );
    }
}

proof fn lemma_swept_tidy(disc: Disc, s: Search, n: int)
    requires
        well_listed(s.found),
    ensures
        well_listed(swept(disc, s, n)),
    decreases n,
{
    if n > 0 {
        lemma_swept_tidy(disc, s, n - 1);
        lemma_swept_clip_tidy(
            disc,
            s,
            swept(disc, s, n - 1),
            (n - 1) as usize,
            disc.clips@[n - 1].pages@.len() as int,
        );
    }
}

proof fn lemma_dispatched_tidy(
    disc: Disc,
    composites: Map<u32, Seq<BreadcrumbStep>>,
    found: Seq<Found>,
    cases: Seq<(u32, u16)>,
    n: int,
)
    requires
        well_listed(found),
        forall|c: u32| #[trigger]
            composites.contains_key(c) ==> composites[c].len() > 0 && in_one_clip(
                composites[c],
                composites[c].last().clip_index,
            ),
    ensures
        well_listed(dispatched(disc, composites, found, cases, n)),
    decreases n,
{
    if n > 0 {
        lemma_dispatched_tidy(disc, composites, found, cases, n - 1);
        let before = dispatched(disc, composites, found, cases, n - 1);
        let (case, playlist) = cases[n - 1];
        if composites.contains_key(case) && playable(playlist as u32, disc.valid@) {
            lemma_added(
                before,
                Found {
                    breadcrumb: composites[case],
                    orphan: false,
                    target: super::press::from_start(playlist),
                },
            );
        }
    }
}

/// Of each clip every target is listed at most once. Every entry has at least
/// one press, all its presses lie in one clip, and an entry on a page that
/// cannot be reached has exactly one.
pub proof fn law_entries_well_formed(disc: Disc)
    ensures
        well_listed(resolved(disc)),
{
    let end = search_end(disc);
    let n = disc.clips@.len() as int;
    lemma_rooted_tidy(disc, n);
    lemma_searched_tidy(rooted(disc, n), disc, NAV_GRAPH_LIMIT as nat);
    lemma_swept_tidy(disc, end, n);
    if let Some(t) = disc.table {
        lemma_dispatched_tidy(
            disc,
            end.composites,
            swept(disc, end, n),
            t.cases@,
            t.cases@.len() as int,
        );
    }
}

/// On a disc without a dispatch table no anchor plays anything.
pub proof fn law_anchor_needs_table(
    disc: Disc,
    ig_pid: u16,
    page: Page,
    page_id: u8,
    button: Button,
    gprs: Map<u32, u32>,
)
    requires
        disc.table is None,
        anchor(button),
    ensures
        outcome(disc, ig_pid, page, page_id, button, gprs) is Nothing,
{
}

// ---------------------------------------------------------------------------
// Presses
// ---------------------------------------------------------------------------

/// The root page of a clip as it is first visited.
pub open spec fn root_node(disc: Disc, clip: usize) -> Node {
    let pages = disc.clips@[clip as int].pages@;
    Node {
        clip,
        page: smallest_id(pages, pages.len() as int),
        gprs: seeded(*disc.file),
        breadcrumb: seq![],
    }
}

/// What pressing the `b`th button of a page comes to; nothing where there is
/// no such page or button.
pub open spec fn pressing(disc: Disc, node: Node, b: int) -> Outcome {
    let clip = disc.clips@[node.clip as int];
    match page_of(clip, node.page) {
        Some(page) => if 0 <= b < page.buttons@.len() {
            outcome(disc, clip.ig_pid, *page, node.page, page.buttons@[b], node.gprs)
        } else {
            Outcome::Nothing
        },
        None => Outcome::Nothing,
    }
}

/// The step of a button press on a page.
pub open spec fn step_on(node: Node, button_id: u16) -> BreadcrumbStep {
    BreadcrumbStep { clip_index: node.clip, page_id: node.page, button_id }
}

/// The page that pressing the `b`th button opens, if the clip has it.
pub open spec fn next_node(disc: Disc, node: Node, b: int) -> Option<Node> {
    let clip = disc.clips@[node.clip as int];
    match pressing(disc, node, b) {
        Outcome::Opens { composite, page, gprs } => if page_of(clip, page) is Some {
            Some(
                Node {
                    clip: node.clip,
                    page,
                    gprs,
                    breadcrumb: node.breadcrumb.push(
                        step_on(node, page_of(clip, node.page)->Some_0.buttons@[b].button_id),
                    ),
                },
            )
        } else {
            None
        },
        _ => None,
    }
}

/// The page to which pressing buttons leads from the root page of a clip. Each
/// press is given by the place of the button on its page.
pub open spec fn led_to(disc: Disc, clip: usize, presses: Seq<int>) -> Option<Node>
    decreases presses.len(),
{
    if presses.len() == 0 {
        if disc.clips@[clip as int].pages@.len() == 0 {
            None
        } else {
            Some(root_node(disc, clip))
        }
    } else {
        match led_to(disc, clip, presses.drop_last()) {
            Some(node) => next_node(disc, node, presses.last()),
            None => None,
        }
    }
}

/// Whether no dispatch case has a handler. A handler changes the registers of
/// all pages, which the search then visits anew as if from their start.
pub open spec fn without_handlers(disc: Disc) -> bool {
    forall|c: u32| handler_gprs(disc, c) is None
}

// ---------------------------------------------------------------------------
// The pages that a search queued, in order
// ---------------------------------------------------------------------------

spec fn key_of(node: Node) -> (usize, u8, Map<u32, u32>) {
    (node.clip, node.page, node.gprs)
}

/// Whether `h` holds every page that was queued so far, the ones still to be
/// visited last.
spec fn tracks(s: Search, h: Seq<Node>) -> bool {
    &&& h.len() == s.seen.len()
    &&& forall|i: int| 0 <= i < h.len() ==> key_of(#[trigger] h[i]) == s.seen[i]
    &&& s.queue.len() <= h.len()
    &&& s.queue == h.skip(h.len() - s.queue.len())
}

/// Whether everything found so far takes at most one press more than `depth`,
/// and pages were queued in the order of their presses.
spec fn within(s: Search, h: Seq<Node>, depth: nat) -> bool {
    &&& forall|i: int| 0 <= i < h.len() ==> (#[trigger] h[i]).breadcrumb.len() <= depth + 1
    &&& forall|i: int, j: int|
        0 <= i < j < h.len() ==> (#[trigger] h[i]).breadcrumb.len() <= (
        #[trigger] h[j]).breadcrumb.len()
    &&& forall|i: int|
        0 <= i < s.found.len() ==> (#[trigger] s.found[i]).breadcrumb.len() <= depth + 1
    &&& forall|c: u32| #[trigger]
        s.composites.contains_key(c) ==> s.composites[c].len() <= depth + 1
}

spec fn grown(s: Search, h: Seq<Node>, s2: Search, h2: Seq<Node>) -> bool {
    &&& h.len() <= h2.len()
    &&& forall|i: int| 0 <= i < h.len() ==> h2[i] == #[trigger] h[i]
    &&& s.found.len() <= s2.found.len()
    &&& forall|i: int| 0 <= i < s.found.len() ==> s2.found[i] == #[trigger] s.found[i]
    &&& forall|c: u32| #[trigger]
        s.composites.contains_key(c) ==> s2.composites.contains_key(c) && s2.composites[c]
            == s.composites[c]
}

/// Whether what a press came to is in the state of the search.
spec fn answered(disc: Disc, s: Search, h: Seq<Node>, node: Node, o: Outcome) -> bool {
    let quiet = without_handlers(disc);
    match o {
        Outcome::Plays { target, button_id } => exists|i: int|
            0 <= i < s.found.len() && same_play(#[trigger] s.found[i], node.clip, target) && (
            quiet ==> s.found[i].breadcrumb.len() <= node.breadcrumb.len() + 1),
        Outcome::Opens { composite, page, gprs } => {
            &&& s.composites.contains_key(composite)
            &&& quiet ==> s.composites[composite].len() <= node.breadcrumb.len() + 1
            &&& page_of(disc.clips@[node.clip as int], page) is Some ==> exists|j: int|
                0 <= j < h.len() && key_of(#[trigger] h[j]) == (node.clip, page, gprs) && (quiet
                    ==> h[j].breadcrumb.len() <= node.breadcrumb.len() + 1)
        },
        Outcome::Nothing => true,
    }
}

proof fn lemma_answered_grown(
    disc: Disc,
    s: Search,
    h: Seq<Node>,
    s2: Search,
    h2: Seq<Node>,
    node: Node,
    o: Outcome,
)
    requires
        answered(disc, s, h, node, o),
        grown(s, h, s2, h2),
    ensures
        answered(disc, s2, h2, node, o),
{
    let quiet = without_handlers(disc);
    match o {
        Outcome::Plays { target, button_id } => {
            let i = choose|i: int|
                0 <= i < s.found.len() && same_play(#[trigger] s.found[i], node.clip, target) && (
                quiet ==> s.found[i].breadcrumb.len() <= node.breadcrumb.len() + 1);
            assert(s2.found[i] == s.found[i]);
        },
        Outcome::Opens { composite, page, gprs } => {
            if page_of(disc.clips@[node.clip as int], page) is Some {
                let j = choose|j: int|
                    0 <= j < h.len() && key_of(#[trigger] h[j]) == (node.clip, page, gprs) && (quiet
                        ==> h[j].breadcrumb.len() <= node.breadcrumb.len() + 1);
                assert(h2[j] == h[j]);
            }
        },
        Outcome::Nothing => {},
    }
}

proof fn lemma_enqueued(s: Search, h: Seq<Node>, node: Node) -> (h2: Seq<Node>)
    requires
        tracks(s, h),
    ensures
        tracks(s.enqueued(node), h2),
        grown(s, h, s.enqueued(node), h2),
        h2 == if s.seen.contains(key_of(node)) {
            h
        } else {
            h.push(node)
        },
        exists|j: int| 0 <= j < h2.len() && key_of(#[trigger] h2[j]) == key_of(node),
{
    let key = key_of(node);
    if s.seen.contains(key) {
        let j = choose|j: int| 0 <= j < s.seen.len() && s.seen[j] == key;
        assert(key_of(h[j]) == key);
        h
    } else {
        let h2 = h.push(node);
        let s2 = s.enqueued(node);
        assert(s2.queue =~= h2.skip(h2.len() - s2.queue.len()));
        assert(key_of(h2[h.len() as int]) == key);
        h2
    }
}

proof fn lemma_refreshed(
    s: Search,
    h: Seq<Node>,
    clip: usize,
    pages: Seq<&Page>,
    gprs: Map<u32, u32>,
    n: int,
) -> (h2: Seq<Node>)
    requires
        tracks(s, h),
    ensures
        tracks(s.refreshed(clip, pages, gprs, n), h2),
        grown(s, h, s.refreshed(clip, pages, gprs, n), h2),
    decreases n,
{
    if n <= 0 {
        h
    } else {
        let h1 = lemma_refreshed(s, h, clip, pages, gprs, n - 1);
        let s1 = s.refreshed(clip, pages, gprs, n - 1);
        let page = pages[n - 1].page_id;
        if super::resolve::reached(s1.seen, clip, page) {
            lemma_enqueued(s1, h1, Node { clip, page, gprs, breadcrumb: seq![] })
        } else {
            h1
        }
    }
}

proof fn lemma_pressed(disc: Disc, s: Search, h: Seq<Node>, node: Node, page: Page, b: int) -> (h2:
    Seq<Node>)
    requires
        tracks(s, h),
        without_handlers(disc) ==> within(s, h, node.breadcrumb.len()),
        page_of(disc.clips@[node.clip as int], node.page) == Some(&page),
        0 <= b < page.buttons@.len(),
    ensures
        ({
            let s2 = s.pressed(disc, node, page, page.buttons@[b]);
            &&& tracks(s2, h2)
            &&& grown(s, h, s2, h2)
            &&& without_handlers(disc) ==> within(s2, h2, node.breadcrumb.len())
            &&& answered(disc, s2, h2, node, pressing(disc, node, b))
        }),
{
    let quiet = without_handlers(disc);
    let button = page.buttons@[b];
    let clip = disc.clips@[node.clip as int];
    let s2 = s.pressed(disc, node, page, button);
    match outcome(disc, clip.ig_pid, page, node.page, button, node.gprs) {
        Outcome::Plays { target, button_id } => {
            let f = Found {
                breadcrumb: node.breadcrumb.push(step_on(node, button_id)),
                orphan: false,
                target,
            };
            assert(s2.found == added(s.found, f));
            if known(s.found, node.clip, target) {
                let i = choose|i: int|
                    0 <= i < s.found.len() && same_play(#[trigger] s.found[i], node.clip, target);
                assert(same_play(s2.found[i], node.clip, target));
            } else {
                assert(same_play(s2.found[s.found.len() as int], node.clip, target));
            }
            h
        },
        Outcome::Opens { composite, page: p, gprs } => {
            let presses = node.breadcrumb.push(step_on(node, button.button_id));
            let noted = s.noted(composite, presses);
            assert(tracks(noted, h));
            assert(grown(s, h, noted, h));
            assert(quiet ==> within(noted, h, node.breadcrumb.len()));
            let next = Node { clip: node.clip, page: p, gprs, breadcrumb: presses };
            let known_page = page_of(clip, p) is Some;
            let opened = if known_page {
                noted.enqueued(next)
            } else {
                noted
            };
            let h1 = if known_page {
                lemma_enqueued(noted, h, next)
            } else {
                h
            };
            assert(quiet ==> within(opened, h1, node.breadcrumb.len()));
            assert(answered(disc, opened, h1, node, pressing(disc, node, b)));
            match handler_gprs(disc, composite) {
                Some(regs) => {
                    let h2 = lemma_refreshed(
                        opened,
                        h1,
                        node.clip,
                        clip.pages@,
                        regs,
                        clip.pages@.len() as int,
                    );
                    lemma_answered_grown(
                        disc,
                        opened,
                        h1,
                        s2,
                        h2,
                        node,
                        pressing(disc, node, b),
                    );
                    h2
                },
                None => h1,
            }
        },
        Outcome::Nothing => h,
    }
}

proof fn lemma_pressed_first(
    disc: Disc,
    s: Search,
    h: Seq<Node>,
    node: Node,
    page: Page,
    n: int,
) -> (h2: Seq<Node>)
    requires
        tracks(s, h),
        without_handlers(disc) ==> within(s, h, node.breadcrumb.len()),
        page_of(disc.clips@[node.clip as int], node.page) == Some(&page),
        0 <= n <= page.buttons@.len(),
    ensures
        ({
            let s2 = s.pressed_first(disc, node, page, n);
            &&& tracks(s2, h2)
            &&& grown(s, h, s2, h2)
            &&& without_handlers(disc) ==> within(s2, h2, node.breadcrumb.len())
            &&& forall|b: int|
                0 <= b < n ==> answered(disc, s2, h2, node, #[trigger] pressing(disc, node, b))
        }),
    decreases n,
{
    if n == 0 {
        h
    } else {
        let s1 = s.pressed_first(disc, node, page, n - 1);
        let h1 = lemma_pressed_first(disc, s, h, node, page, n - 1);
        let s2 = s.pressed_first(disc, node, page, n);
        let h2 = lemma_pressed(disc, s1, h1, node, page, n - 1);
        assert forall|b: int| 0 <= b < n implies answered(
            disc,
            s2,
            h2,
            node,
            #[trigger] pressing(disc, node, b),
        ) by {
            if b < n - 1 {
                lemma_answered_grown(disc, s1, h1, s2, h2, node, pressing(disc, node, b));
            }
        }
        h2
    }
}

/// Whether every press on the pages visited so far is answered.
spec fn settled(disc: Disc, s: Search, h: Seq<Node>) -> bool {
    forall|i: int, b: int|
        0 <= i < h.len() - s.queue.len() ==> answered(
            disc,
            s,
            h,
            h[i],
            #[trigger] pressing(disc, h[i], b),
        )
}

spec fn ready(disc: Disc, s: Search, h: Seq<Node>) -> bool {
    &&& tracks(s, h)
    &&& settled(disc, s, h)
    &&& without_handlers(disc) && s.queue.len() > 0 ==> within(
        s,
        h,
        s.queue[0].breadcrumb.len(),
    )
}

proof fn lemma_visited(disc: Disc, s: Search, h: Seq<Node>) -> (h2: Seq<Node>)
    requires
        ready(disc, s, h),
        s.queue.len() > 0,
    ensures
        ready(disc, s.visited(disc), h2),
        grown(s, h, s.visited(disc), h2),
{
    let node = s.queue[0];
    let rest = Search { queue: s.queue.skip(1), ..s };
    let at = h.len() - s.queue.len();
    assert(h[at] == node);
    assert(rest.queue =~= h.skip(h.len() - rest.queue.len()));
    assert(tracks(rest, h));
    let s2 = s.visited(disc);
    match page_of(disc.clips@[node.clip as int], node.page) {
        Some(page) => {
            let n = page.buttons@.len() as int;
            let h2 = lemma_pressed_first(disc, rest, h, node, *page, n);
            lemma_queue_kept(rest, disc, node, *page, n);
            assert(s2 == rest.pressed_first(disc, node, *page, n));
            assert(grown(rest, h, s2, h2));
            assert(rest.found == s.found && rest.composites == s.composites);
            assert(grown(s, h, s2, h2));
            assert forall|i: int, b: int| 0 <= i < h2.len() - s2.queue.len() implies answered(
                disc,
                s2,
                h2,
                h2[i],
                #[trigger] pressing(disc, h2[i], b),
            ) by {
                assert(h2[i] == h[i]);
                if i < at {
                    assert(answered(disc, s, h, h[i], pressing(disc, h[i], b)));
                    lemma_answered_grown(disc, s, h, s2, h2, h[i], pressing(disc, h[i], b));
                } else {
                    assert(i == at);
                    if !(0 <= b < n) {
                        assert(pressing(disc, h[i], b) is Nothing);
                    }
                }
            }
            if without_handlers(disc) && s2.queue.len() > 0 {
                let first = h2.len() - s2.queue.len();
                assert(s2.queue[0] == h2[first]);
                assert(first > at);
                assert(h2[at].breadcrumb.len() <= h2[first].breadcrumb.len());
            }
            h2
        },
        None => {
            assert forall|i: int, b: int| 0 <= i < h.len() - s2.queue.len() implies answered(
                disc,
                s2,
                h,
                h[i],
                #[trigger] pressing(disc, h[i], b),
            ) by {
                if i < at {
                    assert(answered(disc, s, h, h[i], pressing(disc, h[i], b)));
                    lemma_answered_grown(disc, s, h, s2, h, h[i], pressing(disc, h[i], b));
                } else {
                    assert(i == at);
                    assert(pressing(disc, h[i], b) is Nothing);
                }
            }
            if without_handlers(disc) && s2.queue.len() > 0 {
                assert(s2.queue[0] == h[at + 1]);
                assert(h[at].breadcrumb.len() <= h[at + 1].breadcrumb.len());
            }
            h
        },
    }
}

/// Pressing buttons adds as many pages to the queue as it marks as seen.
proof fn lemma_queue_kept(s: Search, disc: Disc, node: Node, page: Page, n: int)
    ensures
        ({
            let s2 = s.pressed_first(disc, node, page, n);
            s2.seen.len() - s2.queue.len() == s.seen.len() - s.queue.len()
        }),
    decreases n,
{
    if n > 0 {
        lemma_queue_kept(s, disc, node, page, n - 1);
        let s1 = s.pressed_first(disc, node, page, n - 1);
        let clip = disc.clips@[node.clip as int];
        match outcome(disc, clip.ig_pid, page, node.page, page.buttons@[n - 1], node.gprs) {
            Outcome::Opens { composite, page: p, gprs } => {
                let presses = node.breadcrumb.push(
                    step_on(node, page.buttons@[n - 1].button_id),
                );
                let noted = s1.noted(composite, presses);
                let opened = if page_of(clip, p) is Some {
                    noted.enqueued(Node { clip: node.clip, page: p, gprs, breadcrumb: presses })
                } else {
                    noted
                };
                if let Some(regs) = handler_gprs(disc, composite) {
                    lemma_refreshed_kept(
                        opened,
                        node.clip,
                        clip.pages@,
                        regs,
                        clip.pages@.len() as int,
                    );
                }
            },
            _ => {},
        }
    }
}

proof fn lemma_refreshed_kept(
    s: Search,
    clip: usize,
    pages: Seq<&Page>,
    gprs: Map<u32, u32>,
    n: int,
)
    ensures
        ({
            let s2 = s.refreshed(clip, pages, gprs, n);
            s2.seen.len() - s2.queue.len() == s.seen.len() - s.queue.len()
        }),
    decreases n,
{
    if n > 0 {
        lemma_refreshed_kept(s, clip, pages, gprs, n - 1);
    }
}

proof fn lemma_searched(disc: Disc, s: Search, h: Seq<Node>, fuel: nat) -> (h2: Seq<Node>)
    requires
        ready(disc, s, h),
    ensures
        ready(disc, s.searched(disc, fuel), h2),
        grown(s, h, s.searched(disc, fuel), h2),
    decreases fuel,
{
    if fuel == 0 || s.queue.len() == 0 {
        h
    } else {
        let h1 = lemma_visited(disc, s, h);
        lemma_searched(disc, s.visited(disc), h1, (fuel - 1) as nat)
    }
}

proof fn lemma_rooted(disc: Disc, n: int) -> (h: Seq<Node>)
    requires
        0 <= n <= disc.clips@.len(),
        disc.clips@.len() <= usize::MAX,
    ensures
        tracks(rooted(disc, n), h),
        rooted(disc, n).queue == h,
        rooted(disc, n).found.len() == 0,
        rooted(disc, n).composites == Map::<u32, Seq<BreadcrumbStep>>::empty(),
        forall|i: int| 0 <= i < h.len() ==> (#[trigger] h[i]).breadcrumb.len() == 0,
        forall|c: int|
            0 <= c < n && (#[trigger] disc.clips@[c]).pages@.len() > 0 ==> h.contains(
                root_node(disc, c as usize),
            ),
        forall|i: int|
            0 <= i < h.len() ==> (#[trigger] h[i]).clip < n && h[i] == root_node(disc, h[i].clip)
                && disc.clips@[h[i].clip as int].pages@.len() > 0,
    decreases n,
{
    if n == 0 {
        let h = Seq::<Node>::empty();
        assert(rooted(disc, 0).queue =~= h);
        assert(h.skip(0) =~= h);
        h
    } else {
        let h1 = lemma_rooted(disc, n - 1);
        let s1 = rooted(disc, n - 1);
        let pages = disc.clips@[n - 1].pages@;
        let node = root_node(disc, (n - 1) as usize);
        let h2 = if pages.len() == 0 {
            h1
        } else {
            assert(!s1.seen.contains(key_of(node))) by {
                if s1.seen.contains(key_of(node)) {
                    let j = choose|j: int| 0 <= j < s1.seen.len() && s1.seen[j] == key_of(node);
                    assert(key_of(h1[j]) == key_of(node));
                    assert(h1[j].clip < n - 1);
                }
            }
            let h2 = lemma_enqueued(s1, h1, node);
            assert(h2 == h1.push(node));
            assert(h2[h1.len() as int] == node);
            h2
        };
        assert forall|c: int|
            0 <= c < n && (#[trigger] disc.clips@[c]).pages@.len() > 0 implies h2.contains(
            root_node(disc, c as usize),
        ) by {
            if c < n - 1 {
                assert(h1.contains(root_node(disc, c as usize)));
                let k = choose|k: int| 0 <= k < h1.len() && h1[k] == root_node(disc, c as usize);
                assert(h2[k] == h1[k]);
            }
        }
        h2
    }
}

/// The pages queued by a search, from its start to its end.
proof fn lemma_end(disc: Disc) -> (h: Seq<Node>)
    requires
        disc.clips@.len() <= usize::MAX,
    ensures
        ready(disc, search_end(disc), h),
        forall|c: int|
            0 <= c < disc.clips@.len() && (#[trigger] disc.clips@[c]).pages@.len() > 0
                ==> h.contains(root_node(disc, c as usize)),
{
    let n = disc.clips@.len() as int;
    let s = rooted(disc, n);
    let h0 = lemma_rooted(disc, n);
    assert(ready(disc, s, h0));
    let h = lemma_searched(disc, s, h0, NAV_GRAPH_LIMIT as nat);
    assert forall|c: int|
        0 <= c < disc.clips@.len() && (
        #[trigger] disc.clips@[c]).pages@.len() > 0 implies h.contains(
        root_node(disc, c as usize),
    ) by {
        assert(h0.contains(root_node(disc, c as usize)));
        let k = choose|k: int| 0 <= k < h0.len() && h0[k] == root_node(disc, c as usize);
        assert(h[k] == h0[k]);
    }
    h
}

proof fn lemma_led_to(disc: Disc, clip: usize, presses: Seq<int>)
    ensures
        led_to(disc, clip, presses) matches Some(node) ==> node.clip == clip
            && node.breadcrumb.len() == presses.len(),
    decreases presses.len(),
{
    if presses.len() > 0 {
        lemma_led_to(disc, clip, presses.drop_last());
    }
}

proof fn lemma_queued(disc: Disc, h: Seq<Node>, clip: usize, presses: Seq<int>) -> (j: int)
    requires
        clip < disc.clips@.len(),
        ready(disc, search_end(disc), h),
        search_end(disc).queue.len() == 0,
        led_to(disc, clip, presses) is Some,
        disc.clips@[clip as int].pages@.len() > 0 ==> h.contains(root_node(disc, clip)),
    ensures
        0 <= j < h.len(),
        key_of(h[j]) == key_of(led_to(disc, clip, presses)->Some_0),
        without_handlers(disc) ==> h[j].breadcrumb.len() <= presses.len(),
    decreases presses.len(),
{
    if presses.len() == 0 {
        choose|j: int| 0 <= j < h.len() && h[j] == root_node(disc, clip)
    } else {
        let before = presses.drop_last();
        let i = lemma_queued(disc, h, clip, before);
        let node = led_to(disc, clip, before)->Some_0;
        lemma_led_to(disc, clip, before);
        let b = presses.last();
        assert(pressing(disc, h[i], b) == pressing(disc, node, b));
        assert(answered(disc, search_end(disc), h, h[i], pressing(disc, h[i], b)));
        match pressing(disc, node, b) {
            Outcome::Opens { composite, page, gprs } => {
                let j = choose|j: int|
                    0 <= j < h.len() && key_of(#[trigger] h[j]) == (node.clip, page, gprs) && (
                    without_handlers(disc) ==> h[j].breadcrumb.len() <= h[i].breadcrumb.len() + 1);
                j
            },
            _ => 0,
        }
    }
}

// ---------------------------------------------------------------------------
// What follows the search
// ---------------------------------------------------------------------------

spec fn prefixed(a: Seq<Found>, b: Seq<Found>) -> bool {
    a.len() <= b.len() && forall|i: int| 0 <= i < a.len() ==> b[i] == #[trigger] a[i]
}

proof fn lemma_swept_page_kept(disc: Disc, found: Seq<Found>, clip: usize, page: Page, n: int)
    ensures
        prefixed(found, swept_page(disc, found, clip, page, n)),
    decreases n,
{
    if n > 0 {
        lemma_swept_page_kept(disc, found, clip, page, n - 1);
    }
}

proof fn lemma_swept_clip_kept(disc: Disc, s: Search, found: Seq<Found>, clip: usize, n: int)
    ensures
        prefixed(found, swept_clip(disc, s, found, clip, n)),
    decreases n,
{
    if n > 0 {
        lemma_swept_clip_kept(disc, s, found, clip, n - 1);
        let page = disc.clips@[clip as int].pages@[n - 1];
        lemma_swept_page_kept(
            disc,
            swept_clip(disc, s, found, clip, n - 1),
            clip,
            *page,
            page.buttons@.len() as int,
        );
    }
}

proof fn lemma_swept_kept(disc: Disc, s: Search, n: int)
    ensures
        prefixed(s.found, swept(disc, s, n)),
    decreases n,
{
    if n > 0 {
        lemma_swept_kept(disc, s, n - 1);
        lemma_swept_clip_kept(
            disc,
            s,
            swept(disc, s, n - 1),
            (n - 1) as usize,
            disc.clips@[n - 1].pages@.len() as int,
        );
    }
}

proof fn lemma_dispatched_kept(
    disc: Disc,
    composites: Map<u32, Seq<BreadcrumbStep>>,
    found: Seq<Found>,
    cases: Seq<(u32, u16)>,
    n: int,
)
    ensures
        prefixed(found, dispatched(disc, composites, found, cases, n)),
    decreases n,
{
    if n > 0 {
        lemma_dispatched_kept(disc, composites, found, cases, n - 1);
    }
}

/// What the search finds comes first in the list, in the same order.
proof fn lemma_found_kept(disc: Disc)
    ensures
        prefixed(search_end(disc).found, resolved(disc)),
{
    let end = search_end(disc);
    let n = disc.clips@.len() as int;
    lemma_swept_kept(disc, end, n);
    if let Some(t) = disc.table {
        lemma_dispatched_kept(
            disc,
            end.composites,
            swept(disc, end, n),
            t.cases@,
            t.cases@.len() as int,
        );
    }
}

/// A search that visits every page it queues misses nothing: if pressing
/// buttons from the root page of a clip leads to a button that plays a target,
/// the clip is listed with the target. The entry has no more presses than
/// that, unless some dispatch case has a handler.
pub proof fn law_fewest_presses_found(
    disc: Disc,
    clip: usize,
    presses: Seq<int>,
    b: int,
    target: PlayTarget,
    button_id: u16,
)
    requires
        clip < disc.clips@.len() <= usize::MAX,
        search_end(disc).queue.len() == 0,
        led_to(disc, clip, presses) matches Some(node) && pressing(disc, node, b) == (
        Outcome::Plays { target, button_id }),
    ensures
        exists|i: int|
            0 <= i < resolved(disc).len() && same_play(
                #[trigger] resolved(disc)[i],
                clip,
                target,
            ) && (without_handlers(disc) ==> resolved(disc)[i].breadcrumb.len() <= presses.len()
                + 1),
{
    let end = search_end(disc);
    let h = lemma_end(disc);
    assert(disc.clips@[clip as int].pages@.len() > 0 ==> h.contains(root_node(disc, clip)));
    let j = lemma_queued(disc, h, clip, presses);
    let node = led_to(disc, clip, presses)->Some_0;
    lemma_led_to(disc, clip, presses);
    assert(pressing(disc, h[j], b) == pressing(disc, node, b));
    assert(answered(disc, end, h, h[j], pressing(disc, h[j], b)));
    let i = choose|i: int|
        0 <= i < end.found.len() && same_play(#[trigger] end.found[i], clip, target) && (
        without_handlers(disc) ==> end.found[i].breadcrumb.len() <= h[j].breadcrumb.len() + 1);
    lemma_found_kept(disc);
    assert(same_play(resolved(disc)[i], clip, target));
}

/// Every value that a button hands to the dispatcher on the way is noted with
/// the fewest presses that lead to it, unless some dispatch case has a
/// handler.
pub proof fn law_fewest_presses_noted(
    disc: Disc,
    clip: usize,
    presses: Seq<int>,
    b: int,
    composite: u32,
    page: u8,
    gprs: Map<u32, u32>,
)
    requires
        clip < disc.clips@.len() <= usize::MAX,
        search_end(disc).queue.len() == 0,
        led_to(disc, clip, presses) matches Some(node) && pressing(disc, node, b) == (
        Outcome::Opens { composite, page, gprs }),
    ensures
        search_end(disc).composites.contains_key(composite),
        without_handlers(disc) ==> search_end(disc).composites[composite].len() <= presses.len()
            + 1,
{
    let h = lemma_end(disc);
    assert(disc.clips@[clip as int].pages@.len() > 0 ==> h.contains(root_node(disc, clip)));
    let j = lemma_queued(disc, h, clip, presses);
    let node = led_to(disc, clip, presses)->Some_0;
    lemma_led_to(disc, clip, presses);
    assert(pressing(disc, h[j], b) == pressing(disc, node, b));
    assert(answered(disc, search_end(disc), h, h[j], pressing(disc, h[j], b)));
}

// ---------------------------------------------------------------------------
// Every entry has its presses
// ---------------------------------------------------------------------------

/// Whether pressing buttons from the root page of a clip, and at last the
/// `b`th button of the page they lead to, plays the target of an entry, and
/// these are the presses of the entry.
pub open spec fn plays_by(disc: Disc, f: Found, presses: Seq<int>, b: int) -> bool {
    match led_to(disc, f.breadcrumb.last().clip_index, presses) {
        Some(node) => match pressing(disc, node, b) {
            Outcome::Plays { target, button_id } => target == f.target && f.breadcrumb
                == node.breadcrumb.push(step_on(node, button_id)),
            _ => false,
        },
        None => false,
    }
}

/// Whether pressing buttons from the root page of a clip, and at last the
/// `b`th button of the page they lead to, hands `composite` to the dispatcher,
/// and these are the given steps.
pub open spec fn names_by(
    disc: Disc,
    composite: u32,
    steps: Seq<BreadcrumbStep>,
    presses: Seq<int>,
    b: int,
) -> bool {
    match led_to(disc, steps.last().clip_index, presses) {
        Some(node) => match pressing(disc, node, b) {
            Outcome::Opens { composite: c, page, gprs } => c == composite && steps
                == node.breadcrumb.push(
                step_on(
                    node,
                    page_of(
                        disc.clips@[node.clip as int],
                        node.page,
                    )->Some_0.buttons@[b].button_id,
                ),
            ),
            _ => false,
        },
        None => false,
    }
}

spec fn walked(disc: Disc, node: Node) -> bool {
    exists|presses: Seq<int>| #[trigger] led_to(disc, node.clip, presses) == Some(node)
}

/// Whether some presses from the root page of its clip play an entry.
pub open spec fn played(disc: Disc, f: Found) -> bool {
    exists|presses: Seq<int>, b: int| plays_by(disc, f, presses, b)
}

/// Whether some presses from the root page of their clip hand `composite` to
/// the dispatcher by the given steps.
pub open spec fn named(disc: Disc, composite: u32, steps: Seq<BreadcrumbStep>) -> bool {
    exists|presses: Seq<int>, b: int| names_by(disc, composite, steps, presses, b)
}

spec fn truthful(disc: Disc, s: Search) -> bool {
    &&& forall|i: int| 0 <= i < s.queue.len() ==> walked(disc, #[trigger] s.queue[i])
    &&& forall|i: int| 0 <= i < s.found.len() ==> played(disc, #[trigger] s.found[i])
    &&& forall|c: u32| #[trigger]
        s.composites.contains_key(c) ==> named(disc, c, s.composites[c])
}

proof fn lemma_pressed_truthful(disc: Disc, s: Search, node: Node, page: Page, b: int)
    requires
        without_handlers(disc),
        truthful(disc, s),
        walked(disc, node),
        page_of(disc.clips@[node.clip as int], node.page) == Some(&page),
        0 <= b < page.buttons@.len(),
    ensures
        truthful(disc, s.pressed(disc, node, page, page.buttons@[b])),
{
    let button = page.buttons@[b];
    let clip = disc.clips@[node.clip as int];
    let s2 = s.pressed(disc, node, page, button);
    let presses = choose|presses: Seq<int>| #[trigger]
        led_to(disc, node.clip, presses) == Some(node);
    match outcome(disc, clip.ig_pid, page, node.page, button, node.gprs) {
        Outcome::Plays { target, button_id } => {
            let f = Found {
                breadcrumb: node.breadcrumb.push(step_on(node, button_id)),
                orphan: false,
                target,
            };
            assert(plays_by(disc, f, presses, b));
            assert(played(disc, f));
        },
        Outcome::Opens { composite, page: p, gprs } => {
            let steps = node.breadcrumb.push(step_on(node, button.button_id));
            assert(names_by(disc, composite, steps, presses, b));
            assert(named(disc, composite, steps));
            let noted = s.noted(composite, steps);
            assert(truthful(disc, noted));
            let next = Node { clip: node.clip, page: p, gprs, breadcrumb: steps };
            if page_of(clip, p) is Some {
                let longer = presses.push(b);
                assert(longer.drop_last() =~= presses);
                assert(next_node(disc, node, b) == Some(next));
                assert(led_to(disc, node.clip, longer) == Some(next));
                assert(walked(disc, next));
                assert(truthful(disc, noted.enqueued(next)));
            }
        },
        Outcome::Nothing => {},
    }
}

proof fn lemma_pressed_first_truthful(disc: Disc, s: Search, node: Node, page: Page, n: int)
    requires
        without_handlers(disc),
        truthful(disc, s),
        walked(disc, node),
        page_of(disc.clips@[node.clip as int], node.page) == Some(&page),
        0 <= n <= page.buttons@.len(),
    ensures
        truthful(disc, s.pressed_first(disc, node, page, n)),
    decreases n,
{
    if n > 0 {
        lemma_pressed_first_truthful(disc, s, node, page, n - 1);
        lemma_pressed_truthful(disc, s.pressed_first(disc, node, page, n - 1), node, page, n - 1);
    }
}

proof fn lemma_searched_truthful(disc: Disc, s: Search, fuel: nat)
    requires
        without_handlers(disc),
        truthful(disc, s),
    ensures
        truthful(disc, s.searched(disc, fuel)),
    decreases fuel,
{
    if fuel > 0 && s.queue.len() > 0 {
        let node = s.queue[0];
        let rest = Search { queue: s.queue.skip(1), ..s };
        assert(truthful(disc, rest));
        if let Some(page) = page_of(disc.clips@[node.clip as int], node.page) {
            lemma_pressed_first_truthful(disc, rest, node, *page, page.buttons@.len() as int);
        }
        lemma_searched_truthful(disc, s.visited(disc), (fuel - 1) as nat);
    }
}

proof fn lemma_end_truthful(disc: Disc)
    requires
        without_handlers(disc),
        disc.clips@.len() <= usize::MAX,
    ensures
        truthful(disc, search_end(disc)),
{
    let n = disc.clips@.len() as int;
    let s = rooted(disc, n);
    let h = lemma_rooted(disc, n);
    assert forall|i: int| 0 <= i < s.queue.len() implies walked(disc, #[trigger] s.queue[i]) by {
        assert(s.queue[i] == h[i]);
        assert(led_to(disc, h[i].clip, seq![]) == Some(h[i]));
    }
    lemma_searched_truthful(disc, s, NAV_GRAPH_LIMIT as nat);
}

/// What may stand in the list after a search: what it found; what a page plays
/// that it never reached, with the registers of the start; and a dispatch case
/// that a button named.
spec fn accounted(disc: Disc, s: Search, f: Found) -> bool {
    ||| s.found.contains(f)
    ||| f.orphan && f.breadcrumb.len() == 1 && unreached_play(disc, s, f)
    ||| !f.orphan && named_case(disc, s, f)
}

/// Whether an entry is that of a button on a page that was never reached.
pub open spec fn unreached_play(disc: Disc, s: Search, f: Found) -> bool {
    let step = f.breadcrumb[0];
    &&& step.clip_index < disc.clips@.len()
    &&& !super::resolve::reached(s.seen, step.clip_index, step.page_id)
    &&& exists|p: int, b: int|
        0 <= p < disc.clips@[step.clip_index as int].pages@.len() && 0 <= b < (
        #[trigger] disc.clips@[step.clip_index as int].pages@[p]).buttons@.len() && outcome(
            disc,
            disc.clips@[step.clip_index as int].ig_pid,
            *disc.clips@[step.clip_index as int].pages@[p],
            step.page_id,
            #[trigger] disc.clips@[step.clip_index as int].pages@[p].buttons@[b],
            seeded(*disc.file),
        ) == (Outcome::Plays { target: f.target, button_id: step.button_id })
}

/// Whether an entry is that of a dispatch case that a button named.
pub open spec fn named_case(disc: Disc, s: Search, f: Found) -> bool {
    disc.table matches Some(t) && exists|k: int|
        0 <= k < t.cases@.len() && s.composites.contains_key((#[trigger] t.cases@[k]).0)
            && f.breadcrumb == s.composites[t.cases@[k].0] && f.target
            == super::press::from_start(t.cases@[k].1)
}

spec fn all_accounted(disc: Disc, s: Search, found: Seq<Found>) -> bool {
    forall|i: int| 0 <= i < found.len() ==> accounted(disc, s, #[trigger] found[i])
}

proof fn lemma_swept_page_accounted(
    disc: Disc,
    s: Search,
    found: Seq<Found>,
    clip: usize,
    p: int,
    n: int,
)
    requires
        all_accounted(disc, s, found),
        clip < disc.clips@.len(),
        0 <= p < disc.clips@[clip as int].pages@.len(),
        0 <= n <= disc.clips@[clip as int].pages@[p].buttons@.len(),
        !super::resolve::reached(s.seen, clip, disc.clips@[clip as int].pages@[p].page_id),
    ensures
        all_accounted(
            disc,
            s,
            swept_page(disc, found, clip, *disc.clips@[clip as int].pages@[p], n),
        ),
    decreases n,
{
    if n > 0 {
        lemma_swept_page_accounted(disc, s, found, clip, p, n - 1);
        let page = *disc.clips@[clip as int].pages@[p];
        let before = swept_page(disc, found, clip, page, n - 1);
        let ig_pid = disc.clips@[clip as int].ig_pid;
        match outcome(
            disc,
            ig_pid,
            page,
            page.page_id,
            page.buttons@[n - 1],
            seeded(*disc.file),
        ) {
            Outcome::Plays { target, button_id } => {
                let step = BreadcrumbStep { clip_index: clip, page_id: page.page_id, button_id };
                let f = Found { breadcrumb: seq![step], orphan: true, target };
                assert(f.breadcrumb[0] == step);
                assert(disc.clips@[clip as int].pages@[p].buttons@[n - 1] == page.buttons@[n - 1]);
                assert(unreached_play(disc, s, f));
                assert(accounted(disc, s, f));
            },
            _ => {},
        }
    }
}

proof fn lemma_swept_clip_accounted(disc: Disc, s: Search, found: Seq<Found>, clip: usize, n: int)
    requires
        all_accounted(disc, s, found),
        clip < disc.clips@.len(),
        0 <= n <= disc.clips@[clip as int].pages@.len(),
    ensures
        all_accounted(disc, s, swept_clip(disc, s, found, clip, n)),
    decreases n,
{
    if n > 0 {
        lemma_swept_clip_accounted(disc, s, found, clip, n - 1);
        let before = swept_clip(disc, s, found, clip, n - 1);
        let page = disc.clips@[clip as int].pages@[n - 1];
        if !super::resolve::reached(s.seen, clip, page.page_id) {
            lemma_swept_page_accounted(
                disc,
                s,
                before,
                clip,
                n - 1,
                page.buttons@.len() as int,
            );
        }
    }
}

proof fn lemma_swept_accounted(disc: Disc, s: Search, n: int)
    requires
        0 <= n <= disc.clips@.len() <= usize::MAX,
    ensures
        all_accounted(disc, s, swept(disc, s, n)),
    decreases n,
{
    if n > 0 {
        lemma_swept_accounted(disc, s, n - 1);
        lemma_swept_clip_accounted(
            disc,
            s,
            swept(disc, s, n - 1),
            (n - 1) as usize,
            disc.clips@[n - 1].pages@.len() as int,
        );
    } else {
        assert forall|i: int| 0 <= i < s.found.len() implies accounted(
            disc,
            s,
            #[trigger] s.found[i],
        ) by {
            assert(s.found.contains(s.found[i]));
        }
    }
}

proof fn lemma_dispatched_accounted(disc: Disc, s: Search, found: Seq<Found>, n: int)
    requires
        disc.table is Some,
        all_accounted(disc, s, found),
        0 <= n <= disc.table->Some_0.cases@.len(),
    ensures
        all_accounted(
            disc,
            s,
            dispatched(disc, s.composites, found, disc.table->Some_0.cases@, n),
        ),
    decreases n,
{
    if n > 0 {
        lemma_dispatched_accounted(disc, s, found, n - 1);
        let cases = disc.table->Some_0.cases@;
        let (case, playlist) = cases[n - 1];
        if s.composites.contains_key(case) && playable(playlist as u32, disc.valid@) {
            let f = Found {
                breadcrumb: s.composites[case],
                orphan: false,
                target: super::press::from_start(playlist),
            };
            assert(s.composites.contains_key(cases[n - 1].0));
            assert(named_case(disc, s, f));
        }
    }
}

proof fn lemma_resolved_accounted(disc: Disc)
    requires
        disc.clips@.len() <= usize::MAX,
    ensures
        all_accounted(disc, search_end(disc), resolved(disc)),
{
    let end = search_end(disc);
    let n = disc.clips@.len() as int;
    lemma_swept_accounted(disc, end, n);
    if let Some(t) = disc.table {
        lemma_dispatched_accounted(disc, end, swept(disc, end, n), t.cases@.len() as int);
    }
}

/// The presses of an entry do what the entry says, unless some dispatch case
/// has a handler: pressing these buttons from the root page of the clip plays
/// the target, or hands the dispatcher a case whose playlist it is. This holds
/// of every entry but those on pages that cannot be reached.
pub proof fn law_presses_play_target(disc: Disc, i: int)
    requires
        disc.clips@.len() <= usize::MAX,
        without_handlers(disc),
        0 <= i < resolved(disc).len(),
        !resolved(disc)[i].orphan,
    ensures
        ({
            let f = resolved(disc)[i];
            ||| played(disc, f)
            ||| disc.table matches Some(t) && exists|k: int|
                0 <= k < t.cases@.len() && named(disc, (#[trigger] t.cases@[k]).0, f.breadcrumb)
                    && f.target == super::press::from_start(t.cases@[k].1)
        }),
{
    let end = search_end(disc);
    let f = resolved(disc)[i];
    lemma_end_truthful(disc);
    lemma_resolved_accounted(disc);
    assert(accounted(disc, end, f));
    if end.found.contains(f) {
        let k = choose|k: int| 0 <= k < end.found.len() && end.found[k] == f;
        assert(played(disc, end.found[k]));
    } else {
        let t = disc.table->Some_0;
        let k = choose|k: int|
            0 <= k < t.cases@.len() && end.composites.contains_key((#[trigger] t.cases@[k]).0)
                && f.breadcrumb == end.composites[t.cases@[k].0] && f.target
                == super::press::from_start(t.cases@[k].1);
        let c = t.cases@[k].0;
        assert(end.composites.contains_key(c));
        assert(named(disc, t.cases@[k].0, f.breadcrumb));
    }
}

/// An entry that is marked as unreachable lies on a page to which no presses
/// lead from the root page of its clip, if the search visited every page that
/// it queued. It plays its target with the registers of the start.
pub proof fn law_orphans_unreachable(disc: Disc, i: int, presses: Seq<int>)
    requires
        disc.clips@.len() <= usize::MAX,
        search_end(disc).queue.len() == 0,
        0 <= i < resolved(disc).len(),
        resolved(disc)[i].orphan,
    ensures
        unreached_play(disc, search_end(disc), resolved(disc)[i]),
        led_to(disc, resolved(disc)[i].breadcrumb[0].clip_index, presses) matches Some(node)
            ==> node.page != resolved(disc)[i].breadcrumb[0].page_id,
{
    let end = search_end(disc);
    let f = resolved(disc)[i];
    let step = f.breadcrumb[0];
    lemma_resolved_accounted(disc);
    assert(accounted(disc, end, f));
    lemma_not_orphans(disc);
    if end.found.contains(f) {
        let k = choose|k: int| 0 <= k < end.found.len() && end.found[k] == f;
        assert(!end.found[k].orphan);
    }
    if let Some(node) = led_to(disc, step.clip_index, presses) {
        let h = lemma_end(disc);
        assert(disc.clips@[step.clip_index as int].pages@.len() > 0 ==> h.contains(
            root_node(disc, step.clip_index),
        ));
        let j = lemma_queued(disc, h, step.clip_index, presses);
        lemma_led_to(disc, step.clip_index, presses);
        assert(key_of(h[j]) == end.seen[j]);
        assert(super::resolve::reached(end.seen, step.clip_index, node.page));
    }
}

spec fn no_orphans(found: Seq<Found>) -> bool {
    forall|i: int| 0 <= i < found.len() ==> !(#[trigger] found[i]).orphan
}

proof fn lemma_pressed_first_orphans(disc: Disc, s: Search, node: Node, page: Page, n: int)
    requires
        no_orphans(s.found),
    ensures
        no_orphans(s.pressed_first(disc, node, page, n).found),
    decreases n,
{
    if n > 0 {
        lemma_pressed_first_orphans(disc, s, node, page, n - 1);
        let s1 = s.pressed_first(disc, node, page, n - 1);
        let clip = disc.clips@[node.clip as int];
        match outcome(disc, clip.ig_pid, page, node.page, page.buttons@[n - 1], node.gprs) {
            Outcome::Opens { composite, page: p, gprs } => {
                if let Some(regs) = handler_gprs(disc, composite) {
                    let steps = node.breadcrumb.push(
                        step_on(node, page.buttons@[n - 1].button_id),
                    );
                    let noted = s1.noted(composite, steps);
                    let opened = if page_of(clip, p) is Some {
                        noted.enqueued(Node { clip: node.clip, page: p, gprs, breadcrumb: steps })
                    } else {
                        noted
                    };
                    lemma_refreshed_found(
                        opened,
                        node.clip,
                        clip.pages@,
                        regs,
                        clip.pages@.len() as int,
                    );
                }
            },
            _ => {},
        }
    }
}

proof fn lemma_refreshed_found(
    s: Search,
    clip: usize,
    pages: Seq<&Page>,
    gprs: Map<u32, u32>,
    n: int,
)
    ensures
        s.refreshed(clip, pages, gprs, n).found == s.found,
    decreases n,
{
    if n > 0 {
        lemma_refreshed_found(s, clip, pages, gprs, n - 1);
    }
}

proof fn lemma_searched_orphans(disc: Disc, s: Search, fuel: nat)
    requires
        no_orphans(s.found),
    ensures
        no_orphans(s.searched(disc, fuel).found),
    decreases fuel,
{
    if fuel > 0 && s.queue.len() > 0 {
        let node = s.queue[0];
        let rest = Search { queue: s.queue.skip(1), ..s };
        if let Some(page) = page_of(disc.clips@[node.clip as int], node.page) {
            lemma_pressed_first_orphans(disc, rest, node, *page, page.buttons@.len() as int);
        }
        lemma_searched_orphans(disc, s.visited(disc), (fuel - 1) as nat);
    }
}

proof fn lemma_rooted_found(disc: Disc, n: int)
    ensures
        rooted(disc, n).found.len() == 0,
    decreases n,
{
    if n > 0 {
        lemma_rooted_found(disc, n - 1);
    }
}

proof fn lemma_not_orphans(disc: Disc)
    ensures
        no_orphans(search_end(disc).found),
{
    let n = disc.clips@.len() as int;
    lemma_rooted_found(disc, n);
    lemma_searched_orphans(disc, rooted(disc, n), NAV_GRAPH_LIMIT as nat);
}

} // verus!
