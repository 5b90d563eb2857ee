//! Which playlists the menus of a disc lead to, and by which button presses.
//!
//! The search is breadth first over pages paired with register contents. It
//! starts on the root page of each clip. Pages that it never reaches are swept
//! afterwards, and last come the dispatch cases that a button named on the way
//! without any page playing them.
use std::collections::{HashMap, HashSet, VecDeque};

use vstd::prelude::*;

use super::press::{
    find_page, from_start, handler_gprs, outcome, page_of, press_button, run_handler, Disc, Outcome,
    Press,
};
use super::vm::{is_playable, playable, same_registers, seed_gpr_state, seeded};
use super::{
    BreadcrumbStep, DispatchTable, MovieObjectFile, NavClipInput, PlayTarget, ResolvedPlaylist,
};
use crate::nav::{Button, Page};

pub mod laws;

verus! {

broadcast use vstd::std_specs::hash::group_hash_axioms;

/// Most pages that one search visits.
pub const NAV_GRAPH_LIMIT: u32 = 50_000;

/// A playlist that was found, with the button presses that reach it.
#[verifier::ext_equal]
pub struct Found {
    /// Button presses in order.
    pub breadcrumb: Seq<BreadcrumbStep>,
    /// The button lies on a page that no root page leads to.
    pub orphan: bool,
    /// What is played.
    pub target: PlayTarget,
}

impl View for ResolvedPlaylist {
    type V = Found;

    open spec fn view(&self) -> Found {
        Found { breadcrumb: self.breadcrumb@, orphan: self.orphan, target: self.target }
    }
}

/// A page to be visited with given register contents.
#[verifier::ext_equal]
pub struct Node {
    /// Index of the clip.
    pub clip: usize,
    /// Number of the page.
    pub page: u8,
    /// General purpose registers.
    pub gprs: Map<u32, u32>,
    /// Button presses that lead to the page.
    pub breadcrumb: Seq<BreadcrumbStep>,
}

/// State of a search.
#[verifier::ext_equal]
pub struct Search {
    /// What was found, in order.
    pub found: Seq<Found>,
    /// Pages still to be visited, in order.
    pub queue: Seq<Node>,
    /// Pages with the register contents under which they were queued.
    pub seen: Seq<(usize, u8, Map<u32, u32>)>,
    /// The presses that first led to each button operand of a page change.
    pub composites: Map<u32, Seq<BreadcrumbStep>>,
}

/// Whether an entry plays `target` by a button of clip `clip`.
pub open spec fn same_play(f: Found, clip: usize, target: PlayTarget) -> bool {
    f.breadcrumb.last().clip_index == clip && f.target == target
}

/// Whether clip `clip` is known to play `target`.
pub open spec fn known(found: Seq<Found>, clip: usize, target: PlayTarget) -> bool {
    exists|i: int| 0 <= i < found.len() && same_play(#[trigger] found[i], clip, target)
}

/// `found` with an entry added, unless its clip is known to play its target.
pub open spec fn added(found: Seq<Found>, f: Found) -> Seq<Found> {
    if known(found, f.breadcrumb.last().clip_index, f.target) {
        found
    } else {
        found.push(f)
    }
}

/// Whether a page was queued under some register contents.
pub open spec fn reached(
    seen: Seq<(usize, u8, Map<u32, u32>)>,
    clip: usize,
    page: u8,
) -> bool {
    exists|i: int| 0 <= i < seen.len() && (#[trigger] seen[i]).0 == clip && seen[i].1 == page
}

impl Search {
    /// The state after a page is queued, unless it was before with the same
    /// register contents.
    pub open spec fn enqueued(self, node: Node) -> Search {
        let key = (node.clip, node.page, node.gprs);
        if self.seen.contains(key) {
            self
        } else {
            Search { queue: self.queue.push(node), seen: self.seen.push(key), ..self }
        }
    }

    /// The state after those of the first `n` pages that were reached before
    /// are queued with new register contents.
    pub open spec fn refreshed(
        self,
        clip: usize,
        pages: Seq<&Page>,
        gprs: Map<u32, u32>,
        n: int,
    ) -> Search
        decreases n,
    {
        if n <= 0 {
            self
        } else {
            let before = self.refreshed(clip, pages, gprs, n - 1);
            let page = pages[n - 1].page_id;
            if reached(before.seen, clip, page) {
                before.enqueued(Node { clip, page, gprs, breadcrumb: seq![] })
            } else {
                before
            }
        }
    }

    /// The state after the presses that led to a button operand are noted,
    /// unless some were before.
    pub open spec fn noted(self, composite: u32, breadcrumb: Seq<BreadcrumbStep>) -> Search {
        if self.composites.contains_key(composite) {
            self
        } else {
            Search { composites: self.composites.insert(composite, breadcrumb), ..self }
        }
    }

    /// The state after a button of a page is pressed. What it plays is added.
    /// The page that it opens is queued, and after it the reached pages of the
    /// clip with the registers that the handler of the dispatch case sets.
    pub open spec fn pressed(self, disc: Disc, node: Node, page: Page, button: Button) -> Search {
        let clip = disc.clips@[node.clip as int];
        let crumb = |id: u16|
            node.breadcrumb.push(
                BreadcrumbStep { clip_index: node.clip, page_id: node.page, button_id: id },
            );
        match outcome(disc, clip.ig_pid, page, node.page, button, node.gprs) {
            Outcome::Plays { target, button_id } => Search {
                found: added(
                    self.found,
                    Found { breadcrumb: crumb(button_id), orphan: false, target },
                ),
                ..self
            },
            Outcome::Opens { composite, page, gprs } => {
                let presses = crumb(button.button_id);
                let noted = self.noted(composite, presses);
                let opened = if page_of(clip, page) is Some {
                    noted.enqueued(Node { clip: node.clip, page, gprs, breadcrumb: presses })
                } else {
                    noted
                };
                match handler_gprs(disc, composite) {
                    Some(regs) => opened.refreshed(
                        node.clip,
                        clip.pages@,
                        regs,
                        clip.pages@.len() as int,
                    ),
                    None => opened,
                }
            },
            Outcome::Nothing => self,
        }
    }

    /// The state after the first `n` buttons of a page are pressed in turn.
    pub open spec fn pressed_first(self, disc: Disc, node: Node, page: Page, n: int) -> Search
        decreases n,
    {
        if n <= 0 {
            self
        } else {
            self.pressed_first(disc, node, page, n - 1).pressed(
                disc,
                node,
                page,
                page.buttons@[n - 1],
            )
        }
    }

    /// The state after the next page is taken from the queue and visited.
    pub open spec fn visited(self, disc: Disc) -> Search {
        let node = self.queue[0];
        let rest = Search { queue: self.queue.skip(1), ..self };
        match page_of(disc.clips@[node.clip as int], node.page) {
            Some(page) => rest.pressed_first(disc, node, *page, page.buttons@.len() as int),
            None => rest,
        }
    }

    /// The state after at most `fuel` visits.
    pub open spec fn searched(self, disc: Disc, fuel: nat) -> Search
        decreases fuel,
    {
        if fuel == 0 || self.queue.len() == 0 {
            self
        } else {
            self.visited(disc).searched(disc, (fuel - 1) as nat)
        }
    }
}

/// The smallest number of the first `n` pages.
pub open spec fn smallest_id(pages: Seq<&Page>, n: int) -> u8
    decreases n,
{
    if n <= 1 {
        pages[0].page_id
    } else {
        let before = smallest_id(pages, n - 1);
        if pages[n - 1].page_id < before {
            pages[n - 1].page_id
        } else {
            before
        }
    }
}

/// The state in which the root pages of the first `n` clips are queued: of
/// each clip the page with the smallest number.
pub open spec fn rooted(disc: Disc, n: int) -> Search
    decreases n,
{
    if n <= 0 {
        Search { found: seq![], queue: seq![], seen: seq![], composites: Map::empty() }
    } else {
        let before = rooted(disc, n - 1);
        let pages = disc.clips@[n - 1].pages@;
        if pages.len() == 0 {
            before
        } else {
            before.enqueued(
                Node {
                    clip: (n - 1) as usize,
                    page: smallest_id(pages, pages.len() as int),
                    gprs: seeded(*disc.file),
                    breadcrumb: seq![],
                },
            )
        }
    }
}

/// `found` with what the first `n` buttons of an unreached page play.
pub open spec fn swept_page(
    disc: Disc,
    found: Seq<Found>,
    clip: usize,
    page: Page,
    n: int,
) -> Seq<Found>
    decreases n,
{
    if n <= 0 {
        found
    } else {
        let before = swept_page(disc, found, clip, page, n - 1);
        let gprs = seeded(*disc.file);
        let ig_pid = disc.clips@[clip as int].ig_pid;
        match outcome(disc, ig_pid, page, page.page_id, page.buttons@[n - 1], gprs) {
            Outcome::Plays { target, button_id } => added(
                before,
                Found {
                    breadcrumb: seq![
                        BreadcrumbStep { clip_index: clip, page_id: page.page_id, button_id },
                    ],
                    orphan: true,
                    target,
                },
            ),
            _ => before,
        }
    }
}

/// `found` with what the unreached ones among the first `n` pages of a clip
/// play.
pub open spec fn swept_clip(disc: Disc, s: Search, found: Seq<Found>, clip: usize, n: int) -> Seq<
    Found,
>
    decreases n,
{
    if n <= 0 {
        found
    } else {
        let before = swept_clip(disc, s, found, clip, n - 1);
        let page = disc.clips@[clip as int].pages@[n - 1];
        if reached(s.seen, clip, page.page_id) {
            before
        } else {
            swept_page(disc, before, clip, *page, page.buttons@.len() as int)
        }
    }
}

/// What a search found with what the pages of the first `n` clips play that
/// it did not reach.
pub open spec fn swept(disc: Disc, s: Search, n: int) -> Seq<Found>
    decreases n,
{
    if n <= 0 {
        s.found
    } else {
        let pages = disc.clips@[n - 1].pages@;
        swept_clip(disc, s, swept(disc, s, n - 1), (n - 1) as usize, pages.len() as int)
    }
}

/// `found` with those of the first `n` dispatch cases that a button named.
pub open spec fn dispatched(
    disc: Disc,
    composites: Map<u32, Seq<BreadcrumbStep>>,
    found: Seq<Found>,
    cases: Seq<(u32, u16)>,
    n: int,
) -> Seq<Found>
    decreases n,
{
    if n <= 0 {
        found
    } else {
        let before = dispatched(disc, composites, found, cases, n - 1);
        let (case, playlist) = cases[n - 1];
        if composites.contains_key(case) && playable(playlist as u32, disc.valid@) {
            added(
                before,
                Found {
                    breadcrumb: composites[case],
                    orphan: false,
                    target: from_start(playlist),
                },
            )
        } else {
            before
        }
    }
}

/// The state in which the search ends.
pub open spec fn search_end(disc: Disc) -> Search {
    rooted(disc, disc.clips@.len() as int).searched(disc, NAV_GRAPH_LIMIT as nat)
}

/// Everything that the menus of a disc lead to, in the order found.
pub open spec fn resolved(disc: Disc) -> Seq<Found> {
    let end = search_end(disc);
    let found = swept(disc, end, disc.clips@.len() as int);
    match disc.table {
        Some(t) => dispatched(disc, end.composites, found, t.cases@, t.cases@.len() as int),
        None => found,
    }
}

// ---------------------------------------------------------------------------
// The executable search
// ---------------------------------------------------------------------------

/// A [`Node`] in memory.
struct Visit {
    clip: usize,
    page: u8,
    gprs: HashMap<u32, u32>,
    breadcrumb: Vec<BreadcrumbStep>,
}

impl View for Visit {
    type V = Node;

    closed spec fn view(&self) -> Node {
        Node { clip: self.clip, page: self.page, gprs: self.gprs@, breadcrumb: self.breadcrumb@ }
    }
}

/// A page with register contents under which it was queued.
struct Key {
    clip: usize,
    page: u8,
    gprs: HashMap<u32, u32>,
}

impl View for Key {
    type V = (usize, u8, Map<u32, u32>);

    closed spec fn view(&self) -> (usize, u8, Map<u32, u32>) {
        (self.clip, self.page, self.gprs@)
    }
}

/// A [`Search`] in memory.
struct Progress {
    found: Vec<ResolvedPlaylist>,
    queue: VecDeque<Visit>,
    seen: Vec<Key>,
    composites: HashMap<u32, Vec<BreadcrumbStep>>,
}

/// The entries of a list of resolved playlists.
pub open spec fn entries(list: Seq<ResolvedPlaylist>) -> Seq<Found> {
    list.map_values(|r: ResolvedPlaylist| r@)
}

/// Whether every entry has a step.
spec fn has_steps(list: Seq<ResolvedPlaylist>) -> bool {
    forall|i: int| 0 <= i < list.len() ==> (#[trigger] list[i]).breadcrumb@.len() > 0
}

spec fn nodes(list: Seq<Visit>) -> Seq<Node> {
    list.map_values(|v: Visit| v@)
}

spec fn keys(list: Seq<Key>) -> Seq<(usize, u8, Map<u32, u32>)> {
    list.map_values(|k: Key| k@)
}

spec fn crumbs(map: Map<u32, Vec<BreadcrumbStep>>) -> Map<u32, Seq<BreadcrumbStep>> {
    map.map_values(|v: Vec<BreadcrumbStep>| v@)
}

impl View for Progress {
    type V = Search;

    closed spec fn view(&self) -> Search {
        Search {
            found: entries(self.found@),
            queue: nodes(self.queue@),
            seen: keys(self.seen@),
            composites: crumbs(self.composites@),
        }
    }
}

/// `breadcrumb` with one more step.
fn extended(breadcrumb: &Vec<BreadcrumbStep>, step: BreadcrumbStep) -> (longer: Vec<BreadcrumbStep>)
    ensures
        longer@ == breadcrumb@.push(step),
{
    let mut longer: Vec<BreadcrumbStep> = vstd::slice::slice_to_vec(breadcrumb.as_slice());
    longer.push(step);
    longer
}

/// Adds an entry, unless its clip is known to play its target.
fn add_found(found: &mut Vec<ResolvedPlaylist>, entry: ResolvedPlaylist)
    requires
        entry.breadcrumb@.len() > 0,
        has_steps(old(found)@),
    ensures
        entries(final(found)@) == added(entries(old(found)@), entry@),
        has_steps(final(found)@),
{
    let clip: usize = entry.breadcrumb[entry.breadcrumb.len() - 1].clip_index;
    let ghost list = entries(found@);
    let mut i: usize = 0;
    while i < found.len()
        invariant
            i <= found.len(),
            list == entries(found@),
            found@ == old(found)@,
            clip == entry.breadcrumb@.last().clip_index,
            has_steps(found@),
            forall|j: int| 0 <= j < i ==> !same_play(#[trigger] list[j], clip, entry.target),
        decreases found.len() - i,
    {
        let f: &ResolvedPlaylist = &found[i];
        assert(list[i as int] == f@);
        if f.target == entry.target && f.breadcrumb[f.breadcrumb.len() - 1].clip_index == clip {
            assert(same_play(list[i as int], clip, entry.target));
            return;
        }
        i = i + 1;
    }
    found.push(entry);
    proof {
        assert(entries(found@) =~= list.push(entry@));
    }
}

impl Progress {
    /// Every breadcrumb found or noted has a step, and every page in the queue
    /// belongs to one of `n` clips.
    spec fn wf(&self, n: nat) -> bool {
        &&& has_steps(self.found@)
        &&& forall|c: u32| #[trigger]
            self.composites@.contains_key(c) ==> self.composites@[c]@.len() > 0
        &&& forall|i: int| 0 <= i < self.queue@.len() ==> (#[trigger] self.queue@[i]).clip < n
    }

    fn new() -> (s: Progress)
        ensures
            forall|n: nat| s.wf(n),
            s@ == (Search {
                found: seq![],
                queue: seq![],
                seen: seq![],
                composites: Map::empty(),
            }),
    {
        let s: Progress = Progress {
            found: Vec::new(),
            queue: VecDeque::new(),
            seen: Vec::new(),
            composites: HashMap::new(),
        };
        proof {
            assert(s@.found =~= seq![]);
            assert(s@.queue =~= seq![]);
            assert(s@.seen =~= seq![]);
            assert(s@.composites =~= Map::empty());
        }
        s
    }

    fn is_reached(&self, clip: usize, page: u8) -> (yes: bool)
        ensures
            yes == reached(self@.seen, clip, page),
    {
        let mut i: usize = 0;
        while i < self.seen.len()
            invariant
                i <= self.seen.len(),
                forall|j: int|
                    0 <= j < i ==> !((#[trigger] self@.seen[j]).0 == clip && self@.seen[j].1
                        == page),
            decreases self.seen.len() - i,
        {
            let key: &Key = &self.seen[i];
            assert(self@.seen[i as int] == key@);
            if key.clip == clip && key.page == page {
                return true;
            }
            i = i + 1;
        }
        false
    }

    fn enqueue(&mut self, visit: Visit, Ghost(n): Ghost<nat>)
        requires
            old(self).wf(n),
            visit@.clip < n,
        ensures
            final(self).wf(n),
            final(self)@ == old(self)@.enqueued(visit@),
    {
        let ghost key = (visit@.clip, visit@.page, visit@.gprs);
        let mut i: usize = 0;
        while i < self.seen.len()
            invariant
                i <= self.seen.len(),
                *self == *old(self),
                self.wf(n),
                visit@.clip < n,
                key == (visit@.clip, visit@.page, visit@.gprs),
                forall|j: int| 0 <= j < i ==> #[trigger] self@.seen[j] != key,
            decreases self.seen.len() - i,
        {
            let k: &Key = &self.seen[i];
            assert(self@.seen[i as int] == k@);
            if k.clip == visit.clip && k.page == visit.page && same_registers(
                &k.gprs,
                &visit.gprs,
            ) {
                return;
            }
            i = i + 1;
        }
        assert(!self@.seen.contains(key));
        let k: Key = Key { clip: visit.clip, page: visit.page, gprs: visit.gprs.clone() };
        self.seen.push(k);
        self.queue.push_back(visit);
        proof {
            assert(self@.seen =~= old(self)@.seen.push(key));
            assert(self@.queue =~= old(self)@.queue.push(visit@));
        }
    }

    fn note(&mut self, composite: u32, breadcrumb: &Vec<BreadcrumbStep>, Ghost(n): Ghost<nat>)
        requires
            old(self).wf(n),
            breadcrumb@.len() > 0,
        ensures
            final(self).wf(n),
            final(self)@ == old(self)@.noted(composite, breadcrumb@),
    {
        if !self.composites.contains_key(&composite) {
            self.composites.insert(
                composite,
                vstd::slice::slice_to_vec(breadcrumb.as_slice()),
            );
            proof {
                assert(self@.composites =~= old(self)@.composites.insert(composite, breadcrumb@));
            }
        }
    }

    fn refresh(
        &mut self,
        clip: usize,
        pages: &Vec<&Page>,
        gprs: &HashMap<u32, u32>,
        Ghost(n): Ghost<nat>,
    )
        requires
            old(self).wf(n),
            clip < n,
        ensures
            final(self).wf(n),
            final(self)@ == old(self)@.refreshed(clip, pages@, gprs@, pages@.len() as int),
    {
        let mut i: usize = 0;
        while i < pages.len()
            invariant
                i <= pages.len(),
                self.wf(n),
                clip < n,
                self@ == old(self)@.refreshed(clip, pages@, gprs@, i as int),
            decreases pages.len() - i,
        {
            let page: u8 = pages[i].page_id;
            if self.is_reached(clip, page) {
                let visit: Visit = Visit { clip, page, gprs: gprs.clone(), breadcrumb: Vec::new() };
                assert(visit@.breadcrumb =~= seq![]);
                self.enqueue(visit, Ghost(n));
            }
            i = i + 1;
        }
    }

    fn press(&mut self, disc: &Disc, visit: &Visit, page: &Page, button: &Button)
        requires
            old(self).wf(disc.clips@.len()),
            visit@.clip < disc.clips@.len(),
        ensures
            final(self).wf(disc.clips@.len()),
            final(self)@ == old(self)@.pressed(*disc, visit@, *page, *button),
    {
        let clip: &NavClipInput = &disc.clips[visit.clip];
        match press_button(disc, clip.ig_pid, page, visit.page, button, &visit.gprs) {
            Press::Plays { target, button_id } => {
                let step: BreadcrumbStep = BreadcrumbStep {
                    clip_index: visit.clip,
                    page_id: visit.page,
                    button_id,
                };
                let breadcrumb: Vec<BreadcrumbStep> = extended(&visit.breadcrumb, step);
                add_found(
                    &mut self.found,
                    ResolvedPlaylist { breadcrumb, orphan: false, target },
                );
            },
            Press::Opens { composite, page: opened, gprs } => {
                let step: BreadcrumbStep = BreadcrumbStep {
                    clip_index: visit.clip,
                    page_id: visit.page,
                    button_id: button.button_id,
                };
                let breadcrumb: Vec<BreadcrumbStep> = extended(&visit.breadcrumb, step);
                self.note(composite, &breadcrumb, Ghost(disc.clips@.len()));
                if find_page(clip, opened).is_some() {
                    self.enqueue(
                        Visit { clip: visit.clip, page: opened, gprs, breadcrumb },
                        Ghost(disc.clips@.len()),
                    );
                }
                if let Some(regs) = run_handler(disc, composite) {
                    self.refresh(visit.clip, &clip.pages, &regs, Ghost(disc.clips@.len()));
                }
            },
            Press::Nothing => {},
        }
    }

    /// Queues the root page of every clip.
    fn start(disc: &Disc, gprs: &HashMap<u32, u32>) -> (s: Progress)
        requires
            gprs@ == seeded(*disc.file),
        ensures
            s.wf(disc.clips@.len()),
            s@ == rooted(*disc, disc.clips@.len() as int),
    {
        let mut s: Progress = Progress::new();
        let mut clip: usize = 0;
        while clip < disc.clips.len()
            invariant
                clip <= disc.clips.len(),
                gprs@ == seeded(*disc.file),
                s.wf(disc.clips@.len()),
                s@ == rooted(*disc, clip as int),
            decreases disc.clips.len() - clip,
        {
            let pages: &Vec<&Page> = &disc.clips[clip].pages;
            if pages.len() > 0 {
                let mut page: u8 = pages[0].page_id;
                let mut i: usize = 1;
                while i < pages.len()
                    invariant
                        1 <= i <= pages.len(),
                        page == smallest_id(pages@, i as int),
                    decreases pages.len() - i,
                {
                    if pages[i].page_id < page {
                        page = pages[i].page_id;
                    }
                    i = i + 1;
                }
                let visit: Visit = Visit { clip, page, gprs: gprs.clone(), breadcrumb: Vec::new() };
                assert(visit@.breadcrumb =~= seq![]);
                s.enqueue(visit, Ghost(disc.clips@.len()));
            }
            clip = clip + 1;
        }
        s
    }

    /// Takes the next page from the queue and visits it. Returns whether there
    /// was one.
    fn visit_next(&mut self, disc: &Disc) -> (any: bool)
        requires
            old(self).wf(disc.clips@.len()),
        ensures
            final(self).wf(disc.clips@.len()),
            any == (old(self)@.queue.len() > 0),
            any ==> final(self)@ == old(self)@.visited(*disc),
            !any ==> final(self)@ == old(self)@,
    {
        match self.queue.pop_front() {
            Some(visit) => {
                let ghost rest = self@;
                proof {
                    assert(visit@ == old(self)@.queue[0]);
                    assert(rest.queue =~= old(self)@.queue.skip(1));
                    assert(old(self).queue@[0].clip < disc.clips@.len());
                }
                if let Some(page) = find_page(&disc.clips[visit.clip], visit.page) {
                    let mut i: usize = 0;
                    while i < page.buttons.len()
                        invariant
                            i <= page.buttons.len(),
                            visit@.clip < disc.clips@.len(),
                            self.wf(disc.clips@.len()),
                            self@ == rest.pressed_first(*disc, visit@, *page, i as int),
                        decreases page.buttons.len() - i,
                    {
                        self.press(disc, &visit, page, &page.buttons[i]);
                        i = i + 1;
                    }
                }
                true
            },
            None => false,
        }
    }

    /// Runs the search to its end.
    fn search(&mut self, disc: &Disc)
        requires
            old(self).wf(disc.clips@.len()),
        ensures
            final(self).wf(disc.clips@.len()),
            final(self)@ == old(self)@.searched(*disc, NAV_GRAPH_LIMIT as nat),
    {
        let mut visits: u32 = 0;
        let mut more: bool = true;
        while more && visits < NAV_GRAPH_LIMIT
            invariant
                visits <= NAV_GRAPH_LIMIT,
                self.wf(disc.clips@.len()),
                !more ==> self@.queue.len() == 0,
                self@.searched(*disc, (NAV_GRAPH_LIMIT - visits) as nat) == old(self)@.searched(
                    *disc,
                    NAV_GRAPH_LIMIT as nat,
                ),
            decreases NAV_GRAPH_LIMIT - visits,
        {
            more = self.visit_next(disc);
            visits = visits + 1;
        }
    }

    /// Adds what unreached pages play.
    fn sweep(&mut self, disc: &Disc, gprs: &HashMap<u32, u32>)
        requires
            old(self).wf(disc.clips@.len()),
            gprs@ == seeded(*disc.file),
        ensures
            final(self).wf(disc.clips@.len()),
            final(self)@ == (Search {
                found: swept(*disc, old(self)@, disc.clips@.len() as int),
                ..old(self)@
            }),
    {
        let mut clip: usize = 0;
        while clip < disc.clips.len()
            invariant
                clip <= disc.clips.len(),
                gprs@ == seeded(*disc.file),
                self.wf(disc.clips@.len()),
                self@ == (Search { found: swept(*disc, old(self)@, clip as int), ..old(self)@ }),
            decreases disc.clips.len() - clip,
        {
            let ghost before = self@.found;
            let ig_pid: u16 = disc.clips[clip].ig_pid;
            let pages: &Vec<&Page> = &disc.clips[clip].pages;
            let mut p: usize = 0;
            while p < pages.len()
                invariant
                    p <= pages.len(),
                    clip < disc.clips.len(),
                    ig_pid == disc.clips@[clip as int].ig_pid,
                    pages@ == disc.clips@[clip as int].pages@,
                    gprs@ == seeded(*disc.file),
                    self.wf(disc.clips@.len()),
                    self@ == (Search {
                        found: swept_clip(*disc, old(self)@, before, clip, p as int),
                        ..old(self)@
                    }),
                decreases pages.len() - p,
            {
                let page: &Page = pages[p];
                let ghost swept_before = self@.found;
                if !self.is_reached(clip, page.page_id) {
                    let mut b: usize = 0;
                    while b < page.buttons.len()
                        invariant
                            b <= page.buttons.len(),
                            clip < disc.clips.len(),
                            ig_pid == disc.clips@[clip as int].ig_pid,
                            gprs@ == seeded(*disc.file),
                            self.wf(disc.clips@.len()),
                            self@ == (Search {
                                found: swept_page(*disc, swept_before, clip, *page, b as int),
                                ..old(self)@
                            }),
                        decreases page.buttons.len() - b,
                    {
                        let button: &Button = &page.buttons[b];
                        if let Press::Plays { target, button_id } = press_button(
                            disc,
                            ig_pid,
                            page,
                            page.page_id,
                            button,
                            gprs,
                        ) {
                            let step: BreadcrumbStep = BreadcrumbStep {
                                clip_index: clip,
                                page_id: page.page_id,
                                button_id,
                            };
                            let mut breadcrumb: Vec<BreadcrumbStep> = Vec::new();
                            breadcrumb.push(step);
                            assert(breadcrumb@ =~= seq![step]);
                            add_found(
                                &mut self.found,
                                ResolvedPlaylist { breadcrumb, orphan: true, target },
                            );
                        }
                        b = b + 1;
                    }
                }
                p = p + 1;
            }
            clip = clip + 1;
        }
    }

    /// Adds the dispatch cases that a button named.
    fn dispatch(&mut self, disc: &Disc, table: &DispatchTable)
        requires
            old(self).wf(disc.clips@.len()),
        ensures
            has_steps(final(self).found@),
            entries(final(self).found@) == dispatched(
                *disc,
                old(self)@.composites,
                old(self)@.found,
                table.cases@,
                table.cases@.len() as int,
            ),
    {
        let mut i: usize = 0;
        while i < table.cases.len()
            invariant
                i <= table.cases.len(),
                self.wf(disc.clips@.len()),
                self@.composites == old(self)@.composites,
                self@.found == dispatched(
                    *disc,
                    old(self)@.composites,
                    old(self)@.found,
                    table.cases@,
                    i as int,
                ),
            decreases table.cases.len() - i,
        {
            let (case, playlist) = table.cases[i];
            if is_playable(playlist as u32, disc.valid) {
                if let Some(crumb) = self.composites.get(&case) {
                    let breadcrumb: Vec<BreadcrumbStep> = vstd::slice::slice_to_vec(
                        crumb.as_slice(),
                    );
                    assert(self@.composites[case] == breadcrumb@);
                    add_found(
                        &mut self.found,
                        ResolvedPlaylist {
                            breadcrumb,
                            orphan: false,
                            target: PlayTarget { playlist, branch_opt: 0, mark_or_pi: 0 },
                        },
                    );
                }
            }
            i = i + 1;
        }
    }
}

/// Finds the playlists that the menus of a disc lead to.
///
/// A button that plays a playlist directly is left out: its own command says
/// what it plays. Of several ways by which a clip plays the same target the
/// first one found is kept.
#[must_use]
pub fn resolve_via_execution(
    clips: &[NavClipInput<'_>],
    mobj_file: &MovieObjectFile,
    dispatch_table: Option<&DispatchTable>,
    valid_playlists: &HashSet<u32>,
) -> (list: Vec<ResolvedPlaylist>)
    ensures
        entries(list@) == resolved(
            Disc { clips, file: mobj_file, table: dispatch_table, valid: valid_playlists },
        ),
{
    let disc: Disc = Disc {
        clips,
        file: mobj_file,
        table: dispatch_table,
        valid: valid_playlists,
    };
    let gprs: HashMap<u32, u32> = seed_gpr_state(mobj_file);
    let mut progress: Progress = Progress::start(&disc, &gprs);
    progress.search(&disc);
    progress.sweep(&disc, &gprs);
    if let Some(table) = dispatch_table {
        progress.dispatch(&disc, table);
    }
    progress.found
}

} // verus!
