//! What each menu button plays when every page is taken as a starting point.
//!
//! Where [`super::resolve`] tells how a playlist is reached from the root
//! pages, this search only maps buttons to playlists. It is breadth first over
//! pages paired with register contents.
use std::collections::{HashMap, HashSet, VecDeque};

use vstd::prelude::*;

use super::press::{
    case_playlist, find_page, from_start, handler_gprs, lookup_case, outcome, page_of,
    press_button, run_handler, Disc, Outcome, Press,
};
use super::resolve::NAV_GRAPH_LIMIT;
use super::vm::{same_registers, seed_gpr_state, seeded};
use super::{DispatchTable, MovieObjectFile, NavClipInput, PlayTarget, ResolvedButton};
use crate::nav::{Button, Page};

pub mod laws;

verus! {

broadcast use vstd::std_specs::hash::group_hash_axioms;

/// A page to be visited: clip, page number and general purpose registers.
pub type Stop = (usize, u8, Map<u32, u32>);

/// State of a search.
#[verifier::ext_equal]
pub struct Tour {
    /// Buttons that play something, in the order found.
    pub found: Seq<ResolvedButton>,
    /// Pages still to be visited, in order.
    pub queue: Seq<Stop>,
    /// Pages that were queued.
    pub seen: Seq<Stop>,
}

/// Whether an entry is of the given button and playlist.
pub open spec fn same_pair(r: ResolvedButton, button_id: u16, playlist: u16) -> bool {
    r.button_id == button_id && r.target.playlist == playlist
}

/// Whether the button is known to play the playlist.
pub open spec fn pair_known(found: Seq<ResolvedButton>, button_id: u16, playlist: u16) -> bool {
    exists|i: int| 0 <= i < found.len() && same_pair(#[trigger] found[i], button_id, playlist)
}

/// `found` with an entry added, unless the button is known to play the
/// playlist.
pub open spec fn with_pair(found: Seq<ResolvedButton>, r: ResolvedButton) -> Seq<ResolvedButton> {
    if pair_known(found, r.button_id, r.target.playlist) {
        found
    } else {
        found.push(r)
    }
}

impl Tour {
    /// The state after a page is queued, unless it was before with the same
    /// register contents.
    pub open spec fn enqueued(self, stop: Stop) -> Tour {
        if self.seen.contains(stop) {
            self
        } else {
            Tour { queue: self.queue.push(stop), seen: self.seen.push(stop), ..self }
        }
    }

    /// The state after the first `n` pages of a clip are queued with new
    /// register contents.
    pub open spec fn refreshed(
        self,
        clip: usize,
        pages: Seq<&Page>,
        gprs: Map<u32, u32>,
        n: int,
    ) -> Tour
        decreases n,
    {
        if n <= 0 {
            self
        } else {
            self.refreshed(clip, pages, gprs, n - 1).enqueued((clip, pages[n - 1].page_id, gprs))
        }
    }

    /// The state after a button of a page is pressed. A button that opens a
    /// page plays the dispatch case of its operand, if there is one. All pages
    /// of the clip are queued with the registers that the handler of the case
    /// sets, and then the page that the button opens.
    pub open spec fn pressed(self, disc: Disc, stop: Stop, page: Page, button: Button) -> Tour {
        let clip = disc.clips@[stop.0 as int];
        match outcome(disc, clip.ig_pid, page, stop.1, button, stop.2) {
            Outcome::Plays { target, button_id } => Tour {
                found: with_pair(
                    self.found,
                    ResolvedButton { button_id: button.button_id, target },
                ),
                ..self
            },
            Outcome::Opens { composite, page, gprs } => {
                let played = match case_playlist(disc.table, composite) {
                    Some(playlist) => Tour {
                        found: with_pair(
                            self.found,
                            ResolvedButton {
                                button_id: button.button_id,
                                target: from_start(playlist),
                            },
                        ),
                        ..self
                    },
                    None => self,
                };
                let handled = match handler_gprs(disc, composite) {
                    Some(regs) => played.refreshed(
                        stop.0,
                        clip.pages@,
                        regs,
                        clip.pages@.len() as int,
                    ),
                    None => played,
                };
                if page_of(clip, page) is Some {
                    handled.enqueued((stop.0, page, gprs))
                } else {
                    handled
                }
            },
            Outcome::Nothing => self,
        }
    }

    /// The state after the first `n` buttons of a page are pressed in turn.
    pub open spec fn pressed_first(self, disc: Disc, stop: Stop, page: Page, n: int) -> Tour
        decreases n,
    {
        if n <= 0 {
            self
        } else {
            self.pressed_first(disc, stop, page, n - 1).pressed(
                disc,
                stop,
                page,
                page.buttons@[n - 1],
            )
        }
    }

    /// The state after the next page is taken from the queue and visited.
    pub open spec fn visited(self, disc: Disc) -> Tour {
        let stop = self.queue[0];
        let rest = Tour { queue: self.queue.skip(1), ..self };
        match page_of(disc.clips@[stop.0 as int], stop.1) {
            Some(page) => rest.pressed_first(disc, stop, *page, page.buttons@.len() as int),
            None => rest,
        }
    }

    /// The state after at most `fuel` visits.
    pub open spec fn toured(self, disc: Disc, fuel: nat) -> Tour
        decreases fuel,
    {
        if fuel == 0 || self.queue.len() == 0 {
            self
        } else {
            self.visited(disc).toured(disc, (fuel - 1) as nat)
        }
    }
}

/// The pages of the first `n` clips, all with the same register contents.
pub open spec fn all_stops(disc: Disc, gprs: Map<u32, u32>, n: int) -> Seq<Stop>
    decreases n,
{
    if n <= 0 {
        seq![]
    } else {
        all_stops(disc, gprs, n - 1) + disc.clips@[n - 1].pages@.map_values(
            |p: &Page| ((n - 1) as usize, p.page_id, gprs),
        )
    }
}

/// The state in which all pages are queued.
pub open spec fn tour_start(disc: Disc) -> Tour {
    let stops = all_stops(disc, seeded(*disc.file), disc.clips@.len() as int);
    Tour { found: seq![], queue: stops, seen: stops }
}

/// What the buttons of a disc's menus play, in the order found.
pub open spec fn buttons_mapped(disc: Disc) -> Seq<ResolvedButton> {
    tour_start(disc).toured(disc, NAV_GRAPH_LIMIT as nat).found
}

// ---------------------------------------------------------------------------
// The executable search
// ---------------------------------------------------------------------------

/// A [`Stop`] in memory.
struct Visit {
    clip: usize,
    page: u8,
    gprs: HashMap<u32, u32>,
}

impl View for Visit {
    type V = Stop;

    closed spec fn view(&self) -> Stop {
        (self.clip, self.page, self.gprs@)
    }
}

impl Visit {
    fn copy(&self) -> (same: Visit)
        ensures
            same@ == self@,
    {
        Visit { clip: self.clip, page: self.page, gprs: self.gprs.clone() }
    }
}

/// A [`Tour`] in memory.
struct Progress {
    found: Vec<ResolvedButton>,
    queue: VecDeque<Visit>,
    seen: Vec<Visit>,
}

spec fn stops(list: Seq<Visit>) -> Seq<Stop> {
    list.map_values(|v: Visit| v@)
}

impl View for Progress {
    type V = Tour;

    closed spec fn view(&self) -> Tour {
        Tour { found: self.found@, queue: stops(self.queue@), seen: stops(self.seen@) }
    }
}

impl Progress {
    /// Every page in the queue belongs to one of `n` clips.
    spec fn wf(&self, n: nat) -> bool {
        forall|i: int| 0 <= i < self.queue@.len() ==> (#[trigger] self.queue@[i]).clip < n
    }

    fn add_pair(&mut self, r: ResolvedButton)
        ensures
            final(self)@ == (Tour { found: with_pair(old(self)@.found, r), ..old(self)@ }),
            final(self).queue@ == old(self).queue@,
    {
        let mut i: usize = 0;
        while i < self.found.len()
            invariant
                i <= self.found.len(),
                *self == *old(self),
                forall|j: int|
                    0 <= j < i ==> !same_pair(
                        #[trigger] self.found@[j],
                        r.button_id,
                        r.target.playlist,
                    ),
            decreases self.found.len() - i,
        {
            let f: ResolvedButton = self.found[i];
            if f.button_id == r.button_id && f.target.playlist == r.target.playlist {
                assert(same_pair(self.found@[i as int], r.button_id, r.target.playlist));
                return;
            }
            i = i + 1;
        }
        self.found.push(r);
    }

    fn enqueue(&mut self, visit: Visit, Ghost(n): Ghost<nat>)
        requires
            old(self).wf(n),
            visit@.0 < n,
        ensures
            final(self).wf(n),
            final(self)@ == old(self)@.enqueued(visit@),
    {
        let mut i: usize = 0;
        while i < self.seen.len()
            invariant
                i <= self.seen.len(),
                *self == *old(self),
                self.wf(n),
                visit@.0 < n,
                forall|j: int| 0 <= j < i ==> #[trigger] self@.seen[j] != visit@,
            decreases self.seen.len() - i,
        {
            let k: &Visit = &self.seen[i];
            assert(self@.seen[i as int] == k@);
            if k.clip == visit.clip && k.page == visit.page && same_registers(
                &k.gprs,
                &visit.gprs,
            ) {
                return;
            }
            i = i + 1;
        }
        assert(!self@.seen.contains(visit@));
        self.seen.push(visit.copy());
        self.queue.push_back(visit);
        proof {
            assert(self@.seen =~= old(self)@.seen.push(visit@));
            assert(self@.queue =~= old(self)@.queue.push(visit@));
        }
    }

    fn refresh(
        &mut self,
        clip: usize,
        pages: &Vec<&Page>,
        gprs: &HashMap<u32, u32>,
        Ghost(n): Ghost<nat>,
    )
        requires
            old(self).wf(n),
            clip < n,
        ensures
            final(self).wf(n),
            final(self)@ == old(self)@.refreshed(clip, pages@, gprs@, pages@.len() as int),
    {
        let mut i: usize = 0;
        while i < pages.len()
            invariant
                i <= pages.len(),
                self.wf(n),
                clip < n,
                self@ == old(self)@.refreshed(clip, pages@, gprs@, i as int),
            decreases pages.len() - i,
        {
            let visit: Visit = Visit { clip, page: pages[i].page_id, gprs: gprs.clone() };
            self.enqueue(visit, Ghost(n));
            i = i + 1;
        }
    }

    fn press(&mut self, disc: &Disc, visit: &Visit, page: &Page, button: &Button)
        requires
            old(self).wf(disc.clips@.len()),
            visit@.0 < disc.clips@.len(),
        ensures
            final(self).wf(disc.clips@.len()),
            final(self)@ == old(self)@.pressed(*disc, visit@, *page, *button),
    {
        let clip: &NavClipInput = &disc.clips[visit.clip];
        match press_button(disc, clip.ig_pid, page, visit.page, button, &visit.gprs) {
            Press::Plays { target, .. } => {
                self.add_pair(ResolvedButton { button_id: button.button_id, target });
            },
            Press::Opens { composite, page: opened, gprs } => {
                if let Some(playlist) = lookup_case(disc.table, composite) {
                    self.add_pair(
                        ResolvedButton {
                            button_id: button.button_id,
                            target: PlayTarget { playlist, branch_opt: 0, mark_or_pi: 0 },
                        },
                    );
                }
                if let Some(regs) = run_handler(disc, composite) {
                    self.refresh(visit.clip, &clip.pages, &regs, Ghost(disc.clips@.len()));
                }
                if find_page(clip, opened).is_some() {
                    self.enqueue(
                        Visit { clip: visit.clip, page: opened, gprs },
                        Ghost(disc.clips@.len()),
                    );
                }
            },
            Press::Nothing => {},
        }
    }

    /// Queues every page.
    fn start(disc: &Disc, gprs: &HashMap<u32, u32>) -> (s: Progress)
        requires
            gprs@ == seeded(*disc.file),
        ensures
            s.wf(disc.clips@.len()),
            s@ == tour_start(*disc),
    {
        let mut s: Progress = Progress {
            found: Vec::new(),
            queue: VecDeque::new(),
            seen: Vec::new(),
        };
        let mut clip: usize = 0;
        while clip < disc.clips.len()
            invariant
                clip <= disc.clips.len(),
                gprs@ == seeded(*disc.file),
                s.wf(disc.clips@.len()),
                s@.found == Seq::<ResolvedButton>::empty(),
                s@.queue == all_stops(*disc, gprs@, clip as int),
                s@.seen == s@.queue,
            decreases disc.clips.len() - clip,
        {
            let pages: &Vec<&Page> = &disc.clips[clip].pages;
            let ghost before = s@.queue;
            let ghost here = pages@.map_values(|p: &Page| (clip, p.page_id, gprs@));
            let mut i: usize = 0;
            while i < pages.len()
                invariant
                    i <= pages.len(),
                    clip < disc.clips.len(),
                    s.wf(disc.clips@.len()),
                    here == pages@.map_values(|p: &Page| (clip, p.page_id, gprs@)),
                    s@.found == Seq::<ResolvedButton>::empty(),
                    s@.queue == before + here.take(i as int),
                    s@.seen == s@.queue,
                decreases pages.len() - i,
            {
                let visit: Visit = Visit { clip, page: pages[i].page_id, gprs: gprs.clone() };
                let ghost queue = s@.queue;
                let ghost seen = s@.seen;
                s.seen.push(visit.copy());
                s.queue.push_back(visit);
                proof {
                    assert(s@.queue =~= queue.push(visit@));
                    assert(s@.seen =~= seen.push(visit@));
                    assert(here.take(i + 1) =~= here.take(i as int).push(here[i as int]));
                }
                i = i + 1;
            }
            proof {
                assert(here.take(i as int) =~= here);
                assert(here =~= disc.clips@[clip as int].pages@.map_values(
                    |p: &Page| ((clip + 1 - 1) as usize, p.page_id, gprs@),
                ));
            }
            clip = clip + 1;
        }
        s
    }

    /// Takes the next page from the queue and visits it. Returns whether there
    /// was one.
    fn visit_next(&mut self, disc: &Disc) -> (any: bool)
        requires
            old(self).wf(disc.clips@.len()),
        ensures
            final(self).wf(disc.clips@.len()),
            any == (old(self)@.queue.len() > 0),
            any ==> final(self)@ == old(self)@.visited(*disc),
            !any ==> final(self)@ == old(self)@,
    {
        match self.queue.pop_front() {
            Some(visit) => {
                let ghost rest = self@;
                proof {
                    assert(visit@ == old(self)@.queue[0]);
                    assert(rest.queue =~= old(self)@.queue.skip(1));
                    assert(old(self).queue@[0].clip < disc.clips@.len());
                }
                if let Some(page) = find_page(&disc.clips[visit.clip], visit.page) {
                    let mut i: usize = 0;
                    while i < page.buttons.len()
                        invariant
                            i <= page.buttons.len(),
                            visit@.0 < disc.clips@.len(),
                            self.wf(disc.clips@.len()),
                            self@ == rest.pressed_first(*disc, visit@, *page, i as int),
                        decreases page.buttons.len() - i,
                    {
                        self.press(disc, &visit, page, &page.buttons[i]);
                        i = i + 1;
                    }
                }
                true
            },
            None => false,
        }
    }
}

/// Maps the buttons of a disc's menus to the playlists that they play, each
/// pair of button number and playlist once.
///
/// A button that plays a playlist directly is left out: its own command says
/// what it plays.
#[must_use]
pub fn resolve_via_execution(
    clips: &[NavClipInput<'_>],
    mobj_file: &MovieObjectFile,
    dispatch_table: Option<&DispatchTable>,
    valid_playlists: &HashSet<u32>,
) -> (list: Vec<ResolvedButton>)
    ensures
        list@ == buttons_mapped(
            Disc { clips, file: mobj_file, table: dispatch_table, valid: valid_playlists },
        ),
{
    let disc: Disc = Disc {
        clips,
        file: mobj_file,
        table: dispatch_table,
        valid: valid_playlists,
    };
    let gprs: HashMap<u32, u32> = seed_gpr_state(mobj_file);
    let mut progress: Progress = Progress::start(&disc, &gprs);
    let mut visits: u32 = 0;
    let mut more: bool = true;
    while more && visits < NAV_GRAPH_LIMIT
        invariant
            visits <= NAV_GRAPH_LIMIT,
            progress.wf(disc.clips@.len()),
            !more ==> progress@.queue.len() == 0,
            progress@.toured(disc, (NAV_GRAPH_LIMIT - visits) as nat) == tour_start(disc).toured(
                disc,
                NAV_GRAPH_LIMIT as nat,
            ),
        decreases NAV_GRAPH_LIMIT - visits,
    {
        more = progress.visit_next(&disc);
        visits = visits + 1;
    }
    progress.found
}

// ---------------------------------------------------------------------------
// Laws
// ---------------------------------------------------------------------------

spec fn pairs_distinct(found: Seq<ResolvedButton>) -> bool {
    forall|i: int, j: int|
        0 <= i < j < found.len() ==> !same_pair(
            #[trigger] found[j],
            (#[trigger] found[i]).button_id,
            found[i].target.playlist,
        )
}

proof fn lemma_with_pair(found: Seq<ResolvedButton>, r: ResolvedButton)
    requires
        pairs_distinct(found),
    ensures
        pairs_distinct(with_pair(found, r)),
{
    if !pair_known(found, r.button_id, r.target.playlist) {
        let now = found.push(r);
        assert forall|i: int, j: int| 0 <= i < j < now.len() implies !same_pair(
            #[trigger] now[j],
            (#[trigger] now[i]).button_id,
            now[i].target.playlist,
        ) by {
            if j == found.len() {
                assert(!same_pair(found[i], r.button_id, r.target.playlist));
            }
        }
    }
}

proof fn lemma_refreshed_found(t: Tour, clip: usize, pages: Seq<&Page>, gprs: Map<u32, u32>, n: int)
    ensures
        t.refreshed(clip, pages, gprs, n).found == t.found,
    decreases n,
{
    if n > 0 {
        lemma_refreshed_found(t, clip, pages, gprs, n - 1);
    }
}

proof fn lemma_pressed_distinct(t: Tour, disc: Disc, stop: Stop, page: Page, button: Button)
    requires
        pairs_distinct(t.found),
    ensures
        pairs_distinct(t.pressed(disc, stop, page, button).found),
{
    let clip = disc.clips@[stop.0 as int];
    match outcome(disc, clip.ig_pid, page, stop.1, button, stop.2) {
        Outcome::Plays { target, button_id } => {
            lemma_with_pair(t.found, ResolvedButton { button_id: button.button_id, target });
        },
        Outcome::Opens { composite, page: p, gprs } => {
            let played = match case_playlist(disc.table, composite) {
                Some(playlist) => {
                    let r = ResolvedButton {
                        button_id: button.button_id,
                        target: from_start(playlist),
                    };
                    lemma_with_pair(t.found, r);
                    Tour { found: with_pair(t.found, r), ..t }
                },
                None => t,
            };
            if let Some(regs) = handler_gprs(disc, composite) {
                lemma_refreshed_found(
                    played,
                    stop.0,
                    clip.pages@,
                    regs,
                    clip.pages@.len() as int,
                );
            }
        },
        Outcome::Nothing => {},
    }
}

proof fn lemma_pressed_first_distinct(t: Tour, disc: Disc, stop: Stop, page: Page, n: int)
    requires
        pairs_distinct(t.found),
    ensures
        pairs_distinct(t.pressed_first(disc, stop, page, n).found),
    decreases n,
{
    if n > 0 {
        lemma_pressed_first_distinct(t, disc, stop, page, n - 1);
        lemma_pressed_distinct(
            t.pressed_first(disc, stop, page, n - 1),
            disc,
            stop,
            page,
            page.buttons@[n - 1],
        );
    }
}

proof fn lemma_toured_distinct(t: Tour, disc: Disc, fuel: nat)
    requires
        pairs_distinct(t.found),
    ensures
        pairs_distinct(t.toured(disc, fuel).found),
    decreases fuel,
{
    if fuel > 0 && t.queue.len() > 0 {
        let stop = t.queue[0];
        let rest = Tour { queue: t.queue.skip(1), ..t };
        if let Some(page) = page_of(disc.clips@[stop.0 as int], stop.1) {
            lemma_pressed_first_distinct(rest, disc, stop, *page, page.buttons@.len() as int);
        }
        lemma_toured_distinct(t.visited(disc), disc, (fuel - 1) as nat);
    }
}

/// No button is listed twice with one playlist.
pub proof fn law_pairs_listed_once(disc: Disc)
    ensures
        forall|i: int, j: int|
            0 <= i < j < buttons_mapped(disc).len() ==> !same_pair(
                #[trigger] buttons_mapped(disc)[j],
                (#[trigger] buttons_mapped(disc)[i]).button_id,
                buttons_mapped(disc)[i].target.playlist,
            ),
{
    lemma_toured_distinct(tour_start(disc), disc, NAV_GRAPH_LIMIT as nat);
}

} // verus!
