//! The content of a disc: what its menus offer, and what they leave out.
use vstd::prelude::*;
use vstd::string::*;

use crate::analysis::{
    partials_of, unreferenced_of, AnalyzedPlaylist, PartiallyUsedClip, StreamSummary, SummaryModel,
    UnreferencedClip,
};
use crate::disc::BdmvAnalysis;
use crate::mobj::BreadcrumbStep;
use crate::report::number_is;
use crate::seqs::{
    first_where, law_sorting_orders_keys, lemma_first_where_found, lemma_first_where_is,
    lemma_first_where_none, lemma_sorted_mapped, lemma_sorted_members, mapped, stable_sort,
    stable_sorted,
};

pub mod laws;

verus! {

broadcast use vstd::std_specs::hash::group_hash_axioms;

// ---------------------------------------------------------------------------
// Types
// ---------------------------------------------------------------------------

/// A button of a menu and what it plays.
#[derive(Debug, Clone)]
pub struct MenuButton {
    /// Playlist number.
    pub playlist: u16,
    /// Where playback starts: 0 at the start, 1 at a mark, 2 at a play item.
    pub branch_opt: u8,
    /// Mark or play item at which playback starts.
    pub mark_or_pi: u32,
    /// Index of the menu clip.
    pub clip_index: usize,
    /// Page on which the button lies.
    pub page_id: u8,
    /// Button identifier.
    pub button_id: u16,
    /// Button presses from the root menu; empty for a button that plays
    /// directly.
    pub breadcrumb: Vec<BreadcrumbStep>,
    /// The button lies on a page that no root menu leads to.
    pub orphan: bool,
}

/// The content of a disc.
#[derive(Debug, Clone)]
pub struct ContentInventory {
    /// What the menus lead to.
    pub navigable: Vec<NavigableContent>,
    /// What plays before the menu.
    pub auto_play: Vec<AutoPlayContent>,
    /// Clips that no playlist refers to.
    pub orphaned: Vec<UnreferencedClip>,
    /// Clips of which only a part is used.
    pub partially_used: Vec<PartiallyUsedClip>,
}

/// A playlist that a menu leads to. Lengths are in ticks of the playlist
/// clock.
#[derive(Debug, Clone)]
pub struct NavigableContent {
    /// Playlist number.
    pub playlist: u16,
    /// Where playback starts: 0 at the start, 1 at a mark, 2 at a play item.
    pub branch_opt: u8,
    /// Mark or play item at which playback starts.
    pub mark_or_pi: u32,
    /// Total length.
    pub duration: u64,
    /// Streams of the playlist.
    pub streams: StreamSummary,
    /// Number of chapter marks.
    pub chapters: u32,
    /// Where in the menus it is.
    pub snapshot: SnapshotMeta,
}

/// The place of a button in the menus.
#[derive(Debug, Clone)]
pub struct SnapshotMeta {
    /// Index of the menu clip.
    pub clip_index: usize,
    /// Page on which the button lies.
    pub page_id: u8,
    /// Button identifier.
    pub button_id: u16,
    /// Button presses that lead to the content, never empty.
    pub breadcrumb: Vec<BreadcrumbStep>,
    /// The button lies on a page that no root menu leads to.
    pub orphan: bool,
}

/// A playlist that plays before the menu. Its length is in ticks of the
/// playlist clock.
#[derive(Debug, Clone)]
pub struct AutoPlayContent {
    /// Playlist number.
    pub playlist: u16,
    /// Total length.
    pub duration: u64,
    /// Place in the order of play, from 1.
    pub order: u32,
}

/// Contents of a [`MenuButton`].
#[verifier::ext_equal]
pub struct ButtonModel {
    /// Playlist number.
    pub playlist: u16,
    /// Where playback starts.
    pub branch_opt: u8,
    /// Mark or play item at which playback starts.
    pub mark_or_pi: u32,
    /// Place of the button.
    pub place: BreadcrumbStep,
    /// Button presses from the root menu.
    pub breadcrumb: Seq<BreadcrumbStep>,
    /// The button lies on a page that no root menu leads to.
    pub orphan: bool,
}

/// Contents of a [`NavigableContent`].
#[verifier::ext_equal]
pub struct NavigableModel {
    /// Playlist number.
    pub playlist: u16,
    /// Where playback starts.
    pub branch_opt: u8,
    /// Mark or play item at which playback starts.
    pub mark_or_pi: u32,
    /// Total length.
    pub duration: u64,
    /// Streams of the playlist.
    pub streams: SummaryModel,
    /// Number of chapter marks.
    pub chapters: u32,
    /// Place of the button.
    pub place: BreadcrumbStep,
    /// Button presses that lead to the content.
    pub breadcrumb: Seq<BreadcrumbStep>,
    /// The button lies on a page that no root menu leads to.
    pub orphan: bool,
}

impl View for MenuButton {
    type V = ButtonModel;

    open spec fn view(&self) -> ButtonModel {
        ButtonModel {
            playlist: self.playlist,
            branch_opt: self.branch_opt,
            mark_or_pi: self.mark_or_pi,
            place: BreadcrumbStep {
                clip_index: self.clip_index,
                page_id: self.page_id,
                button_id: self.button_id,
            },
            breadcrumb: self.breadcrumb@,
            orphan: self.orphan,
        }
    }
}

impl View for NavigableContent {
    type V = NavigableModel;

    open spec fn view(&self) -> NavigableModel {
        NavigableModel {
            playlist: self.playlist,
            branch_opt: self.branch_opt,
            mark_or_pi: self.mark_or_pi,
            duration: self.duration,
            streams: self.streams@,
            chapters: self.chapters,
            place: BreadcrumbStep {
                clip_index: self.snapshot.clip_index,
                page_id: self.snapshot.page_id,
                button_id: self.snapshot.button_id,
            },
            breadcrumb: self.snapshot.breadcrumb@,
            orphan: self.snapshot.orphan,
        }
    }
}

/// Contents of buttons.
pub open spec fn buttons_of(list: Seq<MenuButton>) -> Seq<ButtonModel> {
    list.map_values(|b: MenuButton| b@)
}

/// Contents of navigable playlists.
pub open spec fn navigable_of(list: Seq<NavigableContent>) -> Seq<NavigableModel> {
    list.map_values(|c: NavigableContent| c@)
}

// ---------------------------------------------------------------------------
// What the inventory lists
// ---------------------------------------------------------------------------

/// Whether an analysis has a playlist.
pub open spec fn known(a: BdmvAnalysis, number: u32) -> bool {
    exists|i: int| 0 <= i < a.playlists@.len() && (#[trigger] a.playlists@[i]).number == number
}

/// Whether a playlist contains others.
pub open spec fn composite(a: BdmvAnalysis, number: u32) -> bool {
    exists|i: int|
        0 <= i < a.playlists@.len() && (#[trigger] a.playlists@[i]).number == number
            && a.playlists@[i].members@.len() > 0
}

/// Whether the title table registers a playlist, or is unknown.
pub open spec fn registered(a: BdmvAnalysis, number: u32) -> bool {
    a.title_playlists@.is_empty() || a.title_playlists@.contains(number)
}

/// Whether the content of a button is listed.
pub open spec fn listed(a: BdmvAnalysis, b: ButtonModel) -> bool {
    let number = b.playlist as u32;
    known(a, number) && !composite(a, number) && registered(a, number)
}

/// Those of the first `n` buttons whose content is listed.
pub open spec fn candidates(a: BdmvAnalysis, buttons: Seq<ButtonModel>, n: int) -> Seq<ButtonModel>
    decreases n,
{
    if n <= 0 {
        seq![]
    } else if listed(a, buttons[n - 1]) {
        candidates(a, buttons, n - 1).push(buttons[n - 1])
    } else {
        candidates(a, buttons, n - 1)
    }
}

/// Where the button lies that plays the content: the last button press, or
/// the button itself.
pub open spec fn content_place(b: ButtonModel) -> BreadcrumbStep {
    if b.breadcrumb.len() == 0 {
        b.place
    } else {
        b.breadcrumb.last()
    }
}

/// Whether two buttons' content lies on one page.
pub open spec fn same_page(b: ButtonModel, c: ButtonModel) -> bool {
    content_place(b).clip_index == content_place(c).clip_index && content_place(b).page_id
        == content_place(c).page_id
}

/// The number of buttons whose content lies on the page of `b`'s.
pub open spec fn siblings(list: Seq<ButtonModel>, b: ButtonModel) -> nat
    decreases list.len(),
{
    if list.len() == 0 {
        0
    } else {
        siblings(list.drop_last(), b) + if same_page(list.last(), b) {
            1nat
        } else {
            0nat
        }
    }
}

/// The rank of a button, the best being 0: buttons with button presses from
/// the root menu come before those without, then those with more siblings
/// before those with fewer.
pub open spec fn rank(list: Seq<ButtonModel>, b: ButtonModel) -> u128 {
    ((if b.breadcrumb.len() == 0 {
        0x1_0000_0000_0000_0000int
    } else {
        0
    }) + (u64::MAX - siblings(list, b))) as u128
}

/// Buttons with their ranks.
pub open spec fn with_ranks(list: Seq<ButtonModel>) -> Seq<(u128, ButtonModel)> {
    list.map_values(|b: ButtonModel| (rank(list, b), b))
}

/// Buttons in the order of their ranks; those of one rank keep their order.
pub open spec fn ranked(list: Seq<ButtonModel>) -> Seq<(u128, ButtonModel)> {
    stable_sorted(with_ranks(list))
}

/// Whether two buttons play the same.
pub open spec fn same_target(b: ButtonModel, c: ButtonModel) -> bool {
    b.playlist == c.playlist && b.branch_opt == c.branch_opt && b.mark_or_pi == c.mark_or_pi
}

/// Whether a button plays the same as one before it.
pub open spec fn repeated(list: Seq<(u128, ButtonModel)>, k: int) -> bool {
    exists|j: int| 0 <= j < k && same_target((#[trigger] list[j]).1, list[k].1)
}

/// The first button of each target among the first `n`.
pub open spec fn firsts(list: Seq<(u128, ButtonModel)>, n: int) -> Seq<ButtonModel>
    decreases n,
{
    if n <= 0 {
        seq![]
    } else if repeated(list, n - 1) {
        firsts(list, n - 1)
    } else {
        firsts(list, n - 1).push(list[n - 1].1)
    }
}

/// The entry of a button.
pub open spec fn entry(a: BdmvAnalysis, b: ButtonModel) -> Option<NavigableModel> {
    match first_where(a.playlists@, number_is(b.playlist as u32)) {
        Some(p) => Some(
            NavigableModel {
                playlist: b.playlist,
                branch_opt: b.branch_opt,
                mark_or_pi: b.mark_or_pi,
                duration: p.duration,
                streams: p.streams@,
                chapters: p.chapters,
                place: content_place(b),
                breadcrumb: if b.breadcrumb.len() == 0 {
                    seq![b.place]
                } else {
                    b.breadcrumb
                },
                orphan: b.orphan,
            },
        ),
        None => None,
    }
}

/// The entries of the first `n` buttons.
pub open spec fn entries(a: BdmvAnalysis, list: Seq<ButtonModel>, n: int) -> Seq<NavigableModel>
    decreases n,
{
    if n <= 0 {
        seq![]
    } else {
        let before = entries(a, list, n - 1);
        match entry(a, list[n - 1]) {
            Some(e) => before.push(e),
            None => before,
        }
    }
}

/// The buttons whose entries an inventory has.
pub open spec fn chosen(a: BdmvAnalysis, buttons: Seq<ButtonModel>) -> Seq<ButtonModel> {
    let sorted = ranked(candidates(a, buttons, buttons.len() as int));
    firsts(sorted, sorted.len() as int)
}

/// The navigable content of a disc.
pub open spec fn navigable(a: BdmvAnalysis, buttons: Seq<ButtonModel>) -> Seq<NavigableModel> {
    entries(a, chosen(a, buttons), chosen(a, buttons).len() as int)
}

// ---------------------------------------------------------------------------
// Building the inventory
// ---------------------------------------------------------------------------

fn is_listed(a: &BdmvAnalysis, playlist: u16) -> (yes: bool)
    ensures
        yes == (known(*a, playlist as u32) && !composite(*a, playlist as u32) && registered(
            *a,
            playlist as u32,
        )),
{
    let number: u32 = playlist as u32;
    let mut is_known: bool = false;
    let mut i: usize = 0;
    while i < a.playlists.len()
        invariant
            i <= a.playlists.len(),
            number == playlist as u32,
            is_known == exists|j: int|
                0 <= j < i && (#[trigger] a.playlists@[j]).number == number,
            forall|j: int|
                0 <= j < i && (#[trigger] a.playlists@[j]).number == number
                    ==> a.playlists@[j].members@.len() == 0,
        decreases a.playlists.len() - i,
    {
        if a.playlists[i].number == number {
            assert(a.playlists@[i as int].number == number);
            if a.playlists[i].members.len() > 0 {
                assert(composite(*a, number));
                return false;
            }
            is_known = true;
        }
        i = i + 1;
    }
    is_known && (a.title_playlists.is_empty() || a.title_playlists.contains(&number))
}

fn locate(b: &MenuButton) -> (place: BreadcrumbStep)
    ensures
        place == content_place(b@),
{
    if b.breadcrumb.len() == 0 {
        BreadcrumbStep { clip_index: b.clip_index, page_id: b.page_id, button_id: b.button_id }
    } else {
        b.breadcrumb[b.breadcrumb.len() - 1]
    }
}

spec fn models(list: Seq<&MenuButton>) -> Seq<ButtonModel> {
    list.map_values(|b: &MenuButton| b@)
}

fn count_siblings(list: &Vec<&MenuButton>, b: &MenuButton) -> (n: usize)
    ensures
        n == siblings(models(list@), b@),
{
    let place: BreadcrumbStep = locate(b);
    let ghost all = models(list@);
    let mut n: usize = 0;
    let mut i: usize = 0;
    while i < list.len()
        invariant
            i <= list.len(),
            n <= i,
            all == models(list@),
            place == content_place(b@),
            n == siblings(all.take(i as int), b@),
        decreases list.len() - i,
    {
        let other: BreadcrumbStep = locate(list[i]);
        proof {
            assert(all.take(i + 1).drop_last() =~= all.take(i as int));
            assert(all.take(i + 1).last() == list@[i as int]@);
        }
        if other.clip_index == place.clip_index && other.page_id == place.page_id {
            n = n + 1;
        }
        i = i + 1;
    }
    proof {
        assert(all.take(i as int) =~= all);
    }
    n
}

fn build_navigable(b: &MenuButton, a: &BdmvAnalysis) -> (content: Option<NavigableContent>)
    ensures
        match entry(*a, b@) {
            Some(e) => content matches Some(c) && c@ == e,
            None => content is None,
        },
{
    let number: u32 = b.playlist as u32;
    let ghost wanted = number_is(number);
    let mut i: usize = 0;
    while i < a.playlists.len() && a.playlists[i].number != number
        invariant
            i <= a.playlists.len(),
            wanted == number_is(number),
            forall|j: int| 0 <= j < i ==> !wanted(#[trigger] a.playlists@[j]),
        decreases a.playlists.len() - i,
    {
        i = i + 1;
    }
    if i == a.playlists.len() {
        proof {
            lemma_first_where_none(a.playlists@, wanted);
        }
        return None;
    }
    proof {
        lemma_first_where_found(a.playlists@, wanted, i as int);
    }
    let info: &AnalyzedPlaylist = &a.playlists[i];
    let place: BreadcrumbStep = locate(b);
    let mut breadcrumb: Vec<BreadcrumbStep> = Vec::new();
    if b.breadcrumb.len() == 0 {
        breadcrumb.push(place);
        proof {
            assert(breadcrumb@ =~= seq![place]);
        }
    } else {
        breadcrumb = vstd::slice::slice_to_vec(&b.breadcrumb);
    }
    Some(
        NavigableContent {
            playlist: b.playlist,
            branch_opt: b.branch_opt,
            mark_or_pi: b.mark_or_pi,
            duration: info.duration,
            streams: info.streams.copy(),
            chapters: info.chapters,
            snapshot: SnapshotMeta {
                clip_index: place.clip_index,
                page_id: place.page_id,
                button_id: place.button_id,
                breadcrumb,
                orphan: b.orphan,
            },
        },
    )
}

fn rank_buttons<'a>(list: &Vec<&'a MenuButton>) -> (sorted: Vec<(u128, &'a MenuButton)>)
    ensures
        mapped(sorted@, |b: &MenuButton| b@) == ranked(models(list@)),
{
    let ghost all = models(list@);
    let ghost model = |b: &MenuButton| b@;
    let mut pairs: Vec<(u128, &'a MenuButton)> = Vec::new();
    let mut i: usize = 0;
    while i < list.len()
        invariant
            i <= list.len(),
            all == models(list@),
            pairs@.len() == i,
            forall|j: int|
                0 <= j < i ==> (#[trigger] pairs@[j]).0 == rank(all, all[j]) && pairs@[j].1@
                    == all[j],
        decreases list.len() - i,
    {
        let b: &'a MenuButton = list[i];
        let count: usize = count_siblings(list, b);
        let base: u128 = if b.breadcrumb.len() == 0 {
            0x1_0000_0000_0000_0000
        } else {
            0
        };
        pairs.push((base + (u64::MAX - count as u64) as u128, b));
        i = i + 1;
    }
    proof {
        assert(mapped(pairs@, model) =~= with_ranks(all));
        lemma_sorted_mapped(pairs@, model);
    }
    stable_sort(pairs)
}

/// Builds the inventory of a disc from its analysis and the buttons of its
/// menus.
///
/// A button counts if its playlist is known, contains no others, and is
/// registered in the title table if there is one. Of several buttons that play
/// the same, one with button presses from the root menu is preferred, then one
/// on the page with the most content.
pub fn build_inventory(analysis: &BdmvAnalysis, buttons: &[MenuButton]) -> (inventory:
    ContentInventory)
    ensures
        navigable_of(inventory.navigable@) == navigable(*analysis, buttons_of(buttons@)),
        inventory.auto_play@.len() == 0,
        unreferenced_of(inventory.orphaned@) == unreferenced_of(analysis.unreferenced_clips@),
        partials_of(inventory.partially_used@) == partials_of(analysis.partially_used_clips@),
{
    let ghost all = buttons_of(buttons@);
    let mut list: Vec<&MenuButton> = Vec::new();
    let mut i: usize = 0;
    proof {
        assert(models(list@) =~= candidates(*analysis, all, 0));
    }
    while i < buttons.len()
        invariant
            i <= buttons.len(),
            all == buttons_of(buttons@),
            models(list@) == candidates(*analysis, all, i as int),
        decreases buttons.len() - i,
    {
        let ghost before = models(list@);
        assert(all[i as int] == buttons@[i as int]@);
        if is_listed(analysis, buttons[i].playlist) {
            list.push(&buttons[i]);
            proof {
                assert(models(list@) =~= before.push(all[i as int]));
            }
        }
        i = i + 1;
    }
    let sorted: Vec<(u128, &MenuButton)> = rank_buttons(&list);
    let ghost order = ranked(candidates(*analysis, all, all.len() as int));
    assert(mapped(sorted@, |b: &MenuButton| b@) == order);
    let mut content: Vec<NavigableContent> = Vec::new();
    let mut k: usize = 0;
    proof {
        assert(navigable_of(content@) =~= entries(*analysis, firsts(order, 0), 0));
    }
    while k < sorted.len()
        invariant
            k <= sorted.len(),
            mapped(sorted@, |b: &MenuButton| b@) == order,
            navigable_of(content@) == entries(
                *analysis,
                firsts(order, k as int),
                firsts(order, k as int).len() as int,
            ),
        decreases sorted.len() - k,
    {
        let b: &MenuButton = sorted[k].1;
        assert(order[k as int] == (sorted@[k as int].0, b@));
        let mut seen: bool = false;
        let mut j: usize = 0;
        while j < k
            invariant
                j <= k < sorted.len(),
                mapped(sorted@, |b: &MenuButton| b@) == order,
                order[k as int].1 == b@,
                seen == exists|m: int|
                    0 <= m < j && same_target((#[trigger] order[m]).1, order[k as int].1),
            decreases k - j,
        {
            let c: &MenuButton = sorted[j].1;
            assert(order[j as int].1 == c@);
            if c.playlist == b.playlist && c.branch_opt == b.branch_opt && c.mark_or_pi
                == b.mark_or_pi {
                assert(same_target(order[j as int].1, order[k as int].1));
                seen = true;
            }
            j = j + 1;
        }
        let ghost chosen_before = firsts(order, k as int);
        if !seen {
            let ghost before = navigable_of(content@);
            let ghost chosen_now = chosen_before.push(b@);
            proof {
                lemma_entries_prefix(
                    *analysis,
                    chosen_now,
                    chosen_before,
                    chosen_before.len() as int,
                );
            }
            if let Some(c) = build_navigable(b, analysis) {
                content.push(c);
                proof {
                    assert(navigable_of(content@) =~= before.push(c@));
                }
            }
        }
        k = k + 1;
    }
    let mut orphaned: Vec<UnreferencedClip> = Vec::new();
    let mut m: usize = 0;
    while m < analysis.unreferenced_clips.len()
        invariant
            m <= analysis.unreferenced_clips.len(),
            orphaned@.len() == m,
            forall|q: int|
                0 <= q < m ==> (#[trigger] orphaned@[q])@ == analysis.unreferenced_clips@[q]@,
        decreases analysis.unreferenced_clips.len() - m,
    {
        orphaned.push(analysis.unreferenced_clips[m].copy());
        m = m + 1;
    }
    let mut partially_used: Vec<PartiallyUsedClip> = Vec::new();
    let mut p: usize = 0;
    while p < analysis.partially_used_clips.len()
        invariant
            p <= analysis.partially_used_clips.len(),
            partially_used@.len() == p,
            forall|q: int|
                0 <= q < p ==> (#[trigger] partially_used@[q])@
                    == analysis.partially_used_clips@[q]@,
        decreases analysis.partially_used_clips.len() - p,
    {
        partially_used.push(analysis.partially_used_clips[p].copy());
        p = p + 1;
    }
    proof {
        assert(unreferenced_of(orphaned@) =~= unreferenced_of(analysis.unreferenced_clips@));
        assert(partials_of(partially_used@) =~= partials_of(analysis.partially_used_clips@));
    }
    ContentInventory { navigable: content, auto_play: Vec::new(), orphaned, partially_used }
}

proof fn lemma_entries_prefix(
    a: BdmvAnalysis,
    list: Seq<ButtonModel>,
    prefix: Seq<ButtonModel>,
    n: int,
)
    requires
        0 <= n <= prefix.len() <= list.len(),
        forall|i: int| 0 <= i < n ==> #[trigger] list[i] == prefix[i],
    ensures
        entries(a, list, n) == entries(a, prefix, n),
    decreases n,
{
    if n > 0 {
        lemma_entries_prefix(a, list, prefix, n - 1);
    }
}

// ---------------------------------------------------------------------------
// Laws
// ---------------------------------------------------------------------------

proof fn lemma_candidates(a: BdmvAnalysis, buttons: Seq<ButtonModel>, n: int)
    requires
        0 <= n <= buttons.len(),
    ensures
        forall|i: int|
            0 <= i < candidates(a, buttons, n).len() ==> listed(
                a,
                #[trigger] candidates(a, buttons, n)[i],
            ) && buttons.contains(candidates(a, buttons, n)[i]),
        forall|i: int|
            0 <= i < n && listed(a, #[trigger] buttons[i]) ==> candidates(a, buttons, n).contains(
                buttons[i],
            ),
    decreases n,
{
    if n > 0 {
        lemma_candidates(a, buttons, n - 1);
        let before = candidates(a, buttons, n - 1);
        let now = candidates(a, buttons, n);
        assert(buttons.contains(buttons[n - 1]));
        assert forall|i: int| 0 <= i < n && listed(a, #[trigger] buttons[i]) implies now.contains(
            buttons[i],
        ) by {
            if i == n - 1 {
                assert(now.last() == buttons[i]);
            } else {
                assert(before.contains(buttons[i]));
                let k = choose|k: int| 0 <= k < before.len() && before[k] == buttons[i];
                assert(now[k] == buttons[i]);
            }
        }
    }
}

proof fn lemma_firsts(list: Seq<(u128, ButtonModel)>, n: int)
    requires
        0 <= n <= list.len(),
    ensures
        forall|i: int|
            0 <= i < firsts(list, n).len() ==> exists|j: int|
                0 <= j < n && (#[trigger] list[j]).1 == #[trigger] firsts(list, n)[i] && !repeated(
                    list,
                    j,
                ),
        forall|j: int|
            0 <= j < n && !repeated(list, j) ==> firsts(list, n).contains((#[trigger] list[j]).1),
        forall|i: int, k: int|
            0 <= i < k < firsts(list, n).len() ==> !same_target(
                #[trigger] firsts(list, n)[i],
                #[trigger] firsts(list, n)[k],
            ),
    decreases n,
{
    if n > 0 {
        lemma_firsts(list, n - 1);
        let before = firsts(list, n - 1);
        let now = firsts(list, n);
        if !repeated(list, n - 1) {
            assert forall|i: int| 0 <= i < now.len() implies exists|j: int|
                0 <= j < n && (#[trigger] list[j]).1 == #[trigger] now[i] && !repeated(
                    list,
                    j,
                ) by {
                if i == before.len() {
                    assert(list[n - 1].1 == now[i]);
                } else {
                    assert(now[i] == before[i]);
                }
            }
            assert forall|j: int| 0 <= j < n && !repeated(list, j) implies now.contains(
                (#[trigger] list[j]).1,
            ) by {
                if j == n - 1 {
                    assert(now.last() == list[j].1);
                } else {
                    assert(before.contains(list[j].1));
                    let k = choose|k: int| 0 <= k < before.len() && before[k] == list[j].1;
                    assert(now[k] == list[j].1);
                }
            }
            assert forall|i: int, k: int| 0 <= i < k < now.len() implies !same_target(
                #[trigger] now[i],
                #[trigger] now[k],
            ) by {
                if k == before.len() {
                    assert(now[i] == before[i]);
                    let j = choose|j: int|
                        0 <= j < n - 1 && (#[trigger] list[j]).1 == before[i] && !repeated(list, j);
                    assert(!same_target(list[j].1, list[n - 1].1));
                } else {
                    assert(now[i] == before[i]);
                    assert(now[k] == before[k]);
                }
            }
        } else {
            assert forall|i: int| 0 <= i < now.len() implies exists|j: int|
                0 <= j < n && (#[trigger] list[j]).1 == #[trigger] now[i] && !repeated(
                    list,
                    j,
                ) by {
                assert(now[i] == before[i]);
            }
        }
    }
}

/// The first element of its target up to and with the `k`th.
proof fn lemma_earliest(list: Seq<(u128, ButtonModel)>, k: int) -> (j: int)
    requires
        0 <= k < list.len(),
    ensures
        0 <= j <= k,
        same_target(list[j].1, list[k].1),
        !repeated(list, j),
    decreases k,
{
    if repeated(list, k) {
        let m = choose|m: int| 0 <= m < k && same_target((#[trigger] list[m]).1, list[k].1);
        lemma_earliest(list, m)
    } else {
        k
    }
}

proof fn lemma_entries(a: BdmvAnalysis, list: Seq<ButtonModel>, n: int)
    requires
        0 <= n <= list.len(),
        forall|i: int| 0 <= i < list.len() ==> known(a, (#[trigger] list[i]).playlist as u32),
    ensures
        entries(a, list, n).len() == n,
        forall|i: int| 0 <= i < n ==> entry(a, list[i]) == Some(#[trigger] entries(a, list, n)[i]),
    decreases n,
{
    if n > 0 {
        lemma_entries(a, list, n - 1);
        let number = list[n - 1].playlist as u32;
        lemma_first_where_is(a.playlists@, number_is(number));
        assert(known(a, list[n - 1].playlist as u32));
        let i = choose|i: int|
            0 <= i < a.playlists@.len() && (#[trigger] a.playlists@[i]).number == number;
        assert(number_is(number)(a.playlists@[i]));
        assert(entry(a, list[n - 1]) is Some);
    }
}

/// What holds of the buttons that were chosen.
proof fn lemma_chosen(a: BdmvAnalysis, buttons: Seq<ButtonModel>)
    ensures
        forall|i: int|
            0 <= i < chosen(a, buttons).len() ==> listed(a, #[trigger] chosen(a, buttons)[i])
                && buttons.contains(chosen(a, buttons)[i]),
        forall|i: int, k: int|
            0 <= i < k < chosen(a, buttons).len() ==> !same_target(
                #[trigger] chosen(a, buttons)[i],
                #[trigger] chosen(a, buttons)[k],
            ),
        navigable(a, buttons).len() == chosen(a, buttons).len(),
        forall|i: int|
            0 <= i < chosen(a, buttons).len() ==> entry(a, chosen(a, buttons)[i]) == Some(
                #[trigger] navigable(a, buttons)[i],
            ),
{
    let list = candidates(a, buttons, buttons.len() as int);
    let sorted = ranked(list);
    let picked = chosen(a, buttons);
    lemma_candidates(a, buttons, buttons.len() as int);
    lemma_sorted_members(with_ranks(list));
    lemma_firsts(sorted, sorted.len() as int);
    assert forall|i: int| 0 <= i < picked.len() implies listed(a, #[trigger] picked[i])
        && buttons.contains(picked[i]) by {
        let j = choose|j: int|
            0 <= j < sorted.len() && (#[trigger] sorted[j]).1 == picked[i] && !repeated(sorted, j);
        assert(with_ranks(list).contains(sorted[j]));
        let k = choose|k: int| 0 <= k < with_ranks(list).len() && with_ranks(list)[k] == sorted[j];
        assert(list[k] == picked[i]);
    }
    assert forall|i: int| 0 <= i < picked.len() implies known(
        a,
        (#[trigger] picked[i]).playlist as u32,
    ) by {
        assert(listed(a, picked[i]));
    }
    lemma_entries(a, picked, picked.len() as int);
}

/// An inventory lists no two entries that play the same.
pub proof fn law_one_entry_per_target(a: BdmvAnalysis, buttons: Seq<ButtonModel>)
    ensures
        forall|i: int, k: int|
            0 <= i < k < navigable(a, buttons).len() ==> {
                let e = #[trigger] navigable(a, buttons)[i];
                let f = #[trigger] navigable(a, buttons)[k];
                e.playlist != f.playlist || e.branch_opt != f.branch_opt || e.mark_or_pi
                    != f.mark_or_pi
            },
{
    lemma_chosen(a, buttons);
    assert forall|i: int, k: int| 0 <= i < k < navigable(a, buttons).len() implies {
        let e = #[trigger] navigable(a, buttons)[i];
        let f = #[trigger] navigable(a, buttons)[k];
        e.playlist != f.playlist || e.branch_opt != f.branch_opt || e.mark_or_pi != f.mark_or_pi
    } by {
        assert(!same_target(chosen(a, buttons)[i], chosen(a, buttons)[k]));
    }
}

/// Every entry of an inventory is that of a button: of a playlist that is
/// known, contains no others and is registered, with at least one button
/// press, the last of which is the place of the entry.
pub proof fn law_entries_are_listed(a: BdmvAnalysis, buttons: Seq<ButtonModel>, i: int)
    requires
        0 <= i < navigable(a, buttons).len(),
    ensures
        ({
            let e = navigable(a, buttons)[i];
            &&& known(a, e.playlist as u32)
            &&& !composite(a, e.playlist as u32)
            &&& registered(a, e.playlist as u32)
            &&& e.breadcrumb.len() > 0
            &&& e.place == e.breadcrumb.last()
            &&& exists|k: int|
                0 <= k < buttons.len() && entry(a, #[trigger] buttons[k]) == Some(e)
        }),
{
    lemma_chosen(a, buttons);
    let b = chosen(a, buttons)[i];
    let e = navigable(a, buttons)[i];
    assert(listed(a, b));
    assert(entry(a, b) == Some(e));
    let k = choose|k: int| 0 <= k < buttons.len() && buttons[k] == b;
    assert(entry(a, buttons[k]) == Some(e));
}

/// Whatever a button plays is in the inventory, if its content is listed. The
/// entry is that of a button that plays the same and ranks no lower among the
/// candidates.
pub proof fn law_every_target_has_entry(a: BdmvAnalysis, buttons: Seq<ButtonModel>, k: int)
    requires
        0 <= k < buttons.len(),
        listed(a, buttons[k]),
    ensures
        exists|b: ButtonModel|
            {
                &&& buttons.contains(b)
                &&& same_target(b, buttons[k])
                &&& rank(candidates(a, buttons, buttons.len() as int), b) <= rank(
                    candidates(a, buttons, buttons.len() as int),
                    buttons[k],
                )
                &&& entry(a, b) is Some
                &&& navigable(a, buttons).contains((#[trigger] entry(a, b))->Some_0)
            },
{
    let list = candidates(a, buttons, buttons.len() as int);
    let pairs = with_ranks(list);
    let sorted = ranked(list);
    let picked = chosen(a, buttons);
    lemma_candidates(a, buttons, buttons.len() as int);
    assert(list.contains(buttons[k]));
    let c = choose|c: int| 0 <= c < list.len() && list[c] == buttons[k];
    assert(pairs[c] == (rank(list, buttons[k]), buttons[k]));
    lemma_sorted_members(pairs);
    assert(sorted.contains(pairs[c]));
    let s = choose|s: int| 0 <= s < sorted.len() && sorted[s] == pairs[c];
    let j = lemma_earliest(sorted, s);
    law_sorting_orders_keys(pairs);
    assert(sorted[j].0 <= sorted[s].0);
    let b = sorted[j].1;
    assert(pairs.contains(sorted[j]));
    let q = choose|q: int| 0 <= q < pairs.len() && pairs[q] == sorted[j];
    assert(list[q] == b);
    assert(sorted[j].0 == rank(list, b));
    lemma_firsts(sorted, sorted.len() as int);
    assert(picked.contains(sorted[j].1));
    let p = choose|p: int| 0 <= p < picked.len() && picked[p] == b;
    lemma_chosen(a, buttons);
    assert(entry(a, picked[p]) == Some(navigable(a, buttons)[p]));
    assert(navigable(a, buttons).contains(entry(a, b)->Some_0));
    assert(buttons.contains(b));
}

proof fn lemma_siblings_bound(list: Seq<ButtonModel>, b: ButtonModel)
    ensures
        siblings(list, b) <= list.len(),
    decreases list.len(),
{
    if list.len() > 0 {
        lemma_siblings_bound(list.drop_last(), b);
    }
}

/// A button with button presses ranks before one without, whatever their
/// pages; of two alike in this, the one on the page with more content does.
pub proof fn law_rank_prefers_paths_and_pages(
    list: Seq<ButtonModel>,
    b: ButtonModel,
    c: ButtonModel,
)
    requires
        list.len() <= u64::MAX,
    ensures
        rank(list, b) < rank(list, c) <==> (b.breadcrumb.len() > 0 && c.breadcrumb.len() == 0) || ((
        b.breadcrumb.len() > 0) == (c.breadcrumb.len() > 0) && siblings(list, b) > siblings(
            list,
            c,
        )),
{
    lemma_siblings_bound(list, b);
    lemma_siblings_bound(list, c);
}

} // verus!
