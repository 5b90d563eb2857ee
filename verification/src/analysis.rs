//! Analysis of a disc: which playlists it offers, how they relate, and which
//! clips they leave out.
pub mod clips;
pub mod laws;
pub mod playlists;

use vstd::prelude::*;
use vstd::string::*;

use crate::clpi::{
    clip_models, streams_of, AttrsModel, ClipInfo, ClipModel, ClipStream, ClipStreamModel,
    StreamAttrs, CODING_TYPE_IG,
};
use crate::mpls::{
    copy_strings, items_of, playlists_of, ItemModel, Mark, PlayItem, Playlist, PlaylistModel,
    StnModel, StnTable,
};
use crate::text::{concat3, texts};

verus! {

// ---------------------------------------------------------------------------
// Types
// ---------------------------------------------------------------------------

/// A clip that could not be read or parsed.
#[derive(Debug, Clone)]
pub struct ClipWarning {
    /// Clip identifier.
    pub clip_id: String,
    /// What went wrong.
    pub message: String,
}

/// A playlist that could not be read or parsed.
#[derive(Debug, Clone)]
pub struct PlaylistWarning {
    /// Playlist number.
    pub playlist: u32,
    /// What went wrong.
    pub message: String,
}

/// A clip with interactive graphics.
#[derive(Debug, Clone)]
pub struct IgClip {
    /// Clip identifier.
    pub clip_id: String,
    /// Application type of the clip.
    pub application_type: u8,
    /// Estimated size in bytes.
    pub file_size: u64,
    /// Its interactive graphics streams.
    pub ig_streams: Vec<IgStream>,
}

/// An interactive graphics stream of a clip.
#[derive(Debug, Clone)]
pub struct IgStream {
    /// Packet identifier.
    pub pid: u16,
    /// Language code.
    pub language: String,
}

/// A clip that no playlist refers to.
#[derive(Debug, Clone)]
pub struct UnreferencedClip {
    /// Clip identifier.
    pub clip_id: String,
    /// Whether it has interactive graphics.
    pub has_ig: bool,
    /// Names of the coding types of its streams.
    pub streams: Vec<String>,
    /// Estimated size in bytes.
    pub file_size: u64,
}

/// A clip of which playlists use only a part.
#[derive(Debug, Clone)]
pub struct PartiallyUsedClip {
    /// Clip identifier.
    pub clip_id: String,
    /// Estimated length in ticks of the clock.
    pub estimated_duration: u64,
    /// Length in use, in ticks of the clock.
    pub used_duration: u64,
    /// A playlist that uses it.
    pub playlist: u32,
    /// Time at which the part in use starts.
    pub in_time: u32,
    /// Time at which the part in use ends.
    pub out_time: u32,
}

/// An analysed playlist. Lengths are in ticks of the playlist clock.
#[derive(Debug, Clone)]
pub struct AnalyzedPlaylist {
    /// Playlist number.
    pub number: u32,
    /// Total length.
    pub duration: u64,
    /// Number of chapter marks.
    pub chapters: u32,
    /// Runs of seamlessly joined play items.
    pub segments: Vec<Segment>,
    /// Streams of the first play item.
    pub streams: StreamSummary,
    /// Playlists that are contained in this one.
    pub members: Vec<CompositeMember>,
}

/// A playlist that is contained in another one.
#[derive(Debug, Clone, Copy, PartialEq, Eq, Structural)]
pub struct CompositeMember {
    /// Number of the contained playlist.
    pub playlist: u32,
    /// Which segment of the containing playlist it is, from 1.
    pub segment_index: u32,
    /// Where the part that is used starts in the contained playlist.
    pub range_start: u64,
    /// Where the part that is used ends in the contained playlist.
    pub range_end: u64,
}

/// A run of seamlessly joined play items.
#[derive(Debug, Clone)]
pub struct Segment {
    /// Clips in order.
    pub clips: Vec<String>,
    /// Total length.
    pub duration: u64,
}

/// Descriptions of streams.
#[derive(Debug, Clone)]
pub struct StreamSummary {
    /// Video streams.
    pub video: Vec<String>,
    /// Audio streams.
    pub audio: Vec<String>,
    /// Subtitle streams.
    pub subtitles: Vec<String>,
}

/// Contents of a [`Segment`].
#[verifier::ext_equal]
pub struct SegmentModel {
    /// Clips in order.
    pub clips: Seq<Seq<char>>,
    /// Total length.
    pub duration: u64,
}

/// Contents of a [`StreamSummary`].
#[verifier::ext_equal]
pub struct SummaryModel {
    /// Video streams.
    pub video: Seq<Seq<char>>,
    /// Audio streams.
    pub audio: Seq<Seq<char>>,
    /// Subtitle streams.
    pub subtitles: Seq<Seq<char>>,
}

/// Contents of an [`AnalyzedPlaylist`].
#[verifier::ext_equal]
pub struct AnalyzedModel {
    /// Playlist number.
    pub number: u32,
    /// Total length.
    pub duration: u64,
    /// Number of chapter marks.
    pub chapters: u32,
    /// Runs of seamlessly joined play items.
    pub segments: Seq<SegmentModel>,
    /// Streams of the first play item.
    pub streams: SummaryModel,
    /// Playlists that are contained in this one.
    pub members: Seq<CompositeMember>,
}

impl View for Segment {
    type V = SegmentModel;

    open spec fn view(&self) -> SegmentModel {
        SegmentModel { clips: texts(self.clips@), duration: self.duration }
    }
}

/// Contents of segments.
pub open spec fn segments_of(list: Seq<Segment>) -> Seq<SegmentModel> {
    list.map_values(|s: Segment| s@)
}

impl View for StreamSummary {
    type V = SummaryModel;

    open spec fn view(&self) -> SummaryModel {
        SummaryModel {
            video: texts(self.video@),
            audio: texts(self.audio@),
            subtitles: texts(self.subtitles@),
        }
    }
}

impl StreamSummary {
    /// Copies the descriptions.
    pub fn copy(&self) -> (copy: StreamSummary)
        ensures
            copy@ == self@,
    {
        StreamSummary {
            video: copy_strings(&self.video),
            audio: copy_strings(&self.audio),
            subtitles: copy_strings(&self.subtitles),
        }
    }
}

/// Contents of a [`PartiallyUsedClip`].
#[verifier::ext_equal]
pub struct PartialModel {
    /// Clip identifier.
    pub clip_id: Seq<char>,
    /// Estimated length.
    pub estimated_duration: u64,
    /// Length in use.
    pub used_duration: u64,
    /// A playlist that uses it.
    pub playlist: u32,
    /// Time at which the part in use starts.
    pub in_time: u32,
    /// Time at which the part in use ends.
    pub out_time: u32,
}

impl View for PartiallyUsedClip {
    type V = PartialModel;

    open spec fn view(&self) -> PartialModel {
        PartialModel {
            clip_id: self.clip_id@,
            estimated_duration: self.estimated_duration,
            used_duration: self.used_duration,
            playlist: self.playlist,
            in_time: self.in_time,
            out_time: self.out_time,
        }
    }
}

/// Contents of partially used clips.
pub open spec fn partials_of(list: Seq<PartiallyUsedClip>) -> Seq<PartialModel> {
    list.map_values(|c: PartiallyUsedClip| c@)
}

impl PartiallyUsedClip {
    /// Copies the entry.
    pub fn copy(&self) -> (copy: PartiallyUsedClip)
        ensures
            copy@ == self@,
    {
        PartiallyUsedClip {
            clip_id: self.clip_id.clone(),
            estimated_duration: self.estimated_duration,
            used_duration: self.used_duration,
            playlist: self.playlist,
            in_time: self.in_time,
            out_time: self.out_time,
        }
    }
}

impl View for AnalyzedPlaylist {
    type V = AnalyzedModel;

    open spec fn view(&self) -> AnalyzedModel {
        AnalyzedModel {
            number: self.number,
            duration: self.duration,
            chapters: self.chapters,
            segments: segments_of(self.segments@),
            streams: self.streams@,
            members: self.members@,
        }
    }
}

/// Contents of analysed playlists.
pub open spec fn analyzed_of(list: Seq<AnalyzedPlaylist>) -> Seq<AnalyzedModel> {
    list.map_values(|p: AnalyzedPlaylist| p@)
}

// ---------------------------------------------------------------------------
// Lengths
// ---------------------------------------------------------------------------

/// The length of a play item.
pub open spec fn item_ticks(item: ItemModel) -> nat {
    if item.out_time > item.in_time {
        (item.out_time - item.in_time) as nat
    } else {
        0
    }
}

/// The length of play items.
pub open spec fn ticks(items: Seq<ItemModel>) -> nat
    decreases items.len(),
{
    if items.len() == 0 {
        0
    } else {
        ticks(items.drop_last()) + item_ticks(items.last())
    }
}

/// The length of fewer items is no longer.
pub proof fn lemma_ticks_take(items: Seq<ItemModel>, n: int)
    requires
        0 <= n <= items.len(),
    ensures
        ticks(items.take(n)) <= ticks(items),
    decreases items.len() - n,
{
    if n == items.len() {
        assert(items.take(n) =~= items);
    } else {
        lemma_ticks_take(items, n + 1);
        assert(items.take(n + 1).drop_last() =~= items.take(n));
    }
}

/// The length of items is that of the first ones and that of the others.
pub proof fn lemma_ticks_add(a: Seq<ItemModel>, b: Seq<ItemModel>)
    ensures
        ticks(a + b) == ticks(a) + ticks(b),
    decreases b.len(),
{
    if b.len() == 0 {
        assert(a + b =~= a);
    } else {
        assert((a + b).drop_last() =~= a + b.drop_last());
        lemma_ticks_add(a, b.drop_last());
    }
}

fn item_length(item: &PlayItem) -> (n: u64)
    ensures
        n == item_ticks(item@),
{
    item.out_time.saturating_sub(item.in_time) as u64
}

/// Adds up the lengths of the play items from `start` to `end`.
fn length_between(items: &Vec<PlayItem>, start: usize, end: usize) -> (n: u64)
    requires
        start <= end <= items@.len(),
        ticks(items_of(items@).subrange(start as int, end as int)) <= u64::MAX,
    ensures
        n == ticks(items_of(items@).subrange(start as int, end as int)),
{
    let ghost all = items_of(items@).subrange(start as int, end as int);
    let mut n: u64 = 0;
    let mut i: usize = start;
    while i < end
        invariant
            start <= i <= end <= items@.len(),
            all == items_of(items@).subrange(start as int, end as int),
            ticks(all) <= u64::MAX,
            n == ticks(all.take(i - start)),
        decreases end - i,
    {
        proof {
            lemma_ticks_take(all, i + 1 - start);
            assert(all.take(i + 1 - start).drop_last() =~= all.take(i - start));
            assert(all.take(i + 1 - start).last() == items@[i as int]@);
        }
        n = n + item_length(&items[i]);
        i = i + 1;
    }
    proof {
        assert(all.take(end - start) =~= all);
    }
    n
}

/// Computes the length of a playlist.
pub fn playlist_duration(playlist: &Playlist) -> (n: u64)
    requires
        ticks(playlist@.items) <= u64::MAX,
    ensures
        n == ticks(playlist@.items),
{
    let ghost all = playlist@.items;
    proof {
        assert(all.subrange(0, all.len() as int) =~= all);
    }
    length_between(&playlist.play_items, 0, playlist.play_items.len())
}

// ---------------------------------------------------------------------------
// Looping menus
// ---------------------------------------------------------------------------

/// What tells play items apart: clip, start and end.
pub open spec fn signature(item: ItemModel) -> (Seq<char>, u32, u32) {
    (item.clip_id, item.in_time, item.out_time)
}

/// How often a signature occurs among play items.
pub open spec fn occurrences(items: Seq<ItemModel>, s: (Seq<char>, u32, u32)) -> nat
    decreases items.len(),
{
    if items.len() == 0 {
        0
    } else {
        occurrences(items.drop_last(), s) + if signature(items.last()) == s {
            1nat
        } else {
            0nat
        }
    }
}

/// Whether some part of a clip is played more than twice.
pub open spec fn loops(items: Seq<ItemModel>) -> bool {
    exists|i: int|
        0 <= i < items.len() && occurrences(items, signature(#[trigger] items[i])) > 2
}

fn same_signature(a: &PlayItem, b: &PlayItem) -> (same: bool)
    ensures
        same == (signature(a@) == signature(b@)),
{
    a.in_time == b.in_time && a.out_time == b.out_time && a.clip_id == b.clip_id
}

/// Returns whether a playlist is a looping menu: some part of a clip is
/// played more than twice.
pub fn is_looping(playlist: &Playlist) -> (yes: bool)
    ensures
        yes == loops(playlist@.items),
{
    let ghost all = playlist@.items;
    let items: &Vec<PlayItem> = &playlist.play_items;
    let mut i: usize = 0;
    while i < items.len()
        invariant
            i <= items.len(),
            all == items_of(items@),
            all == playlist@.items,
            forall|j: int|
                0 <= j < i ==> occurrences(all, signature(#[trigger] all[j])) <= 2,
        decreases items.len() - i,
    {
        let mut count: usize = 0;
        let mut k: usize = 0;
        let ghost s = signature(all[i as int]);
        while k < items.len()
            invariant
                k <= items.len(),
                i < items.len(),
                count <= k,
                all == items_of(items@),
                s == signature(all[i as int]),
                count == occurrences(all.take(k as int), s),
            decreases items.len() - k,
        {
            proof {
                assert(all.take(k + 1).drop_last() =~= all.take(k as int));
                assert(all.take(k + 1).last() == items@[k as int]@);
                assert(all[i as int] == items@[i as int]@);
            }
            if same_signature(&items[k], &items[i]) {
                count = count + 1;
            }
            k = k + 1;
        }
        proof {
            assert(all.take(k as int) =~= all);
        }
        if count > 2 {
            assert(occurrences(all, signature(all[i as int])) > 2);
            return true;
        }
        i = i + 1;
    }
    false
}

// ---------------------------------------------------------------------------
// Duplicates
// ---------------------------------------------------------------------------

/// What tells playlists apart: the signatures of their items.
pub open spec fn signatures(p: PlaylistModel) -> Seq<(Seq<char>, u32, u32)> {
    p.items.map_values(|i: ItemModel| signature(i))
}

/// The number of streams of a playlist's first item.
pub open spec fn stream_count(p: PlaylistModel) -> nat {
    if p.items.len() == 0 {
        0
    } else {
        let s = p.items[0].streams;
        s.video.len() + s.audio.len() + s.subtitles.len()
    }
}

/// Whether `a` is to be preferred to its duplicate `b`: it has more marks, or
/// as many marks and more streams, or as many of both and a lower number.
pub open spec fn preferred(a: PlaylistModel, b: PlaylistModel) -> bool {
    ||| a.marks.len() > b.marks.len()
    ||| a.marks.len() == b.marks.len() && stream_count(a) > stream_count(b)
    ||| a.marks.len() == b.marks.len() && stream_count(a) == stream_count(b) && a.number < b.number
}

/// The most preferred among the first `n` playlists that duplicate the `i`th,
/// the earliest of those that are equally so.
pub open spec fn best_duplicate(all: Seq<PlaylistModel>, i: int, n: int) -> int
    decreases n,
{
    if n <= 0 {
        i
    } else {
        let best = best_duplicate(all, i, n - 1);
        if signatures(all[n - 1]) == signatures(all[i]) && preferred(all[n - 1], all[best]) {
            n - 1
        } else {
            best
        }
    }
}

/// Whether a playlist duplicates none before it.
pub open spec fn is_first(all: Seq<PlaylistModel>, i: int) -> bool {
    forall|j: int| 0 <= j < i ==> signatures(#[trigger] all[j]) != signatures(all[i])
}

/// Of each set of duplicates among the first `n` playlists the most preferred
/// one, in the order of the first of each set.
pub open spec fn distinct(all: Seq<PlaylistModel>, n: int) -> Seq<PlaylistModel>
    decreases n,
{
    if n <= 0 {
        seq![]
    } else if is_first(all, n - 1) {
        distinct(all, n - 1).push(all[best_duplicate(all, n - 1, all.len() as int)])
    } else {
        distinct(all, n - 1)
    }
}

/// Whether two playlists are duplicates.
fn same_signatures(a: &Playlist, b: &Playlist) -> (same: bool)
    ensures
        same == (signatures(a@) == signatures(b@)),
{
    if a.play_items.len() != b.play_items.len() {
        assert(signatures(a@).len() != signatures(b@).len());
        return false;
    }
    let mut i: usize = 0;
    while i < a.play_items.len()
        invariant
            i <= a.play_items.len(),
            a.play_items.len() == b.play_items.len(),
            forall|j: int| 0 <= j < i ==> #[trigger] signatures(a@)[j] == signatures(b@)[j],
        decreases a.play_items.len() - i,
    {
        assert(signatures(a@)[i as int] == signature(a.play_items@[i as int]@));
        assert(signatures(b@)[i as int] == signature(b.play_items@[i as int]@));
        if !same_signature(&a.play_items[i], &b.play_items[i]) {
            return false;
        }
        i = i + 1;
    }
    assert(signatures(a@) =~= signatures(b@));
    true
}

fn count_streams(p: &Playlist) -> (n: u128)
    ensures
        n == stream_count(p@),
{
    if p.play_items.len() == 0 {
        0
    } else {
        let s: &StnTable = &p.play_items[0].streams;
        s.video.len() as u128 + s.audio.len() as u128 + s.subtitles.len() as u128
    }
}

fn is_preferred(a: &Playlist, b: &Playlist) -> (yes: bool)
    ensures
        yes == preferred(a@, b@),
{
    if a.marks.len() != b.marks.len() {
        return a.marks.len() > b.marks.len();
    }
    let m: u128 = count_streams(a);
    let n: u128 = count_streams(b);
    if m != n {
        return m > n;
    }
    a.number < b.number
}

/// Keeps of each set of duplicates the one with the most marks, then the most
/// streams, then the lowest number. Playlists are duplicates if they play the
/// same parts of the same clips in the same order.
pub fn dedup_playlists(playlists: &[Playlist]) -> (kept: Vec<Playlist>)
    ensures
        playlists_of(kept@) == distinct(playlists_of(playlists@), playlists@.len() as int),
{
    let ghost all = playlists_of(playlists@);
    let mut kept: Vec<Playlist> = Vec::new();
    let mut i: usize = 0;
    proof {
        assert(playlists_of(kept@) =~= seq![]);
    }
    while i < playlists.len()
        invariant
            i <= playlists.len(),
            all == playlists_of(playlists@),
            playlists_of(kept@) == distinct(all, i as int),
        decreases playlists.len() - i,
    {
        let mut first: bool = true;
        let mut j: usize = 0;
        while j < i
            invariant
                j <= i < playlists.len(),
                all == playlists_of(playlists@),
                first == (forall|k: int|
                    0 <= k < j ==> signatures(#[trigger] all[k]) != signatures(all[i as int])),
            decreases i - j,
        {
            assert(all[j as int] == playlists@[j as int]@);
            assert(all[i as int] == playlists@[i as int]@);
            if same_signatures(&playlists[j], &playlists[i]) {
                first = false;
            }
            j = j + 1;
        }
        if first {
            let mut best: usize = i;
            let mut k: usize = 0;
            while k < playlists.len()
                invariant
                    k <= playlists.len(),
                    i < playlists.len(),
                    best < playlists.len(),
                    all == playlists_of(playlists@),
                    best == best_duplicate(all, i as int, k as int),
                decreases playlists.len() - k,
            {
                assert(all[k as int] == playlists@[k as int]@);
                assert(all[i as int] == playlists@[i as int]@);
                assert(all[best as int] == playlists@[best as int]@);
                if same_signatures(&playlists[k], &playlists[i]) && is_preferred(
                    &playlists[k],
                    &playlists[best],
                ) {
                    best = k;
                }
                k = k + 1;
            }
            let ghost before = playlists_of(kept@);
            kept.push(playlists[best].copy());
            proof {
                assert(playlists_of(kept@) =~= before.push(all[best as int]));
            }
        }
        i = i + 1;
    }
    kept
}

// ---------------------------------------------------------------------------
// The main title
// ---------------------------------------------------------------------------

/// Whether `a` has more play items than `b`, or as many and is at least as
/// long.
pub open spec fn outranks(a: PlaylistModel, b: PlaylistModel) -> bool {
    a.items.len() > b.items.len() || (a.items.len() == b.items.len() && ticks(a.items) >= ticks(
        b.items,
    ))
}

/// The playlist among the first `n` with the most play items, the longest of
/// those, and the last of the longest.
pub open spec fn main_index(all: Seq<PlaylistModel>, n: int) -> int
    decreases n,
{
    if n <= 1 {
        0
    } else {
        let before = main_index(all, n - 1);
        if outranks(all[n - 1], all[before]) {
            n - 1
        } else {
            before
        }
    }
}

/// The number of the main title.
pub open spec fn main_title_of(all: Seq<PlaylistModel>) -> Option<u32> {
    if all.len() == 0 {
        None
    } else {
        Some(all[main_index(all, all.len() as int)].number)
    }
}

/// Tells the main title: the playlist with the most play items, and the
/// longest of several.
pub fn identify_main_title(playlists: &[Playlist]) -> (number: Option<u32>)
    requires
        forall|i: int| 0 <= i < playlists@.len() ==> ticks((#[trigger] playlists@[i])@.items)
            <= u64::MAX,
    ensures
        number == main_title_of(playlists_of(playlists@)),
{
    if playlists.len() == 0 {
        return None;
    }
    let ghost all = playlists_of(playlists@);
    let mut best: usize = 0;
    let mut i: usize = 1;
    while i < playlists.len()
        invariant
            1 <= i <= playlists.len(),
            best < i,
            all == playlists_of(playlists@),
            best == main_index(all, i as int),
            forall|k: int|
                0 <= k < playlists@.len() ==> ticks((#[trigger] playlists@[k])@.items) <= u64::MAX,
        decreases playlists.len() - i,
    {
        let a: &Playlist = &playlists[i];
        let b: &Playlist = &playlists[best];
        assert(all[i as int] == a@);
        assert(all[best as int] == b@);
        if a.play_items.len() > b.play_items.len() || (a.play_items.len() == b.play_items.len()
            && playlist_duration(a) >= playlist_duration(b)) {
            best = i;
        }
        i = i + 1;
    }
    Some(playlists[best].number)
}

// ---------------------------------------------------------------------------
// Segments
// ---------------------------------------------------------------------------

/// Whether a play item does not join the one before it seamlessly.
pub open spec fn breaks(item: ItemModel) -> bool {
    item.connection_condition < 5
}

/// The segments of the first `n` play items, as ranges of their indices.
pub open spec fn ranges(items: Seq<ItemModel>, n: int) -> Seq<(int, int)>
    decreases n,
{
    if n <= 0 {
        seq![]
    } else {
        let before = ranges(items, n - 1);
        if before.len() == 0 || breaks(items[n - 1]) {
            before.push((n - 1, n))
        } else {
            before.update(before.len() - 1, (before.last().0, n))
        }
    }
}

/// The segments of play items as ranges; an empty one where there is no item.
pub open spec fn ranges_or_empty(items: Seq<ItemModel>) -> Seq<(int, int)> {
    if items.len() == 0 {
        seq![(0, 0)]
    } else {
        ranges(items, items.len() as int)
    }
}

/// The clips of play items.
pub open spec fn clips_of(items: Seq<ItemModel>) -> Seq<Seq<char>> {
    items.map_values(|i: ItemModel| i.clip_id)
}

/// The segment of a range of play items.
pub open spec fn segment_at(items: Seq<ItemModel>, range: (int, int)) -> SegmentModel {
    let part = items.subrange(range.0, range.1);
    SegmentModel { clips: clips_of(part), duration: ticks(part) as u64 }
}

/// The segments of play items.
pub open spec fn segments_in(items: Seq<ItemModel>) -> Seq<SegmentModel> {
    ranges(items, items.len() as int).map_values(|r: (int, int)| segment_at(items, r))
}

/// Ranges follow one another from 0 on, and none is empty.
pub proof fn lemma_ranges(items: Seq<ItemModel>, n: int)
    requires
        0 <= n <= items.len(),
    ensures
        n > 0 ==> ranges(items, n).len() > 0 && ranges(items, n)[0].0 == 0 && ranges(
            items,
            n,
        ).last().1 == n,
        n == 0 ==> ranges(items, n).len() == 0,
        ranges(items, n).len() <= n,
        forall|k: int|
            0 <= k < ranges(items, n).len() ==> 0 <= (#[trigger] ranges(items, n)[k]).0 < ranges(
                items,
                n,
            )[k].1 <= n,
        forall|k: int|
            0 < k < ranges(items, n).len() ==> (#[trigger] ranges(items, n)[k]).0 == ranges(
                items,
                n,
            )[k - 1].1,
    decreases n,
{
    if n > 0 {
        lemma_ranges(items, n - 1);
    }
}

/// Integer pairs of index pairs.
pub open spec fn int_ranges(list: Seq<(usize, usize)>) -> Seq<(int, int)> {
    list.map_values(|r: (usize, usize)| (r.0 as int, r.1 as int))
}

/// Collects the ranges of the segments of a playlist.
fn collect_ranges(playlist: &Playlist) -> (list: Vec<(usize, usize)>)
    ensures
        int_ranges(list@) == ranges(playlist@.items, playlist@.items.len() as int),
{
    let ghost all = playlist@.items;
    let mut list: Vec<(usize, usize)> = Vec::new();
    let mut i: usize = 0;
    proof {
        assert(int_ranges(list@) =~= ranges(all, 0));
    }
    while i < playlist.play_items.len()
        invariant
            i <= playlist.play_items.len(),
            all == playlist@.items,
            int_ranges(list@) == ranges(all, i as int),
        decreases playlist.play_items.len() - i,
    {
        let ghost before = list@;
        assert(all[i as int] == playlist.play_items@[i as int]@);
        let n: usize = list.len();
        assert(ranges(all, i as int).len() == n);
        if n == 0 || playlist.play_items[i].connection_condition < 5 {
            list.push((i, i + 1));
            proof {
                assert(int_ranges(list@) =~= int_ranges(before).push((i as int, i + 1)));
            }
        } else {
            let start: usize = list[n - 1].0;
            list.set(n - 1, (start, i + 1));
            proof {
                assert(int_ranges(before).last() == (start as int, before.last().1 as int));
                assert(int_ranges(list@) =~= int_ranges(before).update(
                    n - 1,
                    (start as int, i + 1),
                ));
            }
        }
        i = i + 1;
    }
    list
}

/// Splits a playlist into segments, given as ranges of play item indices. A
/// playlist without items has one empty range.
pub fn segment_ranges(playlist: &Playlist) -> (list: Vec<(usize, usize)>)
    ensures
        int_ranges(list@) == ranges_or_empty(playlist@.items),
{
    let mut list: Vec<(usize, usize)> = collect_ranges(playlist);
    proof {
        lemma_ranges(playlist@.items, playlist@.items.len() as int);
    }
    if playlist.play_items.len() == 0 {
        list.push((0, 0));
        proof {
            assert(int_ranges(list@) =~= seq![(0int, 0int)]);
        }
    }
    list
}

/// Lists the clips of a range of play items.
fn clip_ids_for_range(playlist: &Playlist, start: usize, end: usize) -> (clips: Vec<String>)
    requires
        start <= end <= playlist@.items.len(),
    ensures
        texts(clips@) == clips_of(playlist@.items.subrange(start as int, end as int)),
{
    let ghost part = playlist@.items.subrange(start as int, end as int);
    let mut clips: Vec<String> = Vec::new();
    let mut i: usize = start;
    while i < end
        invariant
            start <= i <= end <= playlist@.items.len(),
            part == playlist@.items.subrange(start as int, end as int),
            clips@.len() == i - start,
            forall|j: int| 0 <= j < i - start ==> (#[trigger] clips@[j])@ == part[j].clip_id,
        decreases end - i,
    {
        assert(part[i - start] == playlist.play_items@[i as int]@);
        clips.push(playlist.play_items[i].clip_id.clone());
        i = i + 1;
    }
    assert(texts(clips@) =~= clips_of(part));
    clips
}

/// Splits a playlist into segments: runs of seamlessly joined play items.
pub fn group_segments(playlist: &Playlist) -> (segments: Vec<Segment>)
    requires
        ticks(playlist@.items) <= u64::MAX,
    ensures
        segments_of(segments@) == segments_in(playlist@.items),
{
    let ghost all = playlist@.items;
    let list: Vec<(usize, usize)> = collect_ranges(playlist);
    let mut segments: Vec<Segment> = Vec::new();
    let mut i: usize = 0;
    proof {
        lemma_ranges(all, all.len() as int);
    }
    while i < list.len()
        invariant
            i <= list.len(),
            all == playlist@.items,
            ticks(all) <= u64::MAX,
            int_ranges(list@) == ranges(all, all.len() as int),
            forall|k: int|
                0 <= k < list@.len() ==> 0 <= (#[trigger] int_ranges(list@)[k]).0 < int_ranges(
                    list@,
                )[k].1 <= all.len(),
            segments@.len() == i,
            forall|k: int| 0 <= k < i ==> (#[trigger] segments@[k])@ == segments_in(all)[k],
        decreases list.len() - i,
    {
        let (start, end) = list[i];
        proof {
            assert(int_ranges(list@)[i as int] == (start as int, end as int));
            let part = all.subrange(start as int, end as int);
            lemma_ticks_take(all, end as int);
            assert(all.take(end as int) =~= all.take(start as int) + part);
            lemma_ticks_add(all.take(start as int), part);
        }
        let clips: Vec<String> = clip_ids_for_range(playlist, start, end);
        let duration: u64 = length_between(&playlist.play_items, start, end);
        segments.push(Segment { clips, duration });
        i = i + 1;
    }
    proof {
        assert(segments_of(segments@) =~= segments_in(all));
    }
    segments
}

// ---------------------------------------------------------------------------
// Streams
// ---------------------------------------------------------------------------

/// Descriptions of the streams of a play item.
pub open spec fn summary_of(s: StnModel) -> SummaryModel {
    SummaryModel {
        video: s.video.map_values(
            |v: (Seq<char>, Seq<char>, Seq<char>)| v.0 + " "@ + v.1 + " "@ + v.2,
        ),
        audio: s.audio.map_values(
            |a: (Seq<char>, Seq<char>, Seq<char>)| a.0 + " "@ + a.1 + " "@ + a.2,
        ),
        subtitles: s.subtitles.map_values(
            |t: (u8, Seq<char>)|
                if t.0 == 0x92 {
                    "Text "@ + t.1
                } else {
                    "PGS "@ + t.1
                },
        ),
    }
}

/// Describes the streams of a play item.
pub fn summarize_streams(stn: &StnTable) -> (summary: StreamSummary)
    ensures
        summary@ == summary_of(stn@),
{
    let ghost m = summary_of(stn@);
    let mut video: Vec<String> = Vec::new();
    let mut i: usize = 0;
    while i < stn.video.len()
        invariant
            i <= stn.video.len(),
            m == summary_of(stn@),
            video@.len() == i,
            forall|j: int| 0 <= j < i ==> (#[trigger] video@[j])@ == m.video[j],
        decreases stn.video.len() - i,
    {
        let mut text: String = concat3(
            stn.video[i].codec.as_str(),
            " ",
            stn.video[i].resolution.as_str(),
        );
        text.append(" ");
        text.append(stn.video[i].frame_rate.as_str());
        assert(stn@.video[i as int] == stn.video@[i as int]@);
        video.push(text);
        i = i + 1;
    }
    let mut audio: Vec<String> = Vec::new();
    let mut k: usize = 0;
    while k < stn.audio.len()
        invariant
            k <= stn.audio.len(),
            m == summary_of(stn@),
            audio@.len() == k,
            forall|j: int| 0 <= j < k ==> (#[trigger] audio@[j])@ == m.audio[j],
        decreases stn.audio.len() - k,
    {
        let mut text: String = concat3(
            stn.audio[k].codec.as_str(),
            " ",
            stn.audio[k].channels.as_str(),
        );
        text.append(" ");
        text.append(stn.audio[k].language.as_str());
        assert(stn@.audio[k as int] == stn.audio@[k as int]@);
        audio.push(text);
        k = k + 1;
    }
    let mut subtitles: Vec<String> = Vec::new();
    let mut n: usize = 0;
    while n < stn.subtitles.len()
        invariant
            n <= stn.subtitles.len(),
            m == summary_of(stn@),
            subtitles@.len() == n,
            forall|j: int| 0 <= j < n ==> (#[trigger] subtitles@[j])@ == m.subtitles[j],
        decreases stn.subtitles.len() - n,
    {
        let mut text: String = if stn.subtitles[n].coding_type == 0x92 {
            String::from_str("Text ")
        } else {
            String::from_str("PGS ")
        };
        text.append(stn.subtitles[n].language.as_str());
        assert(stn@.subtitles[n as int] == stn.subtitles@[n as int]@);
        subtitles.push(text);
        n = n + 1;
    }
    let summary: StreamSummary = StreamSummary { video, audio, subtitles };
    proof {
        assert(summary@.video =~= m.video);
        assert(summary@.audio =~= m.audio);
        assert(summary@.subtitles =~= m.subtitles);
    }
    summary
}

// ---------------------------------------------------------------------------
// Single playlists
// ---------------------------------------------------------------------------

/// The number of chapters among marks.
pub open spec fn chapter_count(marks: Seq<Mark>) -> nat
    decreases marks.len(),
{
    if marks.len() == 0 {
        0
    } else {
        chapter_count(marks.drop_last()) + if marks.last().mark_type == 1 {
            1nat
        } else {
            0nat
        }
    }
}

/// A playlist analysed on its own.
pub open spec fn analyzed(p: PlaylistModel) -> AnalyzedModel {
    AnalyzedModel {
        number: p.number,
        duration: ticks(p.items) as u64,
        chapters: chapter_count(p.marks) as u32,
        segments: segments_in(p.items),
        streams: if p.items.len() == 0 {
            SummaryModel { video: seq![], audio: seq![], subtitles: seq![] }
        } else {
            summary_of(p.items[0].streams)
        },
        members: seq![],
    }
}

fn count_chapters(marks: &Vec<Mark>) -> (n: usize)
    ensures
        n == chapter_count(marks@),
{
    let mut n: usize = 0;
    let mut i: usize = 0;
    while i < marks.len()
        invariant
            i <= marks.len(),
            n <= i,
            n == chapter_count(marks@.take(i as int)),
        decreases marks.len() - i,
    {
        proof {
            assert(marks@.take(i + 1).drop_last() =~= marks@.take(i as int));
        }
        if marks[i].mark_type == 1 {
            n = n + 1;
        }
        i = i + 1;
    }
    proof {
        assert(marks@.take(i as int) =~= marks@);
    }
    n
}

/// Analyses a playlist on its own.
pub fn analyze_playlist(playlist: &Playlist) -> (result: AnalyzedPlaylist)
    requires
        ticks(playlist@.items) <= u64::MAX,
    ensures
        result@ == analyzed(playlist@),
{
    let streams: StreamSummary = if playlist.play_items.len() == 0 {
        StreamSummary { video: Vec::new(), audio: Vec::new(), subtitles: Vec::new() }
    } else {
        summarize_streams(&playlist.play_items[0].streams)
    };
    let result: AnalyzedPlaylist = AnalyzedPlaylist {
        number: playlist.number,
        duration: playlist_duration(playlist),
        chapters: count_chapters(&playlist.marks) as u32,
        segments: group_segments(playlist),
        streams,
        members: Vec::new(),
    };
    proof {
        if playlist.play_items@.len() == 0 {
            assert(result@.streams =~= analyzed(playlist@).streams);
        }
        assert(result@.members =~= seq![]);
    }
    result
}

// ---------------------------------------------------------------------------
// Composite playlists
// ---------------------------------------------------------------------------

/// Whether a playlist other than the `ci`th has exactly the given clips.
pub open spec fn has_clips(
    all: Seq<PlaylistModel>,
    ci: int,
    clips: Seq<Seq<char>>,
    mi: int,
) -> bool {
    mi != ci && clips_of(all[mi].items) == clips
}

/// The first such playlist from the `mi`th on.
pub open spec fn member_from(
    all: Seq<PlaylistModel>,
    ci: int,
    clips: Seq<Seq<char>>,
    mi: int,
) -> Option<int>
    decreases all.len() - mi,
{
    if mi >= all.len() {
        None
    } else if has_clips(all, ci, clips, mi) {
        Some(mi)
    } else {
        member_from(all, ci, clips, mi + 1)
    }
}

/// How far into `member` the play items from `start` on begin.
pub open spec fn member_offset(items: Seq<ItemModel>, start: int, member: PlaylistModel) -> nat {
    let own = if member.items.len() == 0 {
        0
    } else {
        member.items[0].in_time
    };
    if items[start].in_time > own {
        (items[start].in_time - own) as nat
    } else {
        0
    }
}

/// The entry of a playlist that is the `k`th segment of another one.
pub open spec fn member_entry(
    items: Seq<ItemModel>,
    range: (int, int),
    k: int,
    member: PlaylistModel,
) -> CompositeMember {
    let offset = member_offset(items, range.0, member);
    CompositeMember {
        playlist: member.number,
        segment_index: (k + 1) as u32,
        range_start: offset as u64,
        range_end: (offset + ticks(items.subrange(range.0, range.1))) as u64,
    }
}

/// The playlists that are one of the first `n` segments of the `ci`th.
pub open spec fn members_upto(all: Seq<PlaylistModel>, ci: int, n: int) -> Seq<CompositeMember>
    decreases n,
{
    if n <= 0 {
        seq![]
    } else {
        let before = members_upto(all, ci, n - 1);
        let items = all[ci].items;
        let range = ranges_or_empty(items)[n - 1];
        let clips = clips_of(items.subrange(range.0, range.1));
        match member_from(all, ci, clips, 0) {
            Some(mi) => before.push(member_entry(items, range, n - 1, all[mi])),
            None => before,
        }
    }
}

/// The playlists that are contained in the `ci`th: if it has several segments,
/// of each the first other playlist with the same clips.
pub open spec fn members_of(all: Seq<PlaylistModel>, ci: int) -> Seq<CompositeMember> {
    let count = ranges_or_empty(all[ci].items).len() as int;
    if count <= 1 {
        seq![]
    } else {
        members_upto(all, ci, count)
    }
}

/// Whether the lengths of a playlist, and times of a playlist added to them,
/// fit a 64-bit number.
pub open spec fn within_limits(p: PlaylistModel) -> bool {
    ticks(p.items) + u32::MAX <= u64::MAX
}

/// An analysed playlist with its members, if it has any.
pub open spec fn with_members(a: AnalyzedModel, members: Seq<CompositeMember>) -> AnalyzedModel {
    if members.len() == 0 {
        a
    } else {
        AnalyzedModel { members, ..a }
    }
}

fn same_clips(playlist: &Playlist, clips: &Vec<String>) -> (same: bool)
    ensures
        same == (clips_of(playlist@.items) == texts(clips@)),
{
    if playlist.play_items.len() != clips.len() {
        assert(clips_of(playlist@.items).len() != texts(clips@).len());
        return false;
    }
    let mut i: usize = 0;
    while i < clips.len()
        invariant
            i <= clips.len(),
            playlist.play_items.len() == clips.len(),
            forall|j: int|
                0 <= j < i ==> #[trigger] clips_of(playlist@.items)[j] == texts(clips@)[j],
        decreases clips.len() - i,
    {
        assert(clips_of(playlist@.items)[i as int] == playlist.play_items@[i as int].clip_id@);
        assert(texts(clips@)[i as int] == clips@[i as int]@);
        if playlist.play_items[i].clip_id != clips[i] {
            return false;
        }
        i = i + 1;
    }
    assert(clips_of(playlist@.items) =~= texts(clips@));
    true
}

/// Computes which part of a member a segment of a composite playlist uses.
fn compute_member_range(composite: &Playlist, start: usize, end: usize, member: &Playlist) -> (range:
    (u64, u64))
    requires
        within_limits(composite@),
        start < end <= composite@.items.len(),
    ensures
        range.0 == member_offset(composite@.items, start as int, member@),
        range.1 == member_offset(composite@.items, start as int, member@) + ticks(
            composite@.items.subrange(start as int, end as int),
        ),
{
    let ghost all = composite@.items;
    proof {
        let part = all.subrange(start as int, end as int);
        lemma_ticks_take(all, end as int);
        assert(all.take(end as int) =~= all.take(start as int) + part);
        lemma_ticks_add(all.take(start as int), part);
        assert(all[start as int] == composite.play_items@[start as int]@);
        if member.play_items@.len() > 0 {
            assert(member@.items[0] == member.play_items@[0]@);
        }
    }
    let own: u32 = if member.play_items.len() == 0 {
        0
    } else {
        member.play_items[0].in_time
    };
    let offset: u64 = composite.play_items[start].in_time.saturating_sub(own) as u64;
    (offset, offset + length_between(&composite.play_items, start, end))
}

/// Finds the playlists that are contained in the `ci`th.
fn find_members(playlists: &[Playlist], ci: usize) -> (members: Vec<CompositeMember>)
    requires
        ci < playlists@.len(),
        within_limits(playlists@[ci as int]@),
    ensures
        members@ == members_of(playlists_of(playlists@), ci as int),
{
    let ghost all = playlists_of(playlists@);
    let composite: &Playlist = &playlists[ci];
    let ghost items = composite@.items;
    assert(all[ci as int] == composite@);
    let list: Vec<(usize, usize)> = segment_ranges(composite);
    let mut members: Vec<CompositeMember> = Vec::new();
    assert(int_ranges(list@).len() == list@.len());
    if list.len() <= 1 {
        return members;
    }
    proof {
        lemma_ranges(items, items.len() as int);
    }
    let mut k: usize = 0;
    while k < list.len()
        invariant
            k <= list.len(),
            ci < playlists@.len(),
            all == playlists_of(playlists@),
            all[ci as int] == composite@,
            composite@ == playlists@[ci as int]@,
            items == composite@.items,
            within_limits(composite@),
            int_ranges(list@) == ranges_or_empty(items),
            forall|j: int|
                0 <= j < list@.len() ==> 0 <= (#[trigger] int_ranges(list@)[j]).0 < int_ranges(
                    list@,
                )[j].1 <= items.len(),
            members@ == members_upto(all, ci as int, k as int),
        decreases list.len() - k,
    {
        let (start, end) = list[k];
        assert(int_ranges(list@)[k as int] == (start as int, end as int));
        let clips: Vec<String> = clip_ids_for_range(composite, start, end);
        let ghost wanted = texts(clips@);
        let mut found: Option<usize> = None;
        let mut mi: usize = 0;
        while found.is_none() && mi < playlists.len()
            invariant
                mi <= playlists.len(),
                all == playlists_of(playlists@),
                wanted == texts(clips@),
                match found {
                    Some(i) => i < playlists.len() && member_from(all, ci as int, wanted, 0) == Some(
                        i as int,
                    ),
                    None => member_from(all, ci as int, wanted, 0) == member_from(
                        all,
                        ci as int,
                        wanted,
                        mi as int,
                    ),
                },
            decreases playlists.len() - mi,
        {
            assert(all[mi as int] == playlists@[mi as int]@);
            if mi != ci && same_clips(&playlists[mi], &clips) {
                found = Some(mi);
            }
            mi = mi + 1;
        }
        if let Some(i) = found {
            let (range_start, range_end) = compute_member_range(
                composite,
                start,
                end,
                &playlists[i],
            );
            assert(all[i as int] == playlists@[i as int]@);
            members.push(
                CompositeMember {
                    playlist: playlists[i].number,
                    segment_index: (k + 1) as u32,
                    range_start,
                    range_end,
                },
            );
        }
        k = k + 1;
    }
    members
}

/// Enters into analysed playlists which others they contain.
pub fn apply_composite_grouping(playlists: &[Playlist], analyzed: &mut [AnalyzedPlaylist])
    requires
        forall|i: int| 0 <= i < playlists@.len() ==> within_limits((#[trigger] playlists@[i])@),
        forall|i: int|
            old(analyzed)@.len() <= i < playlists@.len() ==> (#[trigger] members_of(
                playlists_of(playlists@),
                i,
            )).len() == 0,
    ensures
        final(analyzed)@.len() == old(analyzed)@.len(),
        forall|i: int|
            0 <= i < old(analyzed)@.len() ==> (#[trigger] final(analyzed)@[i])@ == if i
                < playlists@.len() {
                with_members(old(analyzed)@[i]@, members_of(playlists_of(playlists@), i))
            } else {
                old(analyzed)@[i]@
            },
{
    let ghost all = playlists_of(playlists@);
    let ghost before = analyzed@;
    let mut ci: usize = 0;
    while ci < playlists.len()
        invariant
            ci <= playlists.len(),
            all == playlists_of(playlists@),
            before == old(analyzed)@,
            analyzed@.len() == before.len(),
            forall|i: int| 0 <= i < playlists@.len() ==> within_limits((#[trigger] playlists@[i])@),
            forall|i: int|
                before.len() <= i < playlists@.len() ==> (#[trigger] members_of(all, i)).len() == 0,
            forall|i: int|
                0 <= i < before.len() ==> (#[trigger] analyzed@[i])@ == if i < ci {
                    with_members(before[i]@, members_of(all, i))
                } else {
                    before[i]@
                },
        decreases playlists.len() - ci,
    {
        let members: Vec<CompositeMember> = find_members(playlists, ci);
        assert(members@ == members_of(all, ci as int));
        if !members.is_empty() {
            let ghost current = analyzed@;
            analyzed[ci].members = members;
            proof {
                assert(analyzed@[ci as int]@ =~= with_members(
                    before[ci as int]@,
                    members_of(all, ci as int),
                ));
                assert forall|i: int| 0 <= i < before.len() implies (#[trigger] analyzed@[i])@
                    == if i < ci + 1 {
                    with_members(before[i]@, members_of(all, i))
                } else {
                    before[i]@
                } by {
                    if i != ci {
                        assert(analyzed@[i] == current[i]);
                    }
                }
            }
        }
        ci = ci + 1;
    }
}

// ---------------------------------------------------------------------------
// Clips
// ---------------------------------------------------------------------------

/// The estimated size of a clip: 192 bytes a packet.
pub open spec fn clip_size(packets: u32) -> u64 {
    (packets * 192) as u64
}

/// The interactive graphics streams among the first `n` streams: packet
/// identifiers and languages.
pub open spec fn ig_streams_in(streams: Seq<ClipStreamModel>, n: int) -> Seq<(u16, Seq<char>)>
    decreases n,
{
    if n <= 0 {
        seq![]
    } else {
        let before = ig_streams_in(streams, n - 1);
        let s = streams[n - 1];
        if s.coding_type == CODING_TYPE_IG {
            before.push(
                (
                    s.pid,
                    match s.attrs {
                        AttrsModel::Ig { language } => language,
                        _ => seq![],
                    },
                ),
            )
        } else {
            before
        }
    }
}

/// Contents of an [`IgClip`].
#[verifier::ext_equal]
pub struct IgClipModel {
    /// Clip identifier.
    pub clip_id: Seq<char>,
    /// Application type of the clip.
    pub application_type: u8,
    /// Estimated size in bytes.
    pub file_size: u64,
    /// Its interactive graphics streams.
    pub ig_streams: Seq<(u16, Seq<char>)>,
}

impl View for IgStream {
    type V = (u16, Seq<char>);

    open spec fn view(&self) -> (u16, Seq<char>) {
        (self.pid, self.language@)
    }
}

/// The languages of streams.
pub open spec fn texts_of_languages(list: Seq<IgStream>) -> Seq<Seq<char>> {
    list.map_values(|s: IgStream| s.language@)
}

impl View for IgClip {
    type V = IgClipModel;

    open spec fn view(&self) -> IgClipModel {
        IgClipModel {
            clip_id: self.clip_id@,
            application_type: self.application_type,
            file_size: self.file_size,
            ig_streams: self.ig_streams@.map_values(|s: IgStream| s@),
        }
    }
}

/// Contents of clips with interactive graphics.
pub open spec fn ig_clips_of(list: Seq<IgClip>) -> Seq<IgClipModel> {
    list.map_values(|c: IgClip| c@)
}

/// Those of the first `n` clips that have interactive graphics.
pub open spec fn ig_clips_in(clips: Seq<ClipModel>, n: int) -> Seq<IgClipModel>
    decreases n,
{
    if n <= 0 {
        seq![]
    } else {
        let before = ig_clips_in(clips, n - 1);
        let clip = clips[n - 1];
        let found = ig_streams_in(clip.streams, clip.streams.len() as int);
        if found.len() == 0 {
            before
        } else {
            before.push(
                IgClipModel {
                    clip_id: clip.clip_id,
                    application_type: clip.application_type,
                    file_size: clip_size(clip.num_source_packets),
                    ig_streams: found,
                },
            )
        }
    }
}

fn collect_ig_streams(streams: &Vec<ClipStream>) -> (found: Vec<IgStream>)
    ensures
        found@.map_values(|s: IgStream| s@) == ig_streams_in(
            streams_of(streams@),
            streams@.len() as int,
        ),
{
    let ghost all = streams_of(streams@);
    let mut found: Vec<IgStream> = Vec::new();
    let mut i: usize = 0;
    proof {
        assert(found@.map_values(|s: IgStream| s@) =~= seq![]);
    }
    while i < streams.len()
        invariant
            i <= streams.len(),
            all == streams_of(streams@),
            found@.map_values(|s: IgStream| s@) == ig_streams_in(all, i as int),
        decreases streams.len() - i,
    {
        let s: &ClipStream = &streams[i];
        assert(all[i as int] == s@);
        if s.coding_type == CODING_TYPE_IG {
            let language: String = match &s.attrs {
                StreamAttrs::Ig { language } => language.clone(),
                _ => String::new(),
            };
            let ghost before = found@.map_values(|s: IgStream| s@);
            found.push(IgStream { pid: s.pid, language });
            proof {
                assert(found@.map_values(|s: IgStream| s@) =~= before.push((s.pid, language@)));
            }
        }
        i = i + 1;
    }
    found
}

/// Lists the clips with interactive graphics.
pub fn identify_ig_clips(clips: &[ClipInfo]) -> (list: Vec<IgClip>)
    ensures
        ig_clips_of(list@) == ig_clips_in(clip_models(clips@), clips@.len() as int),
{
    let ghost all = clip_models(clips@);
    let mut list: Vec<IgClip> = Vec::new();
    let mut i: usize = 0;
    proof {
        assert(ig_clips_of(list@) =~= seq![]);
    }
    while i < clips.len()
        invariant
            i <= clips.len(),
            all == clip_models(clips@),
            ig_clips_of(list@) == ig_clips_in(all, i as int),
        decreases clips.len() - i,
    {
        let clip: &ClipInfo = &clips[i];
        assert(all[i as int] == clip@);
        let ig_streams: Vec<IgStream> = collect_ig_streams(&clip.streams);
        let ghost found = ig_streams@.map_values(|s: IgStream| s@);
        assert(found.len() == ig_streams@.len());
        if !ig_streams.is_empty() {
            let ghost before = ig_clips_of(list@);
            let entry: IgClip = IgClip {
                clip_id: clip.clip_id.clone(),
                application_type: clip.application_type,
                file_size: clip.num_source_packets as u64 * 192,
                ig_streams,
            };
            list.push(entry);
            proof {
                assert(ig_clips_of(list@) =~= before.push(entry@));
            }
        }
        i = i + 1;
    }
    list
}

/// The name of a coding type.
pub open spec fn coding_name(t: u8) -> Seq<char> {
    if t == 0x01 {
        "MPEG-1"@
    } else if t == 0x02 {
        "MPEG-2"@
    } else if t == 0x03 || t == 0x04 {
        "MPEG Audio"@
    } else if t == 0xEA {
        "VC-1"@
    } else if t == 0x1B {
        "H.264"@
    } else if t == 0x24 {
        "HEVC"@
    } else if t == 0x80 {
        "LPCM"@
    } else if t == 0x81 {
        "AC-3"@
    } else if t == 0x82 {
        "DTS"@
    } else if t == 0x83 {
        "TrueHD"@
    } else if t == 0x84 {
        "E-AC-3"@
    } else if t == 0x85 {
        "DTS-HD HR"@
    } else if t == 0x86 {
        "DTS-HD MA"@
    } else if t == 0x90 {
        "PGS"@
    } else if t == 0x91 {
        "IG"@
    } else if t == 0x92 {
        "Text"@
    } else if t == 0xA1 {
        "E-AC-3 2nd"@
    } else if t == 0xA2 {
        "DTS-HD 2nd"@
    } else {
        "Unknown"@
    }
}

/// Returns the name of a coding type.
pub fn stream_coding_name(coding_type: u8) -> (name: &'static str)
    ensures
        name@ == coding_name(coding_type),
{
    match coding_type {
        0x01 => "MPEG-1",
        0x02 => "MPEG-2",
        0x03 | 0x04 => "MPEG Audio",
        0xEA => "VC-1",
        0x1B => "H.264",
        0x24 => "HEVC",
        0x80 => "LPCM",
        0x81 => "AC-3",
        0x82 => "DTS",
        0x83 => "TrueHD",
        0x84 => "E-AC-3",
        0x85 => "DTS-HD HR",
        0x86 => "DTS-HD MA",
        0x90 => "PGS",
        0x91 => "IG",
        0x92 => "Text",
        0xA1 => "E-AC-3 2nd",
        0xA2 => "DTS-HD 2nd",
        _ => "Unknown",
    }
}

/// Whether a play item refers to a clip, for itself or for an angle.
pub open spec fn item_refers(item: ItemModel, clip_id: Seq<char>) -> bool {
    item.clip_id == clip_id || item.angle_clip_ids.contains(clip_id)
}

/// Whether a playlist refers to a clip.
pub open spec fn playlist_refers(p: PlaylistModel, clip_id: Seq<char>) -> bool {
    exists|k: int| 0 <= k < p.items.len() && item_refers(#[trigger] p.items[k], clip_id)
}

/// Whether one of the playlists refers to a clip.
pub open spec fn refers(all: Seq<PlaylistModel>, clip_id: Seq<char>) -> bool {
    exists|i: int| 0 <= i < all.len() && playlist_refers(#[trigger] all[i], clip_id)
}

/// Contents of an [`UnreferencedClip`].
#[verifier::ext_equal]
pub struct UnreferencedModel {
    /// Clip identifier.
    pub clip_id: Seq<char>,
    /// Whether it has interactive graphics.
    pub has_ig: bool,
    /// Names of the coding types of its streams.
    pub streams: Seq<Seq<char>>,
    /// Estimated size in bytes.
    pub file_size: u64,
}

impl View for UnreferencedClip {
    type V = UnreferencedModel;

    open spec fn view(&self) -> UnreferencedModel {
        UnreferencedModel {
            clip_id: self.clip_id@,
            has_ig: self.has_ig,
            streams: texts(self.streams@),
            file_size: self.file_size,
        }
    }
}

impl UnreferencedClip {
    /// Copies the entry.
    pub fn copy(&self) -> (copy: UnreferencedClip)
        ensures
            copy@ == self@,
    {
        UnreferencedClip {
            clip_id: self.clip_id.clone(),
            has_ig: self.has_ig,
            streams: copy_strings(&self.streams),
            file_size: self.file_size,
        }
    }
}

/// Contents of unreferenced clips.
pub open spec fn unreferenced_of(list: Seq<UnreferencedClip>) -> Seq<UnreferencedModel> {
    list.map_values(|c: UnreferencedClip| c@)
}

/// The entry of a clip that no playlist refers to.
pub open spec fn unreferenced_entry(clip: ClipModel) -> UnreferencedModel {
    UnreferencedModel {
        clip_id: clip.clip_id,
        has_ig: exists|k: int|
            0 <= k < clip.streams.len() && (#[trigger] clip.streams[k]).coding_type
                == CODING_TYPE_IG,
        streams: clip.streams.map_values(|s: ClipStreamModel| coding_name(s.coding_type)),
        file_size: clip_size(clip.num_source_packets),
    }
}

/// Those of the first `n` clips that no playlist refers to.
pub open spec fn unreferenced_in(clips: Seq<ClipModel>, all: Seq<PlaylistModel>, n: int) -> Seq<
    UnreferencedModel,
>
    decreases n,
{
    if n <= 0 {
        seq![]
    } else {
        let before = unreferenced_in(clips, all, n - 1);
        if refers(all, clips[n - 1].clip_id) {
            before
        } else {
            before.push(unreferenced_entry(clips[n - 1]))
        }
    }
}

fn has_text(list: &Vec<String>, text: &String) -> (yes: bool)
    ensures
        yes == texts(list@).contains(text@),
{
    let mut i: usize = 0;
    while i < list.len()
        invariant
            i <= list.len(),
            forall|j: int| 0 <= j < i ==> #[trigger] texts(list@)[j] != text@,
        decreases list.len() - i,
    {
        assert(texts(list@)[i as int] == list@[i as int]@);
        if list[i] == *text {
            return true;
        }
        i = i + 1;
    }
    false
}

fn does_refer(playlists: &[Playlist], clip_id: &String) -> (yes: bool)
    ensures
        yes == refers(playlists_of(playlists@), clip_id@),
{
    let ghost all = playlists_of(playlists@);
    let mut i: usize = 0;
    while i < playlists.len()
        invariant
            i <= playlists.len(),
            all == playlists_of(playlists@),
            forall|j: int| 0 <= j < i ==> !playlist_refers(#[trigger] all[j], clip_id@),
        decreases playlists.len() - i,
    {
        let p: &Playlist = &playlists[i];
        assert(all[i as int] == p@);
        let mut k: usize = 0;
        while k < p.play_items.len()
            invariant
                k <= p.play_items.len(),
                i < playlists.len(),
                all == playlists_of(playlists@),
                all[i as int] == p@,
                forall|j: int| 0 <= j < k ==> !item_refers(#[trigger] p@.items[j], clip_id@),
            decreases p.play_items.len() - k,
        {
            let item: &PlayItem = &p.play_items[k];
            assert(p@.items[k as int] == item@);
            if item.clip_id == *clip_id || has_text(&item.angle_clip_ids, clip_id) {
                assert(item_refers(p@.items[k as int], clip_id@));
                assert(playlist_refers(all[i as int], clip_id@));
                return true;
            }
            k = k + 1;
        }
        i = i + 1;
    }
    false
}

/// Lists the clips that no playlist refers to.
pub fn find_unreferenced_clips(clips: &[ClipInfo], playlists: &[Playlist]) -> (list: Vec<
    UnreferencedClip,
>)
    ensures
        unreferenced_of(list@) == unreferenced_in(
            clip_models(clips@),
            playlists_of(playlists@),
            clips@.len() as int,
        ),
{
    let ghost all = playlists_of(playlists@);
    let ghost models = clip_models(clips@);
    let mut list: Vec<UnreferencedClip> = Vec::new();
    let mut i: usize = 0;
    proof {
        assert(unreferenced_of(list@) =~= seq![]);
    }
    while i < clips.len()
        invariant
            i <= clips.len(),
            all == playlists_of(playlists@),
            models == clip_models(clips@),
            unreferenced_of(list@) == unreferenced_in(models, all, i as int),
        decreases clips.len() - i,
    {
        let clip: &ClipInfo = &clips[i];
        assert(models[i as int] == clip@);
        if !does_refer(playlists, &clip.clip_id) {
            let mut has_ig: bool = false;
            let mut streams: Vec<String> = Vec::new();
            let mut k: usize = 0;
            while k < clip.streams.len()
                invariant
                    k <= clip.streams.len(),
                    has_ig == exists|j: int|
                        0 <= j < k && (#[trigger] clip@.streams[j]).coding_type == CODING_TYPE_IG,
                    streams@.len() == k,
                    forall|j: int|
                        0 <= j < k ==> (#[trigger] streams@[j])@ == coding_name(
                            clip.streams@[j].coding_type,
                        ),
                decreases clip.streams.len() - k,
            {
                let t: u8 = clip.streams[k].coding_type;
                assert(clip@.streams[k as int].coding_type == t);
                if t == CODING_TYPE_IG {
                    has_ig = true;
                }
                streams.push(String::from_str(stream_coding_name(t)));
                k = k + 1;
            }
            let ghost before = unreferenced_of(list@);
            let entry: UnreferencedClip = UnreferencedClip {
                clip_id: clip.clip_id.clone(),
                has_ig,
                streams,
                file_size: clip.num_source_packets as u64 * 192,
            };
            list.push(entry);
            proof {
                assert(entry@.streams =~= unreferenced_entry(clip@).streams);
                assert(entry@ =~= unreferenced_entry(clip@));
                assert(unreferenced_of(list@) =~= before.push(entry@));
            }
        }
        i = i + 1;
    }
    list
}

} // verus!
