//! Laws of the analysis: segments, duplicates, the main title, contained
//! playlists and clips.
use vstd::prelude::*;

use super::{
    best_duplicate, breaks, clips_of, distinct, has_clips, ig_clips_in, ig_streams_in, is_first,
    lemma_ranges, lemma_ticks_add, lemma_ticks_take, main_index, member_entry, member_from,
    members_of, members_upto, outranks, preferred, ranges, ranges_or_empty, refers, segment_at,
    segments_in, signature, signatures, ticks, unreferenced_entry, unreferenced_in, within_limits,
    CompositeMember, SegmentModel,
};
use crate::clpi::ClipModel;
use crate::mpls::{ItemModel, PlaylistModel};

verus! {

// ---------------------------------------------------------------------------
// Lengths
// ---------------------------------------------------------------------------

proof fn lemma_ticks_bound(items: Seq<ItemModel>)
    ensures
        ticks(items) <= items.len() * 0xFFFF_FFFF,
    decreases items.len(),
{
    if items.len() > 0 {
        lemma_ticks_bound(items.drop_last());
    }
}

/// A playlist with at most 2^32 play items can be analysed.
pub proof fn law_playlists_within_limits(p: PlaylistModel)
    requires
        p.items.len() <= 0x1_0000_0000,
    ensures
        within_limits(p),
{
    lemma_ticks_bound(p.items);
    assert(p.items.len() * 0xFFFF_FFFF <= 0x1_0000_0000 * 0xFFFF_FFFF) by (nonlinear_arith)
        requires
            p.items.len() <= 0x1_0000_0000,
    ;
}

// ---------------------------------------------------------------------------
// Segments
// ---------------------------------------------------------------------------

/// The clips of segments, one segment after another.
pub open spec fn all_clips(segments: Seq<SegmentModel>) -> Seq<Seq<char>>
    decreases segments.len(),
{
    if segments.len() == 0 {
        seq![]
    } else {
        all_clips(segments.drop_last()) + segments.last().clips
    }
}

/// The length of segments.
pub open spec fn total_length(segments: Seq<SegmentModel>) -> nat
    decreases segments.len(),
{
    if segments.len() == 0 {
        0
    } else {
        total_length(segments.drop_last()) + segments.last().duration as nat
    }
}

spec fn segments_upto(items: Seq<ItemModel>, n: int) -> Seq<SegmentModel> {
    ranges(items, n).map_values(|r: (int, int)| segment_at(items, r))
}

proof fn lemma_part_within(items: Seq<ItemModel>, a: int, b: int)
    requires
        0 <= a <= b <= items.len(),
        ticks(items) <= u64::MAX,
    ensures
        ticks(items.subrange(a, b)) <= u64::MAX,
        ticks(items.take(b)) == ticks(items.take(a)) + ticks(items.subrange(a, b)),
{
    lemma_ticks_take(items, b);
    assert(items.take(b) =~= items.take(a) + items.subrange(a, b));
    lemma_ticks_add(items.take(a), items.subrange(a, b));
}

proof fn lemma_segments_cover(items: Seq<ItemModel>, n: int)
    requires
        0 <= n <= items.len(),
        ticks(items) <= u64::MAX,
    ensures
        all_clips(segments_upto(items, n)) == clips_of(items.take(n)),
        total_length(segments_upto(items, n)) == ticks(items.take(n)),
    decreases n,
{
    let now = segments_upto(items, n);
    if n == 0 {
        assert(all_clips(now) =~= clips_of(items.take(0)));
    } else {
        lemma_segments_cover(items, n - 1);
        lemma_ranges(items, n - 1);
        let rs = ranges(items, n - 1);
        let before = segments_upto(items, n - 1);
        assert(clips_of(items.take(n)) =~= clips_of(items.take(n - 1)).push(
            items[n - 1].clip_id,
        ));
        lemma_part_within(items, n - 1, n);
        if rs.len() == 0 || breaks(items[n - 1]) {
            assert(now.drop_last() =~= before);
            assert(now.last() == segment_at(items, (n - 1, n)));
            assert(clips_of(items.subrange(n - 1, n)) =~= seq![items[n - 1].clip_id]);
            assert(all_clips(now) =~= clips_of(items.take(n)));
        } else {
            let a = rs.last().0;
            assert(rs.last().1 == n - 1);
            assert(now.drop_last() =~= before.drop_last());
            assert(before.last() == segment_at(items, (a, n - 1)));
            assert(now.last() == segment_at(items, (a, n)));
            assert(clips_of(items.subrange(a, n)) =~= clips_of(items.subrange(a, n - 1)).push(
                items[n - 1].clip_id,
            ));
            assert(all_clips(now) =~= all_clips(before).push(items[n - 1].clip_id));
            lemma_part_within(items, a, n);
            lemma_part_within(items, a, n - 1);
        }
    }
}

/// The segments of a playlist hold its clips, one segment after another, and
/// their lengths add up to that of the playlist.
pub proof fn law_segments_cover_playlist(items: Seq<ItemModel>)
    requires
        ticks(items) <= u64::MAX,
    ensures
        all_clips(segments_in(items)) == clips_of(items),
        total_length(segments_in(items)) == ticks(items),
{
    lemma_segments_cover(items, items.len() as int);
    assert(items.take(items.len() as int) =~= items);
}

/// No segment is empty. A segment starts at the first play item or at one that
/// does not join the one before it seamlessly, and goes on while they do.
pub proof fn law_segments_split_at_breaks(items: Seq<ItemModel>, n: int)
    requires
        0 <= n <= items.len(),
    ensures
        forall|k: int|
            0 <= k < ranges(items, n).len() ==> {
                let r = #[trigger] ranges(items, n)[k];
                &&& 0 <= r.0 < r.1 <= n
                &&& r.0 == 0 || breaks(items[r.0])
            },
        forall|k: int, i: int|
            0 <= k < ranges(items, n).len() && (#[trigger] ranges(items, n)[k]).0 < i < ranges(
                items,
                n,
            )[k].1 ==> !breaks(#[trigger] items[i]),
    decreases n,
{
    if n > 0 {
        law_segments_split_at_breaks(items, n - 1);
        lemma_ranges(items, n - 1);
        let before = ranges(items, n - 1);
        let now = ranges(items, n);
        assert forall|k: int, i: int|
            0 <= k < now.len() && (#[trigger] now[k]).0 < i < now[k].1 implies !breaks(
            #[trigger] items[i],
        ) by {
            if k < before.len() {
                assert(now[k].0 == before[k].0);
                if i < before[k].1 {
                    assert(!breaks(items[i]));
                }
            }
        }
    }
}

// ---------------------------------------------------------------------------
// Duplicates
// ---------------------------------------------------------------------------

pub(crate) proof fn lemma_best_duplicate(all: Seq<PlaylistModel>, i: int, n: int)
    requires
        0 <= i < all.len(),
        0 <= n <= all.len(),
    ensures
        0 <= best_duplicate(all, i, n) < all.len(),
        signatures(all[best_duplicate(all, i, n)]) == signatures(all[i]),
        forall|j: int|
            0 <= j < n && signatures(#[trigger] all[j]) == signatures(all[i]) ==> !preferred(
                all[j],
                all[best_duplicate(all, i, n)],
            ),
    decreases n,
{
    if n > 0 {
        lemma_best_duplicate(all, i, n - 1);
    }
}

/// Where the kept playlists come from: for each the first of its duplicates.
pub(crate) proof fn lemma_distinct(all: Seq<PlaylistModel>, n: int) -> (from: Seq<int>)
    requires
        0 <= n <= all.len(),
    ensures
        from.len() == distinct(all, n).len(),
        forall|k: int|
            0 <= k < from.len() ==> 0 <= #[trigger] from[k] < n && is_first(all, from[k])
                && distinct(all, n)[k] == all[best_duplicate(all, from[k], all.len() as int)],
        forall|k: int, m: int| 0 <= k < m < from.len() ==> #[trigger] from[k] < #[trigger] from[m],
        forall|i: int| 0 <= i < n && is_first(all, i) ==> #[trigger] from.contains(i),
    decreases n,
{
    if n == 0 {
        seq![]
    } else {
        let before = lemma_distinct(all, n - 1);
        if is_first(all, n - 1) {
            let now = before.push(n - 1);
            assert forall|i: int| 0 <= i < n && is_first(all, i) implies #[trigger] now.contains(
                i,
            ) by {
                if i == n - 1 {
                    assert(now[before.len() as int] == i);
                } else {
                    assert(before.contains(i));
                    let k = choose|k: int| 0 <= k < before.len() && before[k] == i;
                    assert(now[k] == i);
                }
            }
            now
        } else {
            before
        }
    }
}

pub(crate) proof fn lemma_first_of(all: Seq<PlaylistModel>, i: int) -> (first: int)
    requires
        0 <= i < all.len(),
    ensures
        0 <= first <= i,
        is_first(all, first),
        signatures(all[first]) == signatures(all[i]),
    decreases i,
{
    if is_first(all, i) {
        i
    } else {
        let j = choose|j: int| 0 <= j < i && signatures(#[trigger] all[j]) == signatures(all[i]);
        lemma_first_of(all, j)
    }
}

/// No two kept playlists are duplicates.
pub proof fn law_kept_playlists_differ(all: Seq<PlaylistModel>, k: int, m: int)
    requires
        0 <= k < m < distinct(all, all.len() as int).len(),
    ensures
        signatures(distinct(all, all.len() as int)[k]) != signatures(
            distinct(all, all.len() as int)[m],
        ),
{
    let from = lemma_distinct(all, all.len() as int);
    lemma_best_duplicate(all, from[k], all.len() as int);
    lemma_best_duplicate(all, from[m], all.len() as int);
    assert(from[k] < from[m]);
    assert(signatures(all[from[k]]) != signatures(all[from[m]]));
}

/// Of every playlist a duplicate is kept to which it is not preferred, and
/// every kept playlist is one of the given ones.
pub proof fn law_preferred_duplicate_kept(all: Seq<PlaylistModel>, i: int)
    requires
        0 <= i < all.len(),
    ensures
        exists|k: int|
            0 <= k < distinct(all, all.len() as int).len() && signatures(
                #[trigger] distinct(all, all.len() as int)[k],
            ) == signatures(all[i]) && !preferred(all[i], distinct(all, all.len() as int)[k]),
        forall|k: int|
            0 <= k < distinct(all, all.len() as int).len() ==> all.contains(
                #[trigger] distinct(all, all.len() as int)[k],
            ),
{
    let n = all.len() as int;
    let from = lemma_distinct(all, n);
    let first = lemma_first_of(all, i);
    lemma_best_duplicate(all, first, n);
    assert(from.contains(first));
    let k = choose|k: int| 0 <= k < from.len() && from[k] == first;
    assert(distinct(all, n)[k] == all[best_duplicate(all, first, n)]);
    assert forall|m: int| 0 <= m < distinct(all, n).len() implies all.contains(
        #[trigger] distinct(all, n)[m],
    ) by {
        lemma_best_duplicate(all, from[m], n);
        assert(all[best_duplicate(all, from[m], n)] == distinct(all, n)[m]);
    }
}

// ---------------------------------------------------------------------------
// The main title
// ---------------------------------------------------------------------------

/// The main title has the most play items, and is the longest of those with
/// as many.
pub proof fn law_main_title_outranks(all: Seq<PlaylistModel>, n: int)
    requires
        0 < n <= all.len(),
    ensures
        0 <= main_index(all, n) < n,
        forall|j: int| 0 <= j < n ==> outranks(all[main_index(all, n)], #[trigger] all[j]),
    decreases n,
{
    if n > 1 {
        law_main_title_outranks(all, n - 1);
    }
}

// ---------------------------------------------------------------------------
// Contained playlists
// ---------------------------------------------------------------------------

proof fn lemma_member_from(all: Seq<PlaylistModel>, ci: int, clips: Seq<Seq<char>>, mi: int)
    requires
        0 <= mi,
    ensures
        member_from(all, ci, clips, mi) matches Some(k) ==> mi <= k < all.len() && has_clips(
            all,
            ci,
            clips,
            k,
        ),
    decreases all.len() - mi,
{
    if mi < all.len() {
        lemma_member_from(all, ci, clips, mi + 1);
    }
}

/// Whether an entry is that of another playlist with the clips of segment `k`.
pub open spec fn fits_segment(
    all: Seq<PlaylistModel>,
    ci: int,
    m: CompositeMember,
    k: int,
    mi: int,
) -> bool {
    let items = all[ci].items;
    let range = ranges_or_empty(items)[k];
    &&& 0 <= k < ranges_or_empty(items).len()
    &&& 0 <= mi < all.len()
    &&& mi != ci
    &&& clips_of(all[mi].items) == clips_of(items.subrange(range.0, range.1))
    &&& m == member_entry(items, range, k, all[mi])
}

proof fn lemma_members_upto(all: Seq<PlaylistModel>, ci: int, n: int)
    requires
        0 <= n <= ranges_or_empty(all[ci].items).len(),
    ensures
        forall|i: int|
            0 <= i < members_upto(all, ci, n).len() ==> is_segment(
                all,
                ci,
                #[trigger] members_upto(all, ci, n)[i],
            ),
    decreases n,
{
    if n > 0 {
        lemma_members_upto(all, ci, n - 1);
        let before = members_upto(all, ci, n - 1);
        let now = members_upto(all, ci, n);
        let items = all[ci].items;
        let range = ranges_or_empty(items)[n - 1];
        let clips = clips_of(items.subrange(range.0, range.1));
        lemma_member_from(all, ci, clips, 0);
        if let Some(mi) = member_from(all, ci, clips, 0) {
            assert(fits_segment(all, ci, now.last(), n - 1, mi));
        }
        assert forall|i: int| 0 <= i < now.len() implies is_segment(
            all,
            ci,
            #[trigger] now[i],
        ) by {
            if i < before.len() {
                assert(now[i] == before[i]);
            }
        }
    }
}

/// Whether an entry is that of another playlist with the clips of a segment.
pub open spec fn is_segment(
    all: Seq<PlaylistModel>,
    ci: int,
    m: CompositeMember,
) -> bool {
    exists|k: int, mi: int| fits_segment(all, ci, m, k, mi)
}

/// What a playlist is said to contain are other playlists, each with exactly
/// the clips of one of its segments; a playlist with one segment contains
/// none.
pub proof fn law_members_are_segments(all: Seq<PlaylistModel>, ci: int)
    ensures
        forall|i: int|
            0 <= i < members_of(all, ci).len() ==> is_segment(
                all,
                ci,
                #[trigger] members_of(all, ci)[i],
            ),
        members_of(all, ci).len() <= ranges_or_empty(all[ci].items).len(),
        ranges_or_empty(all[ci].items).len() <= 1 ==> members_of(all, ci).len() == 0,
{
    let count = ranges_or_empty(all[ci].items).len() as int;
    lemma_members_upto(all, ci, count);
    lemma_members_count(all, ci, count);
}

proof fn lemma_same_ticks(a: Seq<ItemModel>, b: Seq<ItemModel>)
    requires
        a.len() == b.len(),
        forall|i: int| 0 <= i < a.len() ==> signature(#[trigger] a[i]) == signature(b[i]),
    ensures
        ticks(a) == ticks(b),
    decreases a.len(),
{
    if a.len() > 0 {
        assert forall|i: int| 0 <= i < a.drop_last().len() implies signature(
            #[trigger] a.drop_last()[i],
        ) == signature(b.drop_last()[i]) by {
            assert(signature(a[i]) == signature(b[i]));
        }
        assert(signature(a[a.len() - 1]) == signature(b[b.len() - 1]));
        lemma_same_ticks(a.drop_last(), b.drop_last());
    }
}

/// Where a segment plays the same parts of clips as a contained playlist, the
/// part that is used is the whole of it.
pub proof fn law_whole_member_used(
    items: Seq<ItemModel>,
    range: (int, int),
    k: int,
    member: PlaylistModel,
)
    requires
        0 <= range.0 < range.1 <= items.len(),
        member.items.len() == range.1 - range.0,
        forall|i: int|
            0 <= i < member.items.len() ==> signature(#[trigger] member.items[i]) == signature(
                items[range.0 + i],
            ),
    ensures
        member_entry(items, range, k, member).range_start == 0,
        member_entry(items, range, k, member).range_end == ticks(member.items) as u64,
{
    let part = items.subrange(range.0, range.1);
    assert(signature(member.items[0]) == signature(items[range.0]));
    assert forall|i: int| 0 <= i < member.items.len() implies signature(#[trigger] member.items[i])
        == signature(part[i]) by {
        assert(part[i] == items[range.0 + i]);
    }
    lemma_same_ticks(member.items, part);
}

proof fn lemma_members_count(all: Seq<PlaylistModel>, ci: int, n: int)
    requires
        0 <= n,
    ensures
        members_upto(all, ci, n).len() <= n,
    decreases n,
{
    if n > 0 {
        lemma_members_count(all, ci, n - 1);
    }
}

// ---------------------------------------------------------------------------
// Clips
// ---------------------------------------------------------------------------

/// A clip is listed as unreferenced exactly if no playlist refers to it, with
/// its own entry.
pub proof fn law_unreferenced_clips_listed(
    clips: Seq<ClipModel>,
    all: Seq<PlaylistModel>,
    n: int,
)
    requires
        0 <= n <= clips.len(),
    ensures
        forall|i: int|
            0 <= i < n && !refers(all, (#[trigger] clips[i]).clip_id) ==> unreferenced_in(
                clips,
                all,
                n,
            ).contains(unreferenced_entry(clips[i])),
        forall|k: int|
            0 <= k < unreferenced_in(clips, all, n).len() ==> !refers(
                all,
                (#[trigger] unreferenced_in(clips, all, n)[k]).clip_id,
            ),
    decreases n,
{
    if n > 0 {
        law_unreferenced_clips_listed(clips, all, n - 1);
        let before = unreferenced_in(clips, all, n - 1);
        let now = unreferenced_in(clips, all, n);
        assert forall|i: int|
            0 <= i < n && !refers(all, (#[trigger] clips[i]).clip_id) implies now.contains(
            unreferenced_entry(clips[i]),
        ) by {
            if i == n - 1 {
                assert(now.last() == unreferenced_entry(clips[i]));
            } else {
                assert(before.contains(unreferenced_entry(clips[i])));
                let k = choose|k: int|
                    0 <= k < before.len() && before[k] == unreferenced_entry(clips[i]);
                assert(now[k] == before[k]);
            }
        }
    }
}

/// Every clip listed with interactive graphics has a stream of them, and a
/// clip with such a stream is listed.
pub proof fn law_ig_clips_listed(clips: Seq<ClipModel>, n: int)
    requires
        0 <= n <= clips.len(),
    ensures
        forall|k: int|
            0 <= k < ig_clips_in(clips, n).len() ==> (
            #[trigger] ig_clips_in(clips, n)[k]).ig_streams.len() > 0,
        forall|i: int|
            0 <= i < n && ig_streams_in(
                (#[trigger] clips[i]).streams,
                clips[i].streams.len() as int,
            ).len() > 0 ==> exists|k: int|
                0 <= k < ig_clips_in(clips, n).len() && (
                #[trigger] ig_clips_in(clips, n)[k]).clip_id == clips[i].clip_id,
    decreases n,
{
    if n > 0 {
        law_ig_clips_listed(clips, n - 1);
        let before = ig_clips_in(clips, n - 1);
        let now = ig_clips_in(clips, n);
        assert forall|i: int|
            0 <= i < n && ig_streams_in(
                (#[trigger] clips[i]).streams,
                clips[i].streams.len() as int,
            ).len() > 0 implies exists|k: int|
            0 <= k < now.len() && (#[trigger] now[k]).clip_id == clips[i].clip_id by {
            if i == n - 1 {
                assert(now[before.len() as int].clip_id == clips[i].clip_id);
            } else {
                let k = choose|k: int|
                    0 <= k < before.len() && (#[trigger] before[k]).clip_id == clips[i].clip_id;
                assert(now[k] == before[k]);
            }
        }
    }
}

} // verus!
