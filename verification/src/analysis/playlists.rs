//! What telling playlists apart, finding menus and the main title, and
//! splitting and joining playlists mean for their play items.
use vstd::prelude::*;
use vstd::string::*;

use super::laws::{lemma_best_duplicate, lemma_distinct, lemma_first_of};
use super::{
    analyzed, analyzed_of, best_duplicate, chapter_count, clips_of, distinct, has_clips, int_ranges,
    lemma_ranges, loops, main_index, main_title_of, member_entry, member_from, members_of,
    members_upto, occurrences, preferred, ranges, ranges_or_empty, segments_in, signature,
    signatures, summary_of, ticks, with_members, AnalyzedModel, AnalyzedPlaylist, CompositeMember,
    Segment, StreamSummary,
};
use crate::mpls::{ItemModel, Mark, PlaylistModel, StnModel};

verus! {

// ---------------------------------------------------------------------------
// Duplicates
// ---------------------------------------------------------------------------

/// Whether two play items play the same part of the same clip.
pub open spec fn same_part(a: ItemModel, b: ItemModel) -> bool {
    a.clip_id == b.clip_id && a.in_time == b.in_time && a.out_time == b.out_time
}

/// Whether two playlists play the same parts of the same clips in the same
/// order.
#[verifier::opaque]
pub open spec fn alike(p: PlaylistModel, q: PlaylistModel) -> bool {
    p.items.len() == q.items.len() && forall|i: int|
        0 <= i < p.items.len() ==> same_part(#[trigger] p.items[i], q.items[i])
}

/// The number of streams of the first play item.
pub open spec fn first_streams(p: PlaylistModel) -> nat {
    if p.items.len() > 0 {
        p.items[0].streams.video.len() + p.items[0].streams.audio.len()
            + p.items[0].streams.subtitles.len()
    } else {
        0
    }
}

/// Whether a playlist is kept rather than one that plays the same: for its
/// marks, else for its streams, else for its lower number.
pub open spec fn favoured(p: PlaylistModel, q: PlaylistModel) -> bool {
    if p.marks.len() != q.marks.len() {
        p.marks.len() > q.marks.len()
    } else if first_streams(p) != first_streams(q) {
        first_streams(p) > first_streams(q)
    } else {
        p.number < q.number
    }
}

/// Two playlists count as duplicates exactly if they have equally many play
/// items, and those at the same place have the same clip, the same start and
/// the same end.
pub proof fn law_duplicates_play_the_same(p: PlaylistModel, q: PlaylistModel)
    ensures
        signatures(p) == signatures(q) <==> p.items.len() == q.items.len() && forall|i: int|
            0 <= i < p.items.len() ==> (#[trigger] p.items[i]).clip_id == q.items[i].clip_id
                && p.items[i].in_time == q.items[i].in_time && p.items[i].out_time
                == q.items[i].out_time,
{
    reveal(alike);
    lemma_alike(p, q);
    if alike(p, q) {
        assert forall|i: int| 0 <= i < p.items.len() implies (#[trigger] p.items[i]).clip_id
            == q.items[i].clip_id && p.items[i].in_time == q.items[i].in_time
            && p.items[i].out_time == q.items[i].out_time by {
            assert(same_part(p.items[i], q.items[i]));
        }
    }
}

proof fn lemma_alike(p: PlaylistModel, q: PlaylistModel)
    ensures
        signatures(p) == signatures(q) <==> alike(p, q),
{
    reveal(alike);
    if signatures(p) == signatures(q) {
        assert(signatures(p).len() == p.items.len());
        assert(signatures(q).len() == q.items.len());
        assert forall|i: int| 0 <= i < p.items.len() implies same_part(
            #[trigger] p.items[i],
            q.items[i],
        ) by {
            assert(signatures(p)[i] == signature(p.items[i]));
            assert(signatures(q)[i] == signature(q.items[i]));
        }
    }
    if alike(p, q) {
        assert forall|i: int| 0 <= i < p.items.len() implies signatures(p)[i] == signatures(
            q,
        )[i] by {
            assert(same_part(p.items[i], q.items[i]));
        }
        assert(signatures(p) =~= signatures(q));
    }
}

proof fn lemma_best_is_earliest(all: Seq<PlaylistModel>, i: int, n: int)
    requires
        0 <= i < all.len(),
        0 <= n <= all.len(),
        forall|j: int| 0 <= j < i ==> !alike(#[trigger] all[j], all[i]),
    ensures
        i <= best_duplicate(all, i, n) < all.len(),
        best_duplicate(all, i, n) == i || best_duplicate(all, i, n) < n,
        alike(all[best_duplicate(all, i, n)], all[i]),
        forall|j: int|
            0 <= j < n && alike(#[trigger] all[j], all[i]) ==> favoured(
                all[best_duplicate(all, i, n)],
                all[j],
            ) || (!favoured(all[j], all[best_duplicate(all, i, n)]) && best_duplicate(all, i, n)
                <= j),
    decreases n,
{
    if n > 0 {
        lemma_best_is_earliest(all, i, n - 1);
        lemma_alike(all[n - 1], all[i]);
        assert(n - 1 < i ==> !alike(all[n - 1], all[i]));
        let old = best_duplicate(all, i, n - 1);
        let best = best_duplicate(all, i, n);
        assert(preferred(all[n - 1], all[old]) == favoured(all[n - 1], all[old]));
        assert forall|j: int| 0 <= j < n && alike(#[trigger] all[j], all[i]) implies favoured(
            all[best],
            all[j],
        ) || (!favoured(all[j], all[best]) && best <= j) by {
            if j < n - 1 {
                assert(favoured(all[old], all[j]) || (!favoured(all[j], all[old]) && old <= j));
            }
        }
    } else {
        lemma_alike(all[i], all[i]);
    }
}

/// Which playlists are kept: `from` says which of the given ones, `first`
/// which of those that play the same came first, and `of` which kept one
/// stands for a given one. None of those that play the same is favoured over
/// the kept one, and none that could be kept as well is before it. No two kept
/// ones play the same, and they are in the order in which the first of each
/// kind came.
pub proof fn law_best_of_each_kind_kept(all: Seq<PlaylistModel>) -> (w: (
    Seq<int>,
    Seq<int>,
    Seq<int>,
))
    ensures
        ({
            let (from, first, of) = w;
            let kept = distinct(all, all.len() as int);
            &&& from.len() == kept.len()
            &&& first.len() == kept.len()
            &&& of.len() == all.len()
            &&& forall|i: int|
                0 <= i < kept.len() ==> 0 <= #[trigger] from[i] < all.len() && kept[i]
                    == all[from[i]]
            &&& forall|i: int|
                0 <= i < kept.len() ==> 0 <= #[trigger] first[i] < all.len() && alike(
                    all[first[i]],
                    kept[i],
                )
            &&& forall|i: int, l: int|
                0 <= i < kept.len() && 0 <= l < #[trigger] first[i] ==> !alike(
                    #[trigger] all[l],
                    kept[i],
                )
            &&& forall|i: int, j: int|
                0 <= i < j < kept.len() ==> #[trigger] first[i] < #[trigger] first[j] && !alike(
                    kept[i],
                    kept[j],
                )
            &&& forall|k: int|
                0 <= k < all.len() ==> 0 <= #[trigger] of[k] < kept.len() && alike(
                    all[k],
                    kept[of[k]],
                ) && (favoured(kept[of[k]], all[k]) || (!favoured(all[k], kept[of[k]])
                    && from[of[k]] <= k))
        }),
{
    let n = all.len() as int;
    let kept = distinct(all, n);
    let first = lemma_distinct(all, n);
    let from = Seq::new(first.len(), |i: int| best_duplicate(all, first[i], n));
    let of = Seq::new(
        all.len(),
        |k: int| choose|i: int| 0 <= i < first.len() && first[i] == earliest(all, k),
    );
    assert forall|i: int| 0 <= i < kept.len() implies 0 <= #[trigger] from[i] < all.len()
        && kept[i] == all[from[i]] && signatures(kept[i]) == signatures(all[first[i]]) by {
        assert(0 <= first[i] < n);
        lemma_best_duplicate(all, first[i], n);
    }
    assert forall|i: int| 0 <= i < kept.len() implies 0 <= #[trigger] first[i] < all.len()
        && alike(all[first[i]], kept[i]) by {
        assert(0 <= from[i] < all.len());
        lemma_alike(all[first[i]], kept[i]);
    }
    assert forall|i: int, l: int|
        0 <= i < kept.len() && 0 <= l < #[trigger] first[i] implies !alike(
        #[trigger] all[l],
        kept[i],
    ) by {
        assert(0 <= from[i] < all.len());
        lemma_alike(all[l], kept[i]);
    }
    assert forall|i: int, j: int| 0 <= i < j < kept.len() implies #[trigger] first[i]
        < #[trigger] first[j] && !alike(kept[i], kept[j]) by {
        assert(0 <= from[i] < all.len());
        assert(0 <= from[j] < all.len());
        assert(signatures(all[first[i]]) != signatures(all[first[j]]));
        lemma_alike(kept[i], kept[j]);
    }
    assert forall|k: int| 0 <= k < all.len() implies 0 <= #[trigger] of[k] < kept.len() && alike(
        all[k],
        kept[of[k]],
    ) && (favoured(kept[of[k]], all[k]) || (!favoured(all[k], kept[of[k]]) && from[of[k]]
        <= k)) by {
        lemma_kept_for(all, k, first, of[k]);
        assert(from[of[k]] == best_duplicate(all, first[of[k]], n));
    }
    (from, first, of)
}

/// The first playlist that plays the same as the `k`th.
spec fn earliest(all: Seq<PlaylistModel>, k: int) -> int {
    choose|i: int|
        0 <= i <= k && super::is_first(all, i) && signatures(#[trigger] all[i]) == signatures(
            all[k],
        )
}

proof fn lemma_kept_for(all: Seq<PlaylistModel>, k: int, first: Seq<int>, o: int)
    requires
        0 <= k < all.len(),
        first.len() == distinct(all, all.len() as int).len(),
        forall|i: int|
            0 <= i < first.len() ==> 0 <= #[trigger] first[i] < all.len() && super::is_first(
                all,
                first[i],
            ) && distinct(all, all.len() as int)[i] == all[best_duplicate(
                all,
                first[i],
                all.len() as int,
            )],
        forall|i: int|
            0 <= i < all.len() && super::is_first(all, i) ==> #[trigger] first.contains(i),
        o == choose|i: int| 0 <= i < first.len() && first[i] == earliest(all, k),
    ensures
        0 <= o < first.len(),
        ({
            let best = best_duplicate(all, first[o], all.len() as int);
            &&& 0 <= best < all.len()
            &&& distinct(all, all.len() as int)[o] == all[best]
            &&& alike(all[k], all[best])
            &&& favoured(all[best], all[k]) || (!favoured(all[k], all[best]) && best <= k)
        }),
{
    let n = all.len() as int;
    let e = lemma_first_of(all, k);
    let start = earliest(all, k);
    assert(0 <= start <= k && super::is_first(all, start) && signatures(all[start]) == signatures(
        all[k],
    ));
    assert(first.contains(start));
    assert(0 <= o < first.len() && first[o] == start);
    assert forall|j: int| 0 <= j < start implies !alike(#[trigger] all[j], all[start]) by {
        lemma_alike(all[j], all[start]);
    }
    lemma_best_is_earliest(all, start, n);
    let best = best_duplicate(all, start, n);
    lemma_alike(all[k], all[start]);
    lemma_alike(all[best], all[start]);
    lemma_alike(all[k], all[best]);
}

/// If two playlists differ in the clip, the start or the end of a play item,
/// both kinds are kept: two of the kept ones differ there in the same way.
pub proof fn law_different_parts_kept(all: Seq<PlaylistModel>, x: int, y: int, i: int) -> (kept: (
    int,
    int,
))
    requires
        0 <= x < all.len(),
        0 <= y < all.len(),
        0 <= i < all[x].items.len(),
        0 <= i < all[y].items.len(),
        all[x].items[i].clip_id != all[y].items[i].clip_id || all[x].items[i].in_time
            != all[y].items[i].in_time || all[x].items[i].out_time != all[y].items[i].out_time,
    ensures
        ({
            let list = distinct(all, all.len() as int);
            let (a, b) = kept;
            &&& 0 <= a < list.len()
            &&& 0 <= b < list.len()
            &&& a != b
            &&& i < list[a].items.len()
            &&& i < list[b].items.len()
            &&& list[a].items[i].clip_id == all[x].items[i].clip_id
            &&& list[a].items[i].in_time == all[x].items[i].in_time
            &&& list[a].items[i].out_time == all[x].items[i].out_time
            &&& list[b].items[i].clip_id == all[y].items[i].clip_id
            &&& list[b].items[i].in_time == all[y].items[i].in_time
            &&& list[b].items[i].out_time == all[y].items[i].out_time
        }),
{
    let list = distinct(all, all.len() as int);
    let (from, first, of) = law_best_of_each_kind_kept(all);
    let a = of[x];
    let b = of[y];
    assert(alike(all[x], list[a]));
    assert(alike(all[y], list[b]));
    lemma_same_items(all[x], list[a], i);
    lemma_same_items(all[y], list[b], i);
    (a, b)
}

proof fn lemma_same_items(p: PlaylistModel, q: PlaylistModel, i: int)
    requires
        alike(p, q),
        0 <= i < p.items.len(),
    ensures
        i < q.items.len(),
        same_part(p.items[i], q.items[i]),
{
    reveal(alike);
}

// ---------------------------------------------------------------------------
// Looping menus
// ---------------------------------------------------------------------------

proof fn lemma_occurs(items: Seq<ItemModel>, x: ItemModel)
    ensures
        occurrences(items, signature(x)) >= 1 <==> exists|i: int|
            0 <= i < items.len() && same_part(#[trigger] items[i], x),
        occurrences(items, signature(x)) >= 2 <==> exists|i: int, j: int|
            0 <= i < j < items.len() && same_part(#[trigger] items[i], x) && same_part(
                #[trigger] items[j],
                x,
            ),
        occurrences(items, signature(x)) >= 3 <==> exists|i: int, j: int, k: int|
            0 <= i < j < k < items.len() && same_part(#[trigger] items[i], x) && same_part(
                #[trigger] items[j],
                x,
            ) && same_part(#[trigger] items[k], x),
    decreases items.len(),
{
    if items.len() > 0 {
        let init = items.drop_last();
        let n = items.len() - 1;
        lemma_occurs(init, x);
        let s = signature(x);
        let last = same_part(items[n], x);
        assert(last <==> signature(items.last()) == s);
        if occurrences(items, s) >= 1 {
            if last {
                assert(same_part(items[n], x));
            } else {
                let i = choose|i: int| 0 <= i < init.len() && same_part(#[trigger] init[i], x);
                assert(same_part(items[i], x));
            }
        }
        if exists|i: int| 0 <= i < items.len() && same_part(#[trigger] items[i], x) {
            let i = choose|i: int| 0 <= i < items.len() && same_part(#[trigger] items[i], x);
            if i < n {
                assert(same_part(init[i], x));
            }
        }
        if occurrences(items, s) >= 2 {
            if last {
                let i = choose|i: int| 0 <= i < init.len() && same_part(#[trigger] init[i], x);
                assert(same_part(items[i], x) && same_part(items[n], x));
            } else {
                let (i, j) = choose|i: int, j: int|
                    0 <= i < j < init.len() && same_part(#[trigger] init[i], x) && same_part(
                        #[trigger] init[j],
                        x,
                    );
                assert(same_part(items[i], x) && same_part(items[j], x));
            }
        }
        if exists|i: int, j: int|
            0 <= i < j < items.len() && same_part(#[trigger] items[i], x) && same_part(
                #[trigger] items[j],
                x,
            ) {
            let (i, j) = choose|i: int, j: int|
                0 <= i < j < items.len() && same_part(#[trigger] items[i], x) && same_part(
                    #[trigger] items[j],
                    x,
                );
            assert(same_part(init[i], x));
            if j < n {
                assert(same_part(init[j], x));
            }
        }
        if occurrences(items, s) >= 3 {
            if last {
                let (i, j) = choose|i: int, j: int|
                    0 <= i < j < init.len() && same_part(#[trigger] init[i], x) && same_part(
                        #[trigger] init[j],
                        x,
                    );
                assert(same_part(items[i], x) && same_part(items[j], x) && same_part(items[n], x));
            } else {
                let (i, j, k) = choose|i: int, j: int, k: int|
                    0 <= i < j < k < init.len() && same_part(#[trigger] init[i], x) && same_part(
                        #[trigger] init[j],
                        x,
                    ) && same_part(#[trigger] init[k], x);
                assert(same_part(items[i], x) && same_part(items[j], x) && same_part(items[k], x));
            }
        }
        if exists|i: int, j: int, k: int|
            0 <= i < j < k < items.len() && same_part(#[trigger] items[i], x) && same_part(
                #[trigger] items[j],
                x,
            ) && same_part(#[trigger] items[k], x) {
            let (i, j, k) = choose|i: int, j: int, k: int|
                0 <= i < j < k < items.len() && same_part(#[trigger] items[i], x) && same_part(
                    #[trigger] items[j],
                    x,
                ) && same_part(#[trigger] items[k], x);
            assert(same_part(init[i], x) && same_part(init[j], x));
            if k < n {
                assert(same_part(init[k], x));
            }
        }
    }
}

/// A playlist is a looping menu exactly if three of its play items play the
/// same part of the same clip.
pub proof fn law_looping_means_three_times(items: Seq<ItemModel>)
    ensures
        loops(items) <==> exists|i: int, j: int, k: int|
            0 <= i < j < k < items.len() && same_part(#[trigger] items[i], #[trigger] items[k])
                && same_part(#[trigger] items[j], items[k]),
{
    if loops(items) {
        let m = choose|m: int|
            0 <= m < items.len() && occurrences(items, signature(#[trigger] items[m])) > 2;
        lemma_occurs(items, items[m]);
        let (i, j, k) = choose|i: int, j: int, k: int|
            0 <= i < j < k < items.len() && same_part(#[trigger] items[i], items[m]) && same_part(
                #[trigger] items[j],
                items[m],
            ) && same_part(#[trigger] items[k], items[m]);
        assert(same_part(items[i], items[k]) && same_part(items[j], items[k]));
    }
    if exists|i: int, j: int, k: int|
        0 <= i < j < k < items.len() && same_part(#[trigger] items[i], #[trigger] items[k])
            && same_part(#[trigger] items[j], items[k]) {
        let (i, j, k) = choose|i: int, j: int, k: int|
            0 <= i < j < k < items.len() && same_part(#[trigger] items[i], #[trigger] items[k])
                && same_part(#[trigger] items[j], items[k]);
        lemma_occurs(items, items[k]);
        assert(same_part(items[k], items[k]));
        assert(occurrences(items, signature(items[k])) > 2);
    }
}

// ---------------------------------------------------------------------------
// Lengths and the main title
// ---------------------------------------------------------------------------

/// The length of play items is the sum of theirs: from start to end, and
/// nothing where the end is not after the start.
pub proof fn law_lengths_add_up(items: Seq<ItemModel>, item: ItemModel)
    ensures
        ticks(Seq::empty()) == 0,
        ticks(items.push(item)) == ticks(items) + (if item.out_time > item.in_time {
            item.out_time - item.in_time
        } else {
            0
        }),
{
    assert(items.push(item).drop_last() =~= items);
}

/// The main title is the playlist with the most play items, the longest of
/// those with as many, and the last of the longest. There is one unless there
/// is no playlist.
pub proof fn law_main_title_has_most_items(all: Seq<PlaylistModel>)
    ensures
        all.len() == 0 ==> main_title_of(all) is None,
        all.len() > 0 ==> exists|m: int|
            0 <= m < all.len() && main_title_of(all) == Some((#[trigger] all[m]).number) && forall|
                j: int,
            |
                0 <= j < all.len() ==> (#[trigger] all[j]).items.len() < all[m].items.len() || (
                all[j].items.len() == all[m].items.len() && (ticks(all[j].items) < ticks(
                    all[m].items,
                ) || (ticks(all[j].items) == ticks(all[m].items) && j <= m))),
{
    if all.len() > 0 {
        lemma_main(all, all.len() as int);
        let m = main_index(all, all.len() as int);
        assert(main_title_of(all) == Some(all[m].number));
    }
}

proof fn lemma_main(all: Seq<PlaylistModel>, n: int)
    requires
        0 < n <= all.len(),
    ensures
        0 <= main_index(all, n) < n,
        ({
            let m = main_index(all, n);
            forall|j: int|
                0 <= j < n ==> (#[trigger] all[j]).items.len() < all[m].items.len() || (
                all[j].items.len() == all[m].items.len() && (ticks(all[j].items) < ticks(
                    all[m].items,
                ) || (ticks(all[j].items) == ticks(all[m].items) && j <= m)))
        }),
    decreases n,
{
    if n > 1 {
        lemma_main(all, n - 1);
    }
}

// ---------------------------------------------------------------------------
// Segments
// ---------------------------------------------------------------------------

/// Segments are runs of play items that follow one another: the first starts
/// at the first item, each starts where the one before it ends, and the last
/// ends with the last item. An item starts a new segment exactly if its
/// connection condition is below 5. A segment lists the clips of its items in
/// order, and is as long as they are.
pub proof fn law_segments_are_seamless_runs(items: Seq<ItemModel>)
    ensures
        ({
            let rs = ranges(items, items.len() as int);
            let segments = segments_in(items);
            &&& segments.len() == rs.len()
            &&& items.len() == 0 ==> rs.len() == 0
            &&& items.len() > 0 ==> rs.len() > 0 && rs[0].0 == 0 && rs[rs.len() - 1].1
                == items.len()
            &&& forall|k: int| 0 < k < rs.len() ==> (#[trigger] rs[k]).0 == rs[k - 1].1
            &&& forall|k: int|
                0 <= k < rs.len() ==> 0 <= (#[trigger] rs[k]).0 < rs[k].1 <= items.len()
            &&& forall|k: int|
                0 < k < rs.len() ==> items[(#[trigger] rs[k]).0].connection_condition < 5
            &&& forall|k: int, i: int|
                0 <= k < rs.len() && (#[trigger] rs[k]).0 < i < rs[k].1 ==> (
                #[trigger] items[i]).connection_condition >= 5
            &&& forall|k: int|
                0 <= k < rs.len() ==> (#[trigger] segments[k]).clips.len() == rs[k].1 - rs[k].0
                    && segments[k].duration == ticks(items.subrange(rs[k].0, rs[k].1)) as u64
            &&& forall|k: int, i: int|
                0 <= k < rs.len() && 0 <= i < rs[k].1 - rs[k].0 ==> #[trigger] segments[k].clips[i]
                    == items[rs[k].0 + i].clip_id
        }),
{
    let n = items.len() as int;
    lemma_ranges(items, n);
    super::laws::law_segments_split_at_breaks(items, n);
    let rs = ranges(items, n);
    assert forall|k: int| 0 < k < rs.len() implies items[(
    #[trigger] rs[k]).0].connection_condition < 5 by {
        assert(rs[k].0 == rs[k - 1].1);
        assert(rs[k - 1].0 < rs[k - 1].1);
    }
}

/// The number of chapters counts marks of type 1, and only these.
pub proof fn law_chapters_are_marks_of_type_one(marks: Seq<Mark>, m: Mark)
    ensures
        chapter_count(Seq::empty()) == 0,
        chapter_count(marks.push(m)) == chapter_count(marks) + (if m.mark_type == 1 {
            1nat
        } else {
            0nat
        }),
{
    assert(marks.push(m).drop_last() =~= marks);
}

/// Streams are described one by one: video by codec, resolution and rate,
/// audio by codec, channels and language, subtitles by kind and language.
pub proof fn law_streams_described(s: StnModel)
    ensures
        ({
            let d = summary_of(s);
            &&& d.video.len() == s.video.len()
            &&& d.audio.len() == s.audio.len()
            &&& d.subtitles.len() == s.subtitles.len()
            &&& forall|i: int|
                0 <= i < s.video.len() ==> #[trigger] d.video[i] == s.video[i].0 + seq![' ']
                    + s.video[i].1 + seq![' '] + s.video[i].2
            &&& forall|i: int|
                0 <= i < s.audio.len() ==> #[trigger] d.audio[i] == s.audio[i].0 + seq![' ']
                    + s.audio[i].1 + seq![' '] + s.audio[i].2
            &&& forall|i: int|
                0 <= i < s.subtitles.len() ==> #[trigger] d.subtitles[i] == (if s.subtitles[i].0
                    == 0x92 {
                    seq!['T', 'e', 'x', 't', ' ']
                } else {
                    seq!['P', 'G', 'S', ' ']
                }) + s.subtitles[i].1
        }),
{
    reveal_strlit(" ");
    reveal_strlit("Text ");
    reveal_strlit("PGS ");
    assert(" "@ =~= seq![' ']);
    assert("Text "@ =~= seq!['T', 'e', 'x', 't', ' ']);
    assert("PGS "@ =~= seq!['P', 'G', 'S', ' ']);
}

/// An analysed playlist keeps its number, has the length of all its play
/// items, and the streams of the first one.
pub proof fn law_analysis_of_playlist(p: PlaylistModel)
    ensures
        analyzed(p).number == p.number,
        analyzed(p).duration == ticks(p.items) as u64,
        analyzed(p).chapters == chapter_count(p.marks) as u32,
        analyzed(p).members.len() == 0,
        analyzed(p).segments == segments_in(p.items),
        p.items.len() > 0 ==> analyzed(p).streams == summary_of(p.items[0].streams),
        p.items.len() == 0 ==> analyzed(p).streams.video.len() == 0 && analyzed(
            p,
        ).streams.audio.len() == 0 && analyzed(p).streams.subtitles.len() == 0,
{
}

// ---------------------------------------------------------------------------
// Contained playlists
// ---------------------------------------------------------------------------

/// Whether a playlist has exactly the clips of the play items from `start` up
/// to `end`.
#[verifier::opaque]
pub open spec fn plays_clips(
    p: PlaylistModel,
    items: Seq<ItemModel>,
    start: int,
    end: int,
) -> bool {
    p.items.len() == end - start && forall|i: int|
        0 <= i < p.items.len() ==> (#[trigger] p.items[i]).clip_id == items[start + i].clip_id
}

/// How far into a playlist, which begins at `own`, a part begins at `time`.
pub open spec fn into(time: u32, own: u32) -> int {
    if time > own {
        time - own
    } else {
        0
    }
}

proof fn lemma_plays_clips(p: PlaylistModel, items: Seq<ItemModel>, start: int, end: int)
    requires
        0 <= start <= end <= items.len(),
    ensures
        clips_of(p.items) == clips_of(items.subrange(start, end)) <==> plays_clips(
            p,
            items,
            start,
            end,
        ),
{
    reveal(plays_clips);
    let part = items.subrange(start, end);
    if clips_of(p.items) == clips_of(part) {
        assert(clips_of(p.items).len() == clips_of(part).len());
        assert forall|i: int| 0 <= i < p.items.len() implies (#[trigger] p.items[i]).clip_id
            == items[start + i].clip_id by {
            assert(clips_of(p.items)[i] == clips_of(part)[i]);
        }
    }
    if plays_clips(p, items, start, end) {
        assert(clips_of(p.items) =~= clips_of(part));
    }
}

/// Whether `found` is the first playlist other than the `ci`th that has
/// exactly the clips of play items `start` up to `end` of that one.
#[verifier::opaque]
pub open spec fn first_with(
    all: Seq<PlaylistModel>,
    ci: int,
    start: int,
    end: int,
    found: Option<int>,
) -> bool {
    match found {
        Some(m) => 0 <= m < all.len() && m != ci && plays_clips(
            all[m],
            all[ci].items,
            start,
            end,
        ) && forall|j: int|
            0 <= j < m && j != ci ==> !plays_clips(#[trigger] all[j], all[ci].items, start, end),
        None => forall|j: int|
            0 <= j < all.len() && j != ci ==> !plays_clips(
                #[trigger] all[j],
                all[ci].items,
                start,
                end,
            ),
    }
}

proof fn lemma_first_member(all: Seq<PlaylistModel>, ci: int, start: int, end: int, mi: int)
    requires
        0 <= ci < all.len(),
        0 <= mi,
        0 <= start <= end <= all[ci].items.len(),
        forall|j: int|
            0 <= j < mi && j < all.len() && j != ci ==> !plays_clips(
                #[trigger] all[j],
                all[ci].items,
                start,
                end,
            ),
    ensures
        first_with(
            all,
            ci,
            start,
            end,
            member_from(all, ci, clips_of(all[ci].items.subrange(start, end)), mi),
        ),
    decreases all.len() - mi,
{
    reveal(first_with);
    if mi < all.len() {
        lemma_plays_clips(all[mi], all[ci].items, start, end);
        if !has_clips(all, ci, clips_of(all[ci].items.subrange(start, end)), mi) {
            lemma_first_member(all, ci, start, end, mi + 1);
        }
    }
}

/// Whether an entry describes playlist `m` as segment `k`, which has the play
/// items of the range. It names the playlist and counts segments from one. The
/// part in use starts as far into the playlist as the segment starts after it,
/// and is as long as the segment.
#[verifier::opaque]
pub open spec fn describes_member(
    e: CompositeMember,
    items: Seq<ItemModel>,
    range: (int, int),
    k: int,
    m: PlaylistModel,
) -> bool {
    &&& e.playlist == m.number
    &&& e.segment_index == (k + 1) as u32
    &&& m.items.len() > 0 ==> e.range_start == into(items[range.0].in_time, m.items[0].in_time)
    &&& e.range_end == (e.range_start + ticks(items.subrange(range.0, range.1))) as u64
}

proof fn lemma_describes(items: Seq<ItemModel>, range: (int, int), k: int, m: PlaylistModel)
    ensures
        describes_member(member_entry(items, range, k, m), items, range, k, m),
{
    reveal(describes_member);
}

proof fn lemma_found(all: Seq<PlaylistModel>, ci: int, n: int) -> (w: (
    Seq<int>,
    Seq<Option<int>>,
))
    requires
        0 <= ci < all.len(),
        all[ci].items.len() > 0,
        0 <= n <= ranges(all[ci].items, all[ci].items.len() as int).len(),
    ensures
        ({
            let (segment, found) = w;
            let rs = ranges(all[ci].items, all[ci].items.len() as int);
            let list = members_upto(all, ci, n);
            &&& found.len() == n
            &&& segment.len() == list.len()
            &&& forall|k: int|
                0 <= k < n ==> first_with(all, ci, rs[k].0, rs[k].1, #[trigger] found[k])
            &&& forall|i: int|
                0 <= i < list.len() ==> 0 <= #[trigger] segment[i] < n && found[segment[i]] is Some
                    && describes_member(
                    list[i],
                    all[ci].items,
                    rs[segment[i]],
                    segment[i],
                    all[found[segment[i]]->0],
                )
            &&& forall|i: int, j: int|
                0 <= i < j < list.len() ==> #[trigger] segment[i] < #[trigger] segment[j]
            &&& forall|k: int| 0 <= k < n && #[trigger] found[k] is Some ==> segment.contains(k)
        }),
    decreases n,
{
    let items = all[ci].items;
    let rs = ranges(items, items.len() as int);
    if n == 0 {
        (seq![], seq![])
    } else {
        let (segment, found) = lemma_found(all, ci, n - 1);
        let r = rs[n - 1];
        assert(0 <= r.0 <= r.1 <= items.len()) by {
            lemma_ranges(items, items.len() as int);
        }
        let here = member_from(all, ci, clips_of(items.subrange(r.0, r.1)), 0);
        lemma_first_member(all, ci, r.0, r.1, 0);
        let list = members_upto(all, ci, n);
        let all_found = found.push(here);
        match here {
            Some(m) => {
                let segments = segment.push(n - 1);
                assert(list == members_upto(all, ci, n - 1).push(
                    member_entry(items, r, n - 1, all[m]),
                ));
                lemma_describes(items, r, n - 1, all[m]);
                assert forall|k: int| 0 <= k < n && #[trigger] all_found[k] is Some implies
                    segments.contains(k) by {
                    if k == n - 1 {
                        assert(segments[segment.len() as int] == k);
                    } else {
                        assert(found[k] is Some);
                        let i = choose|i: int| 0 <= i < segment.len() && segment[i] == k;
                        assert(segments[i] == k);
                    }
                }
                (segments, all_found)
            },
            None => {
                assert forall|k: int| 0 <= k < n && #[trigger] all_found[k] is Some implies
                    segment.contains(k) by {
                    assert(found[k] is Some);
                }
                (segment, all_found)
            },
        }
    }
}

/// What a playlist of several segments contains: for each segment of which
/// another playlist has exactly the clips, the first such playlist, in the
/// order of the segments. A playlist of one segment contains nothing. `found`
/// has the playlist of each segment, and `segment` the segment of each entry.
pub proof fn law_members_found(all: Seq<PlaylistModel>, ci: int) -> (w: (
    Seq<int>,
    Seq<Option<int>>,
))
    requires
        0 <= ci < all.len(),
    ensures
        ({
            let (segment, found) = w;
            let rs = ranges(all[ci].items, all[ci].items.len() as int);
            let list = members_of(all, ci);
            &&& rs.len() <= 1 ==> list.len() == 0
            &&& rs.len() > 1 ==> {
                &&& found.len() == rs.len()
                &&& segment.len() == list.len()
                &&& forall|k: int|
                    0 <= k < rs.len() ==> first_with(
                        all,
                        ci,
                        rs[k].0,
                        rs[k].1,
                        #[trigger] found[k],
                    )
                &&& forall|i: int|
                    0 <= i < list.len() ==> 0 <= #[trigger] segment[i] < rs.len()
                        && found[segment[i]] is Some && describes_member(
                        list[i],
                        all[ci].items,
                        rs[segment[i]],
                        segment[i],
                        all[found[segment[i]]->0],
                    )
                &&& forall|i: int, j: int|
                    0 <= i < j < list.len() ==> #[trigger] segment[i] < #[trigger] segment[j]
                &&& forall|k: int|
                    0 <= k < rs.len() && #[trigger] found[k] is Some ==> segment.contains(k)
            }
        }),
{
    let rs = ranges(all[ci].items, all[ci].items.len() as int);
    lemma_ranges(all[ci].items, all[ci].items.len() as int);
    if rs.len() > 1 {
        lemma_found(all, ci, rs.len() as int)
    } else {
        (seq![], seq![])
    }
}

/// An analysed playlist gets the members that were found and changes in
/// nothing else.
pub proof fn law_members_entered(a: AnalyzedModel, members: Seq<CompositeMember>)
    ensures
        ({
            let now = with_members(a, members);
            &&& members.len() > 0 ==> now.members == members
            &&& members.len() == 0 ==> now.members == a.members
            &&& now.number == a.number
            &&& now.duration == a.duration
            &&& now.chapters == a.chapters
            &&& now.segments == a.segments
            &&& now.streams == a.streams
        }),
{
}

/// What an analysed playlist, its segments and its streams hold is what their
/// contents say.
pub proof fn law_analysis_contents(
    p: AnalyzedPlaylist,
    s: Segment,
    t: StreamSummary,
    list: Seq<AnalyzedPlaylist>,
    i: int,
)
    ensures
        p@.number == p.number,
        p@.duration == p.duration,
        p@.chapters == p.chapters,
        p@.segments.len() == p.segments@.len(),
        0 <= i < p.segments@.len() ==> p@.segments[i] == p.segments@[i]@,
        p@.streams == p.streams@,
        p@.members == p.members@,
        s@.clips.len() == s.clips@.len(),
        0 <= i < s.clips@.len() ==> s@.clips[i] == s.clips@[i]@,
        s@.duration == s.duration,
        t@.video.len() == t.video@.len(),
        0 <= i < t.video@.len() ==> t@.video[i] == t.video@[i]@,
        t@.audio.len() == t.audio@.len(),
        0 <= i < t.audio@.len() ==> t@.audio[i] == t.audio@[i]@,
        t@.subtitles.len() == t.subtitles@.len(),
        0 <= i < t.subtitles@.len() ==> t@.subtitles[i] == t.subtitles@[i]@,
        analyzed_of(list).len() == list.len(),
        0 <= i < list.len() ==> analyzed_of(list)[i] == list[i]@,
{
}

/// Ranges of indices are the same as integers.
pub proof fn law_ranges_as_integers(list: Seq<(usize, usize)>, i: int)
    ensures
        int_ranges(list).len() == list.len(),
        0 <= i < list.len() ==> int_ranges(list)[i] == (list[i].0 as int, list[i].1 as int),
        ranges_or_empty(Seq::empty()) == seq![(0int, 0int)],
{
}

} // verus!
