//! Laws of the inventory: which button each entry comes from, and what the
//! entry takes over from it and from its playlist.
use vstd::prelude::*;

use super::{
    buttons_of, candidates, chosen, composite, entry, firsts, known,
    law_rank_prefers_paths_and_pages, lemma_chosen, lemma_earliest, listed, navigable, navigable_of,
    rank, ranked, repeated, same_page, same_target, siblings, with_ranks, ButtonModel, MenuButton,
    NavigableContent,
};
use crate::disc::BdmvAnalysis;
use crate::report::number_is;
use crate::seqs::{law_first_comes_first, law_sorting_is_stable};

verus! {

/// Whether the content of a button is wanted: a playlist of its number is
/// there, none of that number contains others, and the title table registers
/// the number if there is a table.
pub open spec fn wanted(a: BdmvAnalysis, b: ButtonModel) -> bool {
    &&& exists|j: int|
        0 <= j < a.playlists@.len() && (#[trigger] a.playlists@[j]).number == b.playlist
    &&& forall|j: int|
        0 <= j < a.playlists@.len() && (#[trigger] a.playlists@[j]).number == b.playlist
            ==> a.playlists@[j].members@.len() == 0
    &&& a.title_playlists@ == Set::<u32>::empty() || a.title_playlists@.contains(
        b.playlist as u32,
    )
}

/// The clip and the page of the last press of a button, and its own if it has
/// none.
pub open spec fn page_key(b: ButtonModel) -> (usize, u8) {
    if b.breadcrumb.len() == 0 {
        (b.place.clip_index, b.place.page_id)
    } else {
        (
            b.breadcrumb[b.breadcrumb.len() - 1].clip_index,
            b.breadcrumb[b.breadcrumb.len() - 1].page_id,
        )
    }
}

/// How many of the first `n` buttons have wanted content on the same page.
pub open spec fn crowd(a: BdmvAnalysis, buttons: Seq<ButtonModel>, b: ButtonModel, n: int) -> nat
    decreases n,
{
    if n <= 0 {
        0
    } else if wanted(a, buttons[n - 1]) && page_key(buttons[n - 1]) == page_key(b) {
        crowd(a, buttons, b, n - 1) + 1
    } else {
        crowd(a, buttons, b, n - 1)
    }
}

/// Whether a button shows content better than another: it has presses and the
/// other has none, or they are alike in that and its page is fuller.
pub open spec fn better(
    a: BdmvAnalysis,
    buttons: Seq<ButtonModel>,
    b: ButtonModel,
    c: ButtonModel,
) -> bool {
    let n = buttons.len() as int;
    ||| b.breadcrumb.len() > 0 && c.breadcrumb.len() == 0
    ||| (b.breadcrumb.len() == 0 <==> c.breadcrumb.len() == 0) && crowd(a, buttons, b, n) > crowd(
        a,
        buttons,
        c,
        n,
    )
}

/// Whether two buttons play the same playlist from the same place.
pub open spec fn play_alike(b: ButtonModel, c: ButtonModel) -> bool {
    b.playlist == c.playlist && b.branch_opt == c.branch_opt && b.mark_or_pi == c.mark_or_pi
}

proof fn lemma_wanted(a: BdmvAnalysis, b: ButtonModel)
    ensures
        listed(a, b) == wanted(a, b),
{
    if a.title_playlists@.is_empty() {
        assert(a.title_playlists@ =~= Set::<u32>::empty());
    }
    if wanted(a, b) {
        let j = choose|j: int|
            0 <= j < a.playlists@.len() && (#[trigger] a.playlists@[j]).number == b.playlist;
        assert(known(a, b.playlist as u32));
    }
    if listed(a, b) {
        assert forall|j: int|
            0 <= j < a.playlists@.len() && (
            #[trigger] a.playlists@[j]).number == b.playlist implies a.playlists@[j].members@.len()
            == 0 by {
            assert(!composite(a, b.playlist as u32));
        }
    }
}

proof fn lemma_candidates_from(a: BdmvAnalysis, buttons: Seq<ButtonModel>, n: int) -> (from: Seq<
    int,
>)
    requires
        0 <= n <= buttons.len(),
    ensures
        from.len() == candidates(a, buttons, n).len(),
        from.len() <= n,
        forall|i: int|
            0 <= i < from.len() ==> 0 <= #[trigger] from[i] < n && candidates(a, buttons, n)[i]
                == buttons[from[i]] && wanted(a, buttons[from[i]]),
        forall|i: int, j: int| 0 <= i < j < from.len() ==> #[trigger] from[i] < #[trigger] from[j],
        forall|k: int| 0 <= k < n && wanted(a, buttons[k]) ==> #[trigger] from.contains(k),
    decreases n,
{
    if n == 0 {
        seq![]
    } else {
        let before = lemma_candidates_from(a, buttons, n - 1);
        lemma_wanted(a, buttons[n - 1]);
        if wanted(a, buttons[n - 1]) {
            let from = before.push(n - 1);
            assert forall|k: int| 0 <= k < n && wanted(a, buttons[k]) implies
                #[trigger] from.contains(k) by {
                if k == n - 1 {
                    assert(from[before.len() as int] == k);
                } else {
                    assert(before.contains(k));
                    let i = choose|i: int| 0 <= i < before.len() && before[i] == k;
                    assert(from[i] == k);
                }
            }
            from
        } else {
            before
        }
    }
}

proof fn lemma_crowd(a: BdmvAnalysis, buttons: Seq<ButtonModel>, b: ButtonModel, n: int)
    requires
        0 <= n <= buttons.len(),
    ensures
        siblings(candidates(a, buttons, n), b) == crowd(a, buttons, b, n),
    decreases n,
{
    if n > 0 {
        lemma_crowd(a, buttons, b, n - 1);
        lemma_wanted(a, buttons[n - 1]);
        if wanted(a, buttons[n - 1]) {
            let list = candidates(a, buttons, n);
            assert(list.drop_last() =~= candidates(a, buttons, n - 1));
            assert(same_page(buttons[n - 1], b) <==> page_key(buttons[n - 1]) == page_key(b));
        }
    }
}

proof fn lemma_firsts_from(list: Seq<(u128, ButtonModel)>, n: int) -> (from: Seq<int>)
    requires
        0 <= n <= list.len(),
    ensures
        from.len() == firsts(list, n).len(),
        forall|i: int|
            0 <= i < from.len() ==> 0 <= #[trigger] from[i] < n && firsts(list, n)[i]
                == list[from[i]].1 && !repeated(list, from[i]),
        forall|i: int, j: int| 0 <= i < j < from.len() ==> #[trigger] from[i] < #[trigger] from[j],
        forall|k: int| 0 <= k < n && !repeated(list, k) ==> #[trigger] from.contains(k),
    decreases n,
{
    if n == 0 {
        seq![]
    } else {
        let before = lemma_firsts_from(list, n - 1);
        if !repeated(list, n - 1) {
            let from = before.push(n - 1);
            assert forall|k: int| 0 <= k < n && !repeated(list, k) implies #[trigger] from.contains(
                k,
            ) by {
                if k == n - 1 {
                    assert(from[before.len() as int] == k);
                } else {
                    assert(before.contains(k));
                    let i = choose|i: int| 0 <= i < before.len() && before[i] == k;
                    assert(from[i] == k);
                }
            }
            from
        } else {
            before
        }
    }
}

/// Every entry comes from one of the buttons whose content is wanted, and there
/// is one for everything that such a button plays. Of the buttons that play
/// the same none is better than the one that the entry comes from, and none as
/// good is before it. No two entries play the same. Entries from better buttons
/// come first, those from equally good ones in the order of the buttons.
pub proof fn law_entries_come_from_best_buttons(
    a: BdmvAnalysis,
    buttons: Seq<ButtonModel>,
) -> (from: Seq<int>)
    requires
        buttons.len() <= u64::MAX,
    ensures
        from.len() == navigable(a, buttons).len(),
        forall|i: int|
            0 <= i < from.len() ==> {
                let b = buttons[#[trigger] from[i]];
                let e = navigable(a, buttons)[i];
                &&& 0 <= from[i] < buttons.len()
                &&& wanted(a, b)
                &&& e.playlist == b.playlist
                &&& e.branch_opt == b.branch_opt
                &&& e.mark_or_pi == b.mark_or_pi
                &&& e.orphan == b.orphan
                &&& b.breadcrumb.len() > 0 ==> e.breadcrumb == b.breadcrumb
                &&& b.breadcrumb.len() == 0 ==> e.breadcrumb == seq![b.place]
            },
        forall|i: int, j: int|
            0 <= i < j < from.len() ==> !better(
                a,
                buttons,
                buttons[#[trigger] from[j]],
                buttons[#[trigger] from[i]],
            ) && (better(a, buttons, buttons[from[i]], buttons[from[j]]) || from[i] < from[j])
                && !play_alike(buttons[from[i]], buttons[from[j]]),
        forall|k: int|
            0 <= k < buttons.len() && wanted(a, #[trigger] buttons[k]) ==> exists|i: int|
                0 <= i < from.len() && play_alike(buttons[#[trigger] from[i]], buttons[k])
                    && !better(a, buttons, buttons[k], buttons[from[i]]) && (better(
                    a,
                    buttons,
                    buttons[from[i]],
                    buttons[k],
                ) || from[i] <= k),
{
    let n = buttons.len() as int;
    let list = candidates(a, buttons, n);
    let pairs = with_ranks(list);
    let sorted = ranked(list);
    let places = lemma_candidates_from(a, buttons, n);
    let perm = law_sorting_is_stable(pairs);
    let picks = lemma_firsts_from(sorted, sorted.len() as int);
    let from = Seq::new(picks.len(), |i: int| places[perm[picks[i]]]);
    lemma_chosen(a, buttons);
    assert forall|b: ButtonModel, c: ButtonModel| #[trigger]
        better(a, buttons, b, c) <==> rank(list, b) < rank(list, c) by {
        law_rank_prefers_paths_and_pages(list, b, c);
        lemma_crowd(a, buttons, b, n);
        lemma_crowd(a, buttons, c, n);
    }
    assert forall|i: int| 0 <= i < picks.len() implies 0 <= #[trigger] from[i] < buttons.len()
        && chosen(a, buttons)[i] == buttons[from[i]] && pairs[perm[picks[i]]].1 == buttons[from[i]]
        && pairs[perm[picks[i]]].0 == rank(list, buttons[from[i]]) by {
        assert(sorted[picks[i]] == pairs[perm[picks[i]]]);
    }
    assert forall|i: int, j: int| 0 <= i < j < from.len() implies !better(
        a,
        buttons,
        buttons[#[trigger] from[j]],
        buttons[#[trigger] from[i]],
    ) && (better(a, buttons, buttons[from[i]], buttons[from[j]]) || from[i] < from[j])
        && !play_alike(buttons[from[i]], buttons[from[j]]) by {
        assert(picks[i] < picks[j]);
        assert(!repeated(sorted, picks[j]));
        assert(!same_target(sorted[picks[i]].1, sorted[picks[j]].1));
        let x = perm[picks[i]];
        let y = perm[picks[j]];
        assert(pairs[x].0 < pairs[y].0 || (pairs[x].0 == pairs[y].0 && x < y));
    }
    assert forall|k: int| 0 <= k < buttons.len() && wanted(a, #[trigger] buttons[k]) implies exists|
        i: int,
    |
        0 <= i < from.len() && play_alike(buttons[#[trigger] from[i]], buttons[k]) && !better(
            a,
            buttons,
            buttons[k],
            buttons[from[i]],
        ) && (better(a, buttons, buttons[from[i]], buttons[k]) || from[i] <= k) by {
        assert(places.contains(k));
        let c = choose|c: int| 0 <= c < places.len() && places[c] == k;
        assert(perm.contains(c));
        let s = choose|s: int| 0 <= s < perm.len() && perm[s] == c;
        let j = lemma_earliest(sorted, s);
        assert(picks.contains(j));
        let i = choose|i: int| 0 <= i < picks.len() && picks[i] == j;
        assert(sorted[s] == pairs[perm[s]]);
        assert(sorted[j] == pairs[perm[j]]);
        assert(pairs[c] == (rank(list, buttons[k]), buttons[k]));
        assert(from[i] == places[perm[j]]);
        assert(same_target(sorted[j].1, sorted[s].1));
        if j < s {
            let x = perm[j];
            let y = perm[s];
            assert(pairs[x].0 < pairs[y].0 || (pairs[x].0 == pairs[y].0 && x < y));
        }
        assert(play_alike(buttons[from[i]], buttons[k]));
    }
    assert forall|i: int| 0 <= i < from.len() implies wanted(a, buttons[#[trigger] from[i]]) by {
        assert(chosen(a, buttons)[i] == buttons[from[i]]);
        lemma_wanted(a, buttons[from[i]]);
    }
    assert forall|i: int| 0 <= i < from.len() implies entry(a, buttons[#[trigger] from[i]]) == Some(
        navigable(a, buttons)[i],
    ) by {
        assert(chosen(a, buttons)[i] == buttons[from[i]]);
    }
    from
}

/// An entry takes length, chapters and streams over from the first playlist of
/// its number. Its place is that of its last press.
pub proof fn law_entries_describe_playlists(a: BdmvAnalysis, buttons: Seq<ButtonModel>, i: int)
    requires
        0 <= i < navigable(a, buttons).len(),
    ensures
        ({
            let e = navigable(a, buttons)[i];
            &&& e.breadcrumb.len() > 0
            &&& e.place == e.breadcrumb[e.breadcrumb.len() - 1]
            &&& exists|j: int|
                {
                    &&& 0 <= j < a.playlists@.len()
                    &&& (#[trigger] a.playlists@[j]).number == e.playlist
                    &&& forall|m: int|
                        0 <= m < j ==> (#[trigger] a.playlists@[m]).number != e.playlist
                    &&& e.duration == a.playlists@[j].duration
                    &&& e.chapters == a.playlists@[j].chapters
                    &&& e.streams.video.len() == a.playlists@[j].streams.video@.len()
                    &&& e.streams.audio.len() == a.playlists@[j].streams.audio@.len()
                    &&& e.streams.subtitles.len() == a.playlists@[j].streams.subtitles@.len()
                    &&& forall|k: int|
                        0 <= k < e.streams.video.len() ==> #[trigger] e.streams.video[k]
                            == a.playlists@[j].streams.video@[k]@
                    &&& forall|k: int|
                        0 <= k < e.streams.audio.len() ==> #[trigger] e.streams.audio[k]
                            == a.playlists@[j].streams.audio@[k]@
                    &&& forall|k: int|
                        0 <= k < e.streams.subtitles.len() ==> #[trigger] e.streams.subtitles[k]
                            == a.playlists@[j].streams.subtitles@[k]@
                }
        }),
{
    lemma_chosen(a, buttons);
    let b = chosen(a, buttons)[i];
    let e = navigable(a, buttons)[i];
    assert(entry(a, b) == Some(e));
    let p = number_is(b.playlist as u32);
    law_first_comes_first(a.playlists@, p);
    let j = choose|j: int|
        0 <= j < a.playlists@.len() && Some(#[trigger] a.playlists@[j]) == crate::seqs::first_where(
            a.playlists@,
            p,
        ) && forall|m: int| 0 <= m < j ==> !p(#[trigger] a.playlists@[m]);
    assert(a.playlists@[j].number == e.playlist);
    assert forall|m: int| 0 <= m < j implies (#[trigger] a.playlists@[m]).number != e.playlist by {
        assert(!p(a.playlists@[m]));
    }
}

/// What a button and an entry hold is what their contents say.
pub proof fn law_contents(
    b: MenuButton,
    c: NavigableContent,
    buttons: Seq<MenuButton>,
    list: Seq<NavigableContent>,
    i: int,
)
    ensures
        b@.playlist == b.playlist,
        b@.branch_opt == b.branch_opt,
        b@.mark_or_pi == b.mark_or_pi,
        b@.place.clip_index == b.clip_index,
        b@.place.page_id == b.page_id,
        b@.place.button_id == b.button_id,
        b@.breadcrumb == b.breadcrumb@,
        b@.orphan == b.orphan,
        c@.playlist == c.playlist,
        c@.branch_opt == c.branch_opt,
        c@.mark_or_pi == c.mark_or_pi,
        c@.duration == c.duration,
        c@.streams == c.streams@,
        c@.chapters == c.chapters,
        c@.place.clip_index == c.snapshot.clip_index,
        c@.place.page_id == c.snapshot.page_id,
        c@.place.button_id == c.snapshot.button_id,
        c@.breadcrumb == c.snapshot.breadcrumb@,
        c@.orphan == c.snapshot.orphan,
        buttons_of(buttons).len() == buttons.len(),
        0 <= i < buttons.len() ==> buttons_of(buttons)[i] == buttons[i]@,
        navigable_of(list).len() == list.len(),
        0 <= i < list.len() ==> navigable_of(list)[i] == list[i]@,
{
}

} // verus!
