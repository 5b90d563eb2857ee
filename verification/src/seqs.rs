//! Searching and sorting sequences.
use vstd::prelude::*;

verus! {

/// The first element of `s` that satisfies `p`.
pub open spec fn first_where<T>(s: Seq<T>, p: spec_fn(T) -> bool) -> Option<T>
    decreases s.len(),
{
    if s.len() == 0 {
        None
    } else if p(s[0]) {
        Some(s[0])
    } else {
        first_where(s.skip(1), p)
    }
}

/// The last element of `s` that satisfies `p`.
pub open spec fn last_where<T>(s: Seq<T>, p: spec_fn(T) -> bool) -> Option<T>
    decreases s.len(),
{
    if s.len() == 0 {
        None
    } else if p(s.last()) {
        Some(s.last())
    } else {
        last_where(s.drop_last(), p)
    }
}

/// A search does not depend on leading elements that fail the test.
pub proof fn lemma_first_where_skip<T>(s: Seq<T>, p: spec_fn(T) -> bool, i: int)
    requires
        0 <= i <= s.len(),
        forall|j: int| 0 <= j < i ==> !p(#[trigger] s[j]),
    ensures
        first_where(s, p) == first_where(s.skip(i), p),
    decreases i,
{
    if i == 0 {
        assert(s.skip(0) =~= s);
    } else {
        assert(!p(s[0]));
        assert forall|j: int| 0 <= j < i - 1 implies !p(#[trigger] s.skip(1)[j]) by {
            assert(!p(s[j + 1]));
        }
        lemma_first_where_skip(s.skip(1), p, i - 1);
        assert(s.skip(1).skip(i - 1) =~= s.skip(i));
    }
}

/// A search that passes over `i` failing elements and meets one that
/// satisfies the test ends there.
pub proof fn lemma_first_where_found<T>(s: Seq<T>, p: spec_fn(T) -> bool, i: int)
    requires
        0 <= i < s.len(),
        forall|j: int| 0 <= j < i ==> !p(#[trigger] s[j]),
        p(s[i]),
    ensures
        first_where(s, p) == Some(s[i]),
{
    lemma_first_where_skip(s, p, i);
    assert(s.skip(i)[0] == s[i]);
}

/// A search that passes over every element finds nothing.
pub proof fn lemma_first_where_none<T>(s: Seq<T>, p: spec_fn(T) -> bool)
    requires
        forall|j: int| 0 <= j < s.len() ==> !p(#[trigger] s[j]),
    ensures
        first_where(s, p) is None,
{
    lemma_first_where_skip(s, p, s.len() as int);
    assert(s.skip(s.len() as int).len() == 0);
}

/// What a search finds is an element that satisfies the test.
pub proof fn lemma_first_where_is<T>(s: Seq<T>, p: spec_fn(T) -> bool)
    ensures
        match first_where(s, p) {
            Some(x) => p(x) && s.contains(x),
            None => forall|j: int| 0 <= j < s.len() ==> !p(#[trigger] s[j]),
        },
    decreases s.len(),
{
    if s.len() > 0 {
        if p(s[0]) {
            assert(s.contains(s[0]));
        } else {
            lemma_first_where_is(s.skip(1), p);
            match first_where(s.skip(1), p) {
                Some(x) => {
                    let k = choose|k: int| 0 <= k < s.skip(1).len() && s.skip(1)[k] == x;
                    assert(s[k + 1] == x);
                },
                None => {
                    assert forall|j: int| 0 <= j < s.len() implies !p(#[trigger] s[j]) by {
                        if j > 0 {
                            assert(s.skip(1)[j - 1] == s[j]);
                        }
                    }
                },
            }
        }
    }
}

/// A search from the end does not depend on trailing elements that fail the
/// test.
pub proof fn lemma_last_where_take<T>(s: Seq<T>, p: spec_fn(T) -> bool, i: int)
    requires
        0 <= i <= s.len(),
        forall|j: int| i <= j < s.len() ==> !p(#[trigger] s[j]),
    ensures
        last_where(s, p) == last_where(s.take(i), p),
    decreases s.len() - i,
{
    if i == s.len() {
        assert(s.take(i) =~= s);
    } else {
        assert(!p(s.last()));
        assert forall|j: int| i <= j < s.drop_last().len() implies !p(
            #[trigger] s.drop_last()[j],
        ) by {
            assert(!p(s[j]));
        }
        lemma_last_where_take(s.drop_last(), p, i);
        assert(s.drop_last().take(i) =~= s.take(i));
    }
}

/// The first result that `f` gives on the elements of `s`, in order.
pub open spec fn first_some<T, R>(s: Seq<T>, f: spec_fn(T) -> Option<R>) -> Option<R>
    decreases s.len(),
{
    if s.len() == 0 {
        None
    } else if f(s[0]) is Some {
        f(s[0])
    } else {
        first_some(s.skip(1), f)
    }
}

/// The first result does not depend on leading elements that give none.
pub proof fn lemma_first_some_skip<T, R>(s: Seq<T>, f: spec_fn(T) -> Option<R>, i: int)
    requires
        0 <= i <= s.len(),
        forall|j: int| 0 <= j < i ==> f(#[trigger] s[j]) is None,
    ensures
        first_some(s, f) == first_some(s.skip(i), f),
        i < s.len() && f(s[i]) is Some ==> first_some(s, f) == f(s[i]),
        i == s.len() ==> first_some(s, f) is None,
    decreases i,
{
    if i == 0 {
        assert(s.skip(0) =~= s);
    } else {
        assert(f(s[0]) is None);
        assert forall|j: int| 0 <= j < i - 1 implies f(#[trigger] s.skip(1)[j]) is None by {
            assert(f(s[j + 1]) is None);
        }
        lemma_first_some_skip(s.skip(1), f, i - 1);
        assert(s.skip(1).skip(i - 1) =~= s.skip(i));
    }
}

/// Lists one after another.
pub open spec fn concat<T>(lists: Seq<Seq<T>>) -> Seq<T>
    decreases lists.len(),
{
    if lists.len() == 0 {
        seq![]
    } else {
        concat(lists.drop_last()) + lists.last()
    }
}

/// `x` put into a sequence before the first element with a larger key.
pub open spec fn inserted<T>(s: Seq<(u128, T)>, x: (u128, T), i: int) -> Seq<(u128, T)>
    decreases s.len() - i,
{
    if i >= s.len() || s[i].0 > x.0 {
        s.insert(i, x)
    } else {
        inserted(s, x, i + 1)
    }
}

/// A sequence in ascending order of its keys. Elements with equal keys keep
/// their order.
pub open spec fn stable_sorted<T>(s: Seq<(u128, T)>) -> Seq<(u128, T)>
    decreases s.len(),
{
    if s.len() == 0 {
        s
    } else {
        inserted(stable_sorted(s.drop_last()), s.last(), 0)
    }
}

/// Sorts by keys in ascending order, and keeps the order of elements with
/// equal keys.
pub fn stable_sort<T>(list: Vec<(u128, T)>) -> (sorted: Vec<(u128, T)>)
    ensures
        sorted@ == stable_sorted(list@),
{
    let ghost all = list@;
    let mut rest: Vec<(u128, T)> = list;
    let mut sorted: Vec<(u128, T)> = Vec::new();
    let mut reversed: Vec<(u128, T)> = Vec::new();
    while rest.len() > 0
        invariant
            rest@ + reversed@.reverse() == all,
        decreases rest.len(),
    {
        let ghost before = rest@;
        let ghost done = reversed@;
        if let Some(x) = rest.pop() {
            reversed.push(x);
            proof {
                assert(before =~= rest@.push(x));
                assert(reversed@.reverse() =~= seq![x] + done.reverse());
                assert(rest@ + reversed@.reverse() =~= before + done.reverse());
            }
        }
    }
    proof {
        assert(rest@ + reversed@.reverse() =~= reversed@.reverse());
        assert(all.take(0) =~= sorted@);
    }
    while reversed.len() > 0
        invariant
            reversed@.len() <= all.len(),
            reversed@.reverse() == all.skip(all.len() - reversed@.len()),
            sorted@ == stable_sorted(all.take(all.len() - reversed@.len())),
        decreases reversed.len(),
    {
        let ghost n = all.len() - reversed@.len();
        let ghost before = reversed@;
        if let Some(x) = reversed.pop() {
            proof {
                assert(before.reverse()[0] == x);
                assert(all.skip(n)[0] == all[n]);
                assert(reversed@.reverse() =~= before.reverse().skip(1));
                assert(all.skip(n).skip(1) =~= all.skip(n + 1));
                assert(all.take(n + 1).drop_last() =~= all.take(n));
                assert(all.take(n + 1).last() == x);
            }
            let ghost goal = inserted(sorted@, x, 0);
            let mut i: usize = 0;
            while i < sorted.len() && sorted[i].0 <= x.0
                invariant
                    i <= sorted.len(),
                    inserted(sorted@, x, i as int) == goal,
                decreases sorted.len() - i,
            {
                i = i + 1;
            }
            sorted.insert(i, x);
        }
    }
    proof {
        assert(all.take(all.len() as int) =~= all);
    }
    sorted
}

/// Pairs of keys and values with each value replaced by what `f` makes of it.
pub open spec fn mapped<T, U>(s: Seq<(u128, T)>, f: spec_fn(T) -> U) -> Seq<(u128, U)> {
    s.map_values(|x: (u128, T)| (x.0, f(x.1)))
}

/// Sorting goes by the keys alone.
pub proof fn lemma_sorted_mapped<T, U>(s: Seq<(u128, T)>, f: spec_fn(T) -> U)
    ensures
        mapped(stable_sorted(s), f) == stable_sorted(mapped(s, f)),
    decreases s.len(),
{
    if s.len() == 0 {
        assert(mapped(stable_sorted(s), f) =~= stable_sorted(mapped(s, f)));
    } else {
        lemma_sorted_mapped(s.drop_last(), f);
        assert(mapped(s, f).drop_last() =~= mapped(s.drop_last(), f));
        lemma_inserted_mapped(stable_sorted(s.drop_last()), s.last(), 0, f);
    }
}

proof fn lemma_inserted_mapped<T, U>(
    s: Seq<(u128, T)>,
    x: (u128, T),
    i: int,
    f: spec_fn(T) -> U,
)
    requires
        0 <= i <= s.len(),
    ensures
        mapped(inserted(s, x, i), f) == inserted(mapped(s, f), (x.0, f(x.1)), i),
    decreases s.len() - i,
{
    if i < s.len() && s[i].0 <= x.0 {
        lemma_inserted_mapped(s, x, i + 1, f);
    } else {
        assert(mapped(s.insert(i, x), f) =~= mapped(s, f).insert(i, (x.0, f(x.1))));
    }
}

/// Every element of a sorted sequence was there before, and the other way
/// round.
pub proof fn lemma_sorted_members<T>(s: Seq<(u128, T)>)
    ensures
        stable_sorted(s).len() == s.len(),
        forall|i: int| 0 <= i < s.len() ==> s.contains(#[trigger] stable_sorted(s)[i]),
        forall|i: int| 0 <= i < s.len() ==> stable_sorted(s).contains(#[trigger] s[i]),
{
    broadcast use vstd::seq_lib::group_to_multiset_ensures;

    let t = stable_sorted(s);
    law_sorting_keeps_elements(s);
    assert(t.to_multiset().len() == t.len());
    assert(s.to_multiset().len() == s.len());
    assert forall|i: int| 0 <= i < s.len() implies s.contains(#[trigger] t[i]) by {
        assert(t.contains(t[i]));
        assert(t.to_multiset().count(t[i]) > 0);
    }
    assert forall|i: int| 0 <= i < s.len() implies t.contains(#[trigger] s[i]) by {
        assert(s.contains(s[i]));
        assert(s.to_multiset().count(s[i]) > 0);
    }
}

/// Sorting keeps the elements: each has its place, and no other.
pub proof fn law_sorting_keeps_elements<T>(s: Seq<(u128, T)>)
    ensures
        stable_sorted(s).to_multiset() == s.to_multiset(),
    decreases s.len(),
{
    broadcast use vstd::seq_lib::group_to_multiset_ensures;

    if s.len() > 0 {
        law_sorting_keeps_elements(s.drop_last());
        lemma_inserted(stable_sorted(s.drop_last()), s.last(), 0);
        assert(s =~= s.drop_last().push(s.last()));
    }
}

proof fn lemma_inserted<T>(s: Seq<(u128, T)>, x: (u128, T), i: int)
    requires
        0 <= i <= s.len(),
    ensures
        inserted(s, x, i).to_multiset() == s.to_multiset().insert(x),
    decreases s.len() - i,
{
    broadcast use vstd::seq_lib::group_to_multiset_ensures;

    if i < s.len() && s[i].0 <= x.0 {
        lemma_inserted(s, x, i + 1);
    }
}

/// Sorting puts the keys in ascending order.
pub proof fn law_sorting_orders_keys<T>(s: Seq<(u128, T)>)
    ensures
        forall|i: int, j: int|
            0 <= i < j < stable_sorted(s).len() ==> (#[trigger] stable_sorted(s)[i]).0 <= (
            #[trigger] stable_sorted(s)[j]).0,
    decreases s.len(),
{
    if s.len() > 0 {
        law_sorting_orders_keys(s.drop_last());
        lemma_inserted_ordered(stable_sorted(s.drop_last()), s.last(), 0);
    }
}

proof fn lemma_inserted_ordered<T>(s: Seq<(u128, T)>, x: (u128, T), i: int)
    requires
        0 <= i <= s.len(),
        forall|a: int, b: int| 0 <= a < b < s.len() ==> (#[trigger] s[a]).0 <= (#[trigger] s[b]).0,
        forall|a: int| 0 <= a < i ==> (#[trigger] s[a]).0 <= x.0,
    ensures
        forall|a: int, b: int|
            0 <= a < b < inserted(s, x, i).len() ==> (#[trigger] inserted(s, x, i)[a]).0 <= (
            #[trigger] inserted(s, x, i)[b]).0,
    decreases s.len() - i,
{
    if i < s.len() && s[i].0 <= x.0 {
        lemma_inserted_ordered(s, x, i + 1);
        assert(inserted(s, x, i) == inserted(s, x, i + 1));
    } else {
        let t = s.insert(i, x);
        assert(inserted(s, x, i) == t);
        assert forall|a: int, b: int| 0 <= a < b < t.len() implies (#[trigger] t[a]).0 <= (
        #[trigger] t[b]).0 by {
            let a2 = if a < i {
                a
            } else {
                a - 1
            };
            let b2 = if b < i {
                b
            } else {
                b - 1
            };
            if a != i {
                assert(t[a] == s[a2]);
            }
            if b != i {
                assert(t[b] == s[b2]);
            }
            if a == i && i < s.len() {
                assert(s[i].0 <= s[b2].0 || i == b2);
            }
        }
    }
}

proof fn lemma_inserted_at<T>(s: Seq<(u128, T)>, x: (u128, T), i: int) -> (p: int)
    requires
        0 <= i <= s.len(),
    ensures
        i <= p <= s.len(),
        inserted(s, x, i) == s.insert(p, x),
        forall|j: int| i <= j < p ==> (#[trigger] s[j]).0 <= x.0,
        p < s.len() ==> s[p].0 > x.0,
    decreases s.len() - i,
{
    if i < s.len() && s[i].0 <= x.0 {
        lemma_inserted_at(s, x, i + 1)
    } else {
        i
    }
}

/// Sorting rearranges a sequence: there is a place in it for every element of
/// the sorted one, and no other. Elements are in the order of their keys, and
/// those with equal keys in the order in which they were.
pub proof fn law_sorting_is_stable<T>(s: Seq<(u128, T)>) -> (from: Seq<int>)
    ensures
        stable_sorted(s).len() == s.len(),
        from.len() == s.len(),
        forall|i: int|
            0 <= i < s.len() ==> 0 <= #[trigger] from[i] < s.len() && stable_sorted(s)[i]
                == s[from[i]],
        forall|k: int| 0 <= k < s.len() ==> #[trigger] from.contains(k),
        forall|i: int, j: int|
            0 <= i < j < s.len() ==> s[#[trigger] from[i]].0 < s[#[trigger] from[j]].0 || (
            s[from[i]].0 == s[from[j]].0 && from[i] < from[j]),
    decreases s.len(),
{
    if s.len() == 0 {
        seq![]
    } else {
        let init = s.drop_last();
        let n = s.len() - 1;
        let before = law_sorting_is_stable(init);
        let sorted = stable_sorted(init);
        let p = lemma_inserted_at(sorted, s.last(), 0);
        let from = before.insert(p, n);
        assert forall|i: int| 0 <= i < s.len() implies 0 <= #[trigger] from[i] < s.len()
            && stable_sorted(s)[i] == s[from[i]] by {
            if i < p {
                assert(from[i] == before[i]);
            } else if i > p {
                assert(from[i] == before[i - 1]);
            }
        }
        assert forall|k: int| 0 <= k < s.len() implies #[trigger] from.contains(k) by {
            if k == n {
                assert(from[p] == k);
            } else {
                assert(before.contains(k));
                let i = choose|i: int| 0 <= i < before.len() && before[i] == k;
                if i < p {
                    assert(from[i] == k);
                } else {
                    assert(from[i + 1] == k);
                }
            }
        }
        assert forall|i: int, j: int| 0 <= i < j < s.len() implies s[#[trigger] from[i]].0
            < s[#[trigger] from[j]].0 || (s[from[i]].0 == s[from[j]].0 && from[i] < from[j]) by {
            let a = if i < p {
                i
            } else {
                i - 1
            };
            let b = if j < p {
                j
            } else {
                j - 1
            };
            if i != p {
                assert(from[i] == before[a]);
                assert(sorted[a] == init[before[a]]);
            }
            if j != p {
                assert(from[j] == before[b]);
                assert(sorted[b] == init[before[b]]);
            }
            if i == p && p < sorted.len() {
                assert(sorted[p] == init[before[p]]);
                if b > p {
                    assert(init[before[p]].0 <= init[before[b]].0);
                }
            }
        }
        from
    }
}

/// The first element with a property is there if any is, and none before it
/// has the property.
pub proof fn law_first_comes_first<T>(s: Seq<T>, p: spec_fn(T) -> bool)
    ensures
        match first_where(s, p) {
            Some(x) => exists|k: int|
                0 <= k < s.len() && #[trigger] s[k] == x && p(x) && forall|j: int|
                    0 <= j < k ==> !p(#[trigger] s[j]),
            None => forall|j: int| 0 <= j < s.len() ==> !p(#[trigger] s[j]),
        },
    decreases s.len(),
{
    if s.len() > 0 {
        if p(s[0]) {
            assert(s[0] == first_where(s, p)->Some_0);
        } else {
            let rest = s.skip(1);
            law_first_comes_first(rest, p);
            match first_where(rest, p) {
                Some(x) => {
                    let k = choose|k: int|
                        0 <= k < rest.len() && #[trigger] rest[k] == x && p(x) && forall|j: int|
                            0 <= j < k ==> !p(#[trigger] rest[j]);
                    assert(s[k + 1] == x);
                    assert forall|j: int| 0 <= j < k + 1 implies !p(#[trigger] s[j]) by {
                        if j > 0 {
                            assert(rest[j - 1] == s[j]);
                        }
                    }
                },
                None => {
                    assert forall|j: int| 0 <= j < s.len() implies !p(#[trigger] s[j]) by {
                        if j > 0 {
                            assert(rest[j - 1] == s[j]);
                        }
                    }
                },
            }
        }
    }
}

/// The last element with a property is there if any is, and none after it has
/// the property.
pub proof fn law_last_comes_last<T>(s: Seq<T>, p: spec_fn(T) -> bool)
    ensures
        match last_where(s, p) {
            Some(x) => exists|k: int|
                0 <= k < s.len() && #[trigger] s[k] == x && p(x) && forall|j: int|
                    k < j < s.len() ==> !p(#[trigger] s[j]),
            None => forall|j: int| 0 <= j < s.len() ==> !p(#[trigger] s[j]),
        },
    decreases s.len(),
{
    if s.len() > 0 {
        let last = s.len() - 1;
        if p(s.last()) {
            assert(s[last] == last_where(s, p)->Some_0);
        } else {
            let init = s.drop_last();
            law_last_comes_last(init, p);
            match last_where(init, p) {
                Some(x) => {
                    let k = choose|k: int|
                        0 <= k < init.len() && #[trigger] init[k] == x && p(x) && forall|j: int|
                            k < j < init.len() ==> !p(#[trigger] init[j]);
                    assert(s[k] == x);
                    assert forall|j: int| k < j < s.len() implies !p(#[trigger] s[j]) by {
                        if j < last {
                            assert(init[j] == s[j]);
                        }
                    }
                },
                None => {
                    assert forall|j: int| 0 <= j < s.len() implies !p(#[trigger] s[j]) by {
                        if j < last {
                            assert(init[j] == s[j]);
                        }
                    }
                },
            }
        }
    }
}

/// The first result that a function gives comes from an element before which
/// it gives none.
pub proof fn law_first_result<T, R>(s: Seq<T>, f: spec_fn(T) -> Option<R>)
    ensures
        match first_some(s, f) {
            Some(r) => exists|k: int|
                0 <= k < s.len() && f(#[trigger] s[k]) == Some(r) && forall|j: int|
                    0 <= j < k ==> f(#[trigger] s[j]) is None,
            None => forall|j: int| 0 <= j < s.len() ==> f(#[trigger] s[j]) is None,
        },
    decreases s.len(),
{
    if s.len() > 0 {
        if f(s[0]) is Some {
            assert(f(s[0]) == first_some(s, f));
        } else {
            let rest = s.skip(1);
            law_first_result(rest, f);
            match first_some(rest, f) {
                Some(r) => {
                    let k = choose|k: int|
                        0 <= k < rest.len() && f(#[trigger] rest[k]) == Some(r) && forall|j: int|
                            0 <= j < k ==> f(#[trigger] rest[j]) is None;
                    assert(s[k + 1] == rest[k]);
                    assert forall|j: int| 0 <= j < k + 1 implies f(#[trigger] s[j]) is None by {
                        if j > 0 {
                            assert(rest[j - 1] == s[j]);
                        }
                    }
                },
                None => {
                    assert forall|j: int| 0 <= j < s.len() implies f(#[trigger] s[j]) is None by {
                        if j > 0 {
                            assert(rest[j - 1] == s[j]);
                        }
                    }
                },
            }
        }
    }
}

/// Lists are joined in order: the elements of the last one are at the end.
pub proof fn law_joined_in_order<T>(lists: Seq<Seq<T>>, list: Seq<T>, i: int)
    ensures
        concat(Seq::<Seq<T>>::empty()).len() == 0,
        concat(lists.push(list)).len() == concat(lists).len() + list.len(),
        0 <= i < concat(lists).len() ==> concat(lists.push(list))[i] == concat(lists)[i],
        0 <= i < list.len() ==> concat(lists.push(list))[concat(lists).len() + i] == list[i],
{
    assert(lists.push(list).drop_last() =~= lists);
}

} // verus!
