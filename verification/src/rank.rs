//! Sorting of lists by the models of their values.
use vstd::prelude::*;

use crate::seqs::views;

verus! {

/// Values whose models have a place in a list before or behind others. Models of which neither
/// comes before the other share a place.
pub trait Ranked: View + Sized {
    spec fn before(a: Self::V, b: Self::V) -> bool;

    fn is_before(&self, other: &Self) -> (before: bool)
        ensures
            before == Self::before(self@, other@),
    ;

    proof fn lemma_asymmetric(a: Self::V, b: Self::V)
        ensures
            Self::before(a, b) ==> !Self::before(b, a),
    ;

    proof fn lemma_not_behind(a: Self::V, b: Self::V, c: Self::V)
        requires
            !Self::before(b, a),
            !Self::before(c, b),
        ensures
            !Self::before(c, a),
    ;
}

/// A list with one more value, behind those that do not come after it.
pub open spec fn with_ranked<T: Ranked>(s: Seq<T::V>, value: T::V) -> Seq<T::V>
    decreases s.len(),
{
    if s.len() > 0 && T::before(value, s.last()) {
        with_ranked::<T>(s.drop_last(), value).push(s.last())
    } else {
        s.push(value)
    }
}

/// A list in order. Values that share a place keep their order.
pub open spec fn ranked<T: Ranked>(s: Seq<T::V>) -> Seq<T::V>
    decreases s.len(),
{
    if s.len() == 0 {
        s
    } else {
        with_ranked::<T>(ranked::<T>(s.drop_last()), s.last())
    }
}

/// Whether two values share a place.
pub open spec fn share_place<T: Ranked>(a: T::V, b: T::V) -> bool {
    !T::before(a, b) && !T::before(b, a)
}

/// Whether a value of a list shares the place of a value.
pub open spec fn has_place<T: Ranked>(s: Seq<T::V>, value: T::V) -> bool {
    exists|i: int| 0 <= i < s.len() && share_place::<T>(#[trigger] s[i], value)
}

/// A list in order with the first of the values that share a place.
pub open spec fn distinct<T: Ranked>(s: Seq<T::V>) -> Seq<T::V>
    decreases s.len(),
{
    if s.len() == 0 {
        s
    } else {
        let front = distinct::<T>(s.drop_last());
        if has_place::<T>(front, s.last()) {
            front
        } else {
            with_ranked::<T>(front, s.last())
        }
    }
}

/// Whether no value stands in front of one that comes before it.
pub open spec fn in_rank<T: Ranked>(s: Seq<T::V>) -> bool {
    forall|i: int, j: int| 0 <= i < j < s.len() ==> !T::before(#[trigger] s[j], #[trigger] s[i])
}

/// Whether each value comes before all those behind it.
pub open spec fn strictly_ranked<T: Ranked>(s: Seq<T::V>) -> bool {
    forall|i: int, j: int| 0 <= i < j < s.len() ==> T::before(#[trigger] s[i], #[trigger] s[j])
}

proof fn lemma_with_ranked<T: Ranked>(s: Seq<T::V>, value: T::V)
    requires
        in_rank::<T>(s),
    ensures
        in_rank::<T>(with_ranked::<T>(s, value)),
        with_ranked::<T>(s, value).to_multiset() == s.to_multiset().insert(value),
        with_ranked::<T>(s, value).len() == s.len() + 1,
    decreases s.len(),
{
    broadcast use vstd::seq_lib::group_to_multiset_ensures;

    let all = with_ranked::<T>(s, value);
    if s.len() > 0 && T::before(value, s.last()) {
        let init = s.drop_last();
        let last = s.last();
        assert(in_rank::<T>(init)) by {
            assert forall|i: int, j: int| 0 <= i < j < init.len() implies !T::before(
                #[trigger] init[j],
                #[trigger] init[i],
            ) by {
                assert(s[i] == init[i] && s[j] == init[j]);
            }
        }
        lemma_with_ranked::<T>(init, value);
        let front = with_ranked::<T>(init, value);
        assert(s == init.push(last));
        assert(all.to_multiset() == front.to_multiset().insert(last));
        assert(s.to_multiset() == init.to_multiset().insert(last));
        assert(all.to_multiset() == s.to_multiset().insert(value));
        assert forall|k: int| 0 <= k < front.len() implies !T::before(last, #[trigger] front[k]) by {
            assert(front.to_multiset().count(front[k]) > 0) by {
                assert(front.contains(front[k]));
            }
            if front[k] == value {
                T::lemma_asymmetric(value, last);
            } else {
                assert(init.to_multiset().count(front[k]) > 0);
                assert(init.contains(front[k]));
                let m = choose|m: int| 0 <= m < init.len() && init[m] == front[k];
                assert(s[m] == front[k] && s[s.len() - 1] == last);
            }
        }
        assert forall|i: int, j: int| 0 <= i < j < all.len() implies !T::before(
            #[trigger] all[j],
            #[trigger] all[i],
        ) by {
            assert(all[i] == front[i]);
            if j < front.len() {
                assert(all[j] == front[j]);
            }
        }
    } else {
        assert forall|i: int, j: int| 0 <= i < j < all.len() implies !T::before(
            #[trigger] all[j],
            #[trigger] all[i],
        ) by {
            if j == s.len() {
                if i < s.len() - 1 {
                    assert(!T::before(s[s.len() - 1], s[i]));
                    T::lemma_not_behind(s[i], s.last(), value);
                }
            }
        }
    }
}

/// A sorted list is in order and holds the same values.
pub proof fn law_ranked<T: Ranked>(s: Seq<T::V>)
    ensures
        in_rank::<T>(ranked::<T>(s)),
        ranked::<T>(s).to_multiset() == s.to_multiset(),
        ranked::<T>(s).len() == s.len(),
    decreases s.len(),
{
    broadcast use vstd::seq_lib::group_to_multiset_ensures;

    if s.len() > 0 {
        law_ranked::<T>(s.drop_last());
        lemma_with_ranked::<T>(ranked::<T>(s.drop_last()), s.last());
        assert(s == s.drop_last().push(s.last()));
    }
}

proof fn lemma_distinct<T: Ranked>(s: Seq<T::V>)
    ensures
        in_rank::<T>(distinct::<T>(s)),
        strictly_ranked::<T>(distinct::<T>(s)),
        forall|v: T::V| #[trigger] distinct::<T>(s).contains(v) ==> s.contains(v),
        forall|i: int| 0 <= i < s.len() ==> has_place::<T>(distinct::<T>(s), #[trigger] s[i]),
    decreases s.len(),
{
    broadcast use vstd::seq_lib::group_to_multiset_ensures;

    if s.len() > 0 {
        let init = s.drop_last();
        let last = s.last();
        let front = distinct::<T>(init);
        let all = distinct::<T>(s);
        lemma_distinct::<T>(init);
        assert(s == init.push(last));
        if !has_place::<T>(front, last) {
            lemma_with_ranked::<T>(front, last);
            assert forall|v: T::V| #[trigger] all.contains(v) implies s.contains(v) by {
                assert(all.to_multiset().count(v) > 0);
                if v == last {
                    assert(s[s.len() - 1] == v);
                } else {
                    assert(front.to_multiset().count(v) > 0);
                    assert(front.contains(v));
                    assert(init.contains(v));
                    let m = choose|m: int| 0 <= m < init.len() && init[m] == v;
                    assert(s[m] == v);
                }
            }
            assert forall|v: T::V| front.contains(v) implies #[trigger] all.contains(v) by {
                assert(front.to_multiset().count(v) > 0);
                assert(all.to_multiset().count(v) > 0);
            }
            assert(all.contains(last)) by {
                assert(all.to_multiset().count(last) > 0);
            }
            T::lemma_asymmetric(last, last);
            assert forall|i: int| 0 <= i < s.len() implies has_place::<T>(all, #[trigger] s[i]) by {
                if i < init.len() {
                    assert(init[i] == s[i]);
                    let m = choose|m: int|
                        0 <= m < front.len() && share_place::<T>(#[trigger] front[m], s[i]);
                    assert(front.contains(front[m]));
                    assert(all.contains(front[m]));
                    let n = choose|n: int| 0 <= n < all.len() && all[n] == front[m];
                    assert(share_place::<T>(all[n], s[i]));
                } else {
                    let n = choose|n: int| 0 <= n < all.len() && all[n] == last;
                    assert(share_place::<T>(all[n], s[i]));
                }
            }
            lemma_strict_with::<T>(front, last);
        } else {
            assert forall|v: T::V| #[trigger] all.contains(v) implies s.contains(v) by {
                assert(init.contains(v));
                let m = choose|m: int| 0 <= m < init.len() && init[m] == v;
                assert(s[m] == v);
            }
            assert forall|i: int| 0 <= i < s.len() implies has_place::<T>(all, #[trigger] s[i]) by {
                if i < init.len() {
                    assert(init[i] == s[i]);
                }
            }
        }
    }
}

/// A list in which each value comes before all those behind it stays as it is.
pub proof fn lemma_distinct_stays<T: Ranked>(s: Seq<T::V>)
    requires
        strictly_ranked::<T>(s),
    ensures
        distinct::<T>(s) == s,
    decreases s.len(),
{
    if s.len() > 0 {
        let init = s.drop_last();
        let last = s.last();
        assert forall|i: int, j: int| 0 <= i < j < init.len() implies T::before(
            #[trigger] init[i],
            #[trigger] init[j],
        ) by {
            assert(s[i] == init[i] && s[j] == init[j]);
        }
        lemma_distinct_stays::<T>(init);
        assert forall|i: int| 0 <= i < init.len() implies T::before(#[trigger] init[i], last) by {
            assert(s[i] == init[i] && s[s.len() - 1] == last);
        }
        assert(!has_place::<T>(init, last));
        if init.len() > 0 {
            assert(T::before(init[init.len() - 1], last));
            T::lemma_asymmetric(init.last(), last);
        }
        assert(s == init.push(last));
    }
}

proof fn lemma_strict_with<T: Ranked>(s: Seq<T::V>, value: T::V)
    requires
        strictly_ranked::<T>(s),
        !has_place::<T>(s, value),
    ensures
        strictly_ranked::<T>(with_ranked::<T>(s, value)),
        forall|i: int|
            0 <= i < with_ranked::<T>(s, value).len() ==> (#[trigger] with_ranked::<T>(s, value)[i]
                == value || s.contains(with_ranked::<T>(s, value)[i])),
    decreases s.len(),
{
    let all = with_ranked::<T>(s, value);
    if s.len() > 0 && T::before(value, s.last()) {
        let init = s.drop_last();
        assert(strictly_ranked::<T>(init)) by {
            assert forall|i: int, j: int| 0 <= i < j < init.len() implies T::before(
                #[trigger] init[i],
                #[trigger] init[j],
            ) by {
                assert(s[i] == init[i] && s[j] == init[j]);
            }
        }
        assert(!has_place::<T>(init, value)) by {
            if has_place::<T>(init, value) {
                let m = choose|m: int|
                    0 <= m < init.len() && share_place::<T>(#[trigger] init[m], value);
                assert(share_place::<T>(s[m], value));
            }
        }
        lemma_strict_with::<T>(init, value);
        let front = with_ranked::<T>(init, value);
        assert(all == front.push(s.last()));
        assert forall|i: int| 0 <= i < all.len() implies (#[trigger] all[i] == value || s.contains(
            all[i],
        )) by {
            if i < front.len() {
                assert(all[i] == front[i]);
                if front[i] != value {
                    assert(init.contains(front[i]));
                    let m = choose|m: int| 0 <= m < init.len() && init[m] == front[i];
                    assert(s[m] == front[i]);
                }
            } else {
                assert(s[s.len() - 1] == all[i]);
            }
        }
        assert forall|i: int, j: int| 0 <= i < j < all.len() implies T::before(
            #[trigger] all[i],
            #[trigger] all[j],
        ) by {
            assert(all[i] == front[i]);
            if j < front.len() {
                assert(all[j] == front[j]);
            } else {
                assert(all[j] == s.last());
                if front[i] != value {
                    assert(init.contains(front[i]));
                    let m = choose|m: int| 0 <= m < init.len() && init[m] == front[i];
                    assert(s[m] == front[i] && s[s.len() - 1] == s.last());
                }
            }
        }
    } else {
        assert forall|i: int| 0 <= i < all.len() implies (#[trigger] all[i] == value || s.contains(
            all[i],
        )) by {
            if i < s.len() {
                assert(s[i] == all[i]);
            }
        }
        assert forall|i: int, j: int| 0 <= i < j < all.len() implies T::before(
            #[trigger] all[i],
            #[trigger] all[j],
        ) by {
            if j == s.len() {
                assert(!share_place::<T>(s[i], value));
                assert(!share_place::<T>(s[s.len() - 1], value));
                if i < s.len() - 1 {
                    assert(T::before(s[i], s[s.len() - 1]));
                    T::lemma_asymmetric(s[i], s.last());
                    T::lemma_not_behind(s[i], s.last(), value);
                }
            } else {
                assert(s[i] == all[i] && s[j] == all[j]);
            }
        }
    }
}

/// A list without repeated places is strictly in order, holds only values of the list that it
/// was made of, and has a value in the place of each of them.
pub proof fn law_distinct<T: Ranked>(s: Seq<T::V>)
    ensures
        strictly_ranked::<T>(distinct::<T>(s)),
        forall|v: T::V| #[trigger] distinct::<T>(s).contains(v) ==> s.contains(v),
        forall|i: int| 0 <= i < s.len() ==> has_place::<T>(distinct::<T>(s), #[trigger] s[i]),
{
    lemma_distinct::<T>(s);
}

/// Puts a value into its place in a sorted list.
fn insert_ranked<T: Ranked>(list: &mut Vec<T>, value: T)
    ensures
        views(final(list)@) == with_ranked::<T>(views(old(list)@), value@),
{
    let ghost all = views(list@);
    let mut at: usize = list.len();
    assert(all.take(at as int) == all);
    assert(all.skip(at as int) == Seq::<T::V>::empty());
    while at > 0 && value.is_before(&list[at - 1])
        invariant
            at <= list@.len(),
            all == views(list@),
            with_ranked::<T>(all, value@) == with_ranked::<T>(all.take(at as int), value@)
                + all.skip(at as int),
        decreases at,
    {
        let ghost front = all.take(at as int);
        assert(front.last() == all[at - 1]);
        assert(front.drop_last() == all.take(at - 1));
        at -= 1;
        assert(with_ranked::<T>(front, value@) + all.skip(at + 1) == with_ranked::<T>(
            all.take(at as int),
            value@,
        ) + all.skip(at as int));
    }
    let ghost front = all.take(at as int);
    let ghost model = value@;
    assert(with_ranked::<T>(front, model) == front.push(model)) by {
        if at > 0 {
            assert(front.last() == all[at - 1]);
        }
    }
    list.insert(at, value);
    assert(views(list@) == front.push(model) + all.skip(at as int));
}

/// Turns a list round.
fn reverse<T: View>(list: Vec<T>) -> (reversed: Vec<T>)
    ensures
        views(reversed@) == views(list@).reverse(),
{
    let ghost all = list@;
    let mut rest = list;
    let mut reversed: Vec<T> = Vec::new();
    while rest.len() > 0
        invariant
            all == rest@ + reversed@.reverse(),
        decreases rest@.len(),
    {
        let ghost before = rest@;
        let ghost moved = reversed@;
        if let Some(value) = rest.pop() {
            reversed.push(value);
            assert(before == rest@.push(value));
            assert(reversed@.reverse() == seq![value] + moved.reverse());
            assert(rest@.push(value) + moved.reverse() == rest@ + (seq![value] + moved.reverse()));
        }
    }
    assert(rest@ + reversed@.reverse() == reversed@.reverse());
    assert(reversed@ == all.reverse());
    assert(views(reversed@) == views(all).reverse());
    reversed
}

/// Sorts a list.
pub(crate) fn rank<T: Ranked>(list: Vec<T>) -> (ordered: Vec<T>)
    ensures
        views(ordered@) == ranked::<T>(views(list@)),
{
    let ghost all = views(list@);
    let mut reversed = reverse(list);
    let mut ordered: Vec<T> = Vec::new();
    let ghost mut taken: nat = 0;
    assert(all.take(0) == Seq::<T::V>::empty());
    assert(all.skip(0) == all);
    assert(views(ordered@) == Seq::<T::V>::empty());
    assert(views(reversed@).reverse() == all);
    while reversed.len() > 0
        invariant
            taken <= all.len(),
            all.skip(taken as int) == views(reversed@).reverse(),
            views(ordered@) == ranked::<T>(all.take(taken as int)),
        decreases reversed@.len(),
    {
        let ghost before = views(reversed@);
        if let Some(value) = reversed.pop() {
            proof {
                assert(before == views(reversed@).push(value@));
                assert(before.reverse()[0] == value@);
                assert(all.skip(taken as int).len() == before.len());
                assert(all.skip(taken as int)[0] == all[taken as int]);
                assert(all.take(taken as int + 1).drop_last() == all.take(taken as int));
                assert(all.take(taken as int + 1).last() == value@);
                assert(views(reversed@).reverse() == before.reverse().skip(1));
                assert(all.skip(taken as int).skip(1) == all.skip(taken as int + 1));
                taken = taken + 1;
            }
            insert_ranked(&mut ordered, value);
        }
    }
    assert(all.skip(taken as int).len() == 0);
    assert(all.take(taken as int) == all);
    ordered
}

/// Sorts a list and keeps the first of the values that share a place.
pub(crate) fn rank_distinct<T: Ranked>(list: Vec<T>) -> (ordered: Vec<T>)
    ensures
        views(ordered@) == distinct::<T>(views(list@)),
{
    let ghost all = views(list@);
    let mut reversed = reverse(list);
    let mut ordered: Vec<T> = Vec::new();
    let ghost mut taken: nat = 0;
    assert(all.take(0) == Seq::<T::V>::empty());
    assert(all.skip(0) == all);
    assert(views(ordered@) == Seq::<T::V>::empty());
    assert(views(reversed@).reverse() == all);
    while reversed.len() > 0
        invariant
            taken <= all.len(),
            all.skip(taken as int) == views(reversed@).reverse(),
            views(ordered@) == distinct::<T>(all.take(taken as int)),
        decreases reversed@.len(),
    {
        let ghost before = views(reversed@);
        if let Some(value) = reversed.pop() {
            proof {
                assert(before == views(reversed@).push(value@));
                assert(before.reverse()[0] == value@);
                assert(all.skip(taken as int).len() == before.len());
                assert(all.skip(taken as int)[0] == all[taken as int]);
                assert(all.take(taken as int + 1).drop_last() == all.take(taken as int));
                assert(all.take(taken as int + 1).last() == value@);
                assert(views(reversed@).reverse() == before.reverse().skip(1));
                assert(all.skip(taken as int).skip(1) == all.skip(taken as int + 1));
                taken = taken + 1;
            }
            if !is_placed(&ordered, &value) {
                insert_ranked(&mut ordered, value);
            }
        }
    }
    assert(all.skip(taken as int).len() == 0);
    assert(all.take(taken as int) == all);
    ordered
}

fn is_placed<T: Ranked>(list: &Vec<T>, value: &T) -> (found: bool)
    ensures
        found == has_place::<T>(views(list@), value@),
{
    let ghost all = views(list@);
    let mut i: usize = 0;
    while i < list.len()
        invariant
            i <= list@.len(),
            all == views(list@),
            forall|j: int| 0 <= j < i ==> !share_place::<T>(#[trigger] all[j], value@),
        decreases list@.len() - i,
    {
        if !list[i].is_before(value) && !value.is_before(&list[i]) {
            assert(share_place::<T>(all[i as int], value@));
            return true;
        }
        i += 1;
    }
    false
}

} // verus!
