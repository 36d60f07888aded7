//! Stable sorting of lists.
use vstd::prelude::*;

verus! {

/// Values that have a place in a list before or behind others. Values of which neither comes
/// before the other share a place.
pub trait Ordered: Sized {
    spec fn before(self, other: Self) -> bool;

    fn is_before(&self, other: &Self) -> (before: bool)
        ensures
            before == self.before(*other),
    ;

    proof fn lemma_asymmetric(a: Self, b: Self)
        ensures
            a.before(b) ==> !b.before(a),
    ;

    proof fn lemma_not_behind(a: Self, b: Self, c: Self)
        requires
            !b.before(a),
            !c.before(b),
        ensures
            !c.before(a),
    ;
}

/// A list with one more value, behind those that do not come after it.
pub open spec fn with_value<T: Ordered>(s: Seq<T>, value: T) -> Seq<T>
    decreases s.len(),
{
    if s.len() > 0 && value.before(s.last()) {
        with_value(s.drop_last(), value).push(s.last())
    } else {
        s.push(value)
    }
}

/// A list in order. Values that share a place keep their order.
pub open spec fn sorted<T: Ordered>(s: Seq<T>) -> Seq<T>
    decreases s.len(),
{
    if s.len() == 0 {
        s
    } else {
        with_value(sorted(s.drop_last()), s.last())
    }
}

/// Whether no value stands in front of one that comes before it.
pub open spec fn in_order<T: Ordered>(s: Seq<T>) -> bool {
    forall|i: int, j: int| 0 <= i < j < s.len() ==> !(#[trigger] s[j]).before(#[trigger] s[i])
}

proof fn lemma_with_value<T: Ordered>(s: Seq<T>, value: T)
    requires
        in_order(s),
    ensures
        in_order(with_value(s, value)),
        with_value(s, value).to_multiset() == s.to_multiset().insert(value),
        with_value(s, value).len() == s.len() + 1,
    decreases s.len(),
{
    broadcast use vstd::seq_lib::group_to_multiset_ensures;

    let all = with_value(s, value);
    if s.len() > 0 && value.before(s.last()) {
        let init = s.drop_last();
        let last = s.last();
        assert(in_order(init)) by {
            assert forall|i: int, j: int| 0 <= i < j < init.len() implies !(
            #[trigger] init[j]).before(#[trigger] init[i]) by {
                assert(s[i] == init[i] && s[j] == init[j]);
            }
        }
        lemma_with_value(init, value);
        let front = with_value(init, value);
        assert(s == init.push(last));
        assert(all.to_multiset() == front.to_multiset().insert(last));
        assert(s.to_multiset() == init.to_multiset().insert(last));
        assert(all.to_multiset() == s.to_multiset().insert(value));
        assert forall|k: int| 0 <= k < front.len() implies !last.before(#[trigger] front[k]) by {
            assert(front.to_multiset().count(front[k]) > 0) by {
                assert(front.contains(front[k]));
            }
            if front[k] == value {
                T::lemma_asymmetric(value, last);
            } else {
                assert(init.to_multiset().count(front[k]) > 0);
                assert(init.contains(front[k]));
                let m = choose|m: int| 0 <= m < init.len() && init[m] == front[k];
                assert(s[m] == front[k] && s[s.len() - 1] == last);
            }
        }
        assert forall|i: int, j: int| 0 <= i < j < all.len() implies !(#[trigger] all[j]).before(
            #[trigger] all[i],
        ) by {
            assert(all[i] == front[i]);
            if j < front.len() {
                assert(all[j] == front[j]);
            }
        }
    } else {
        assert forall|i: int, j: int| 0 <= i < j < all.len() implies !(#[trigger] all[j]).before(
            #[trigger] all[i],
        ) by {
            if j == s.len() {
                if i < s.len() - 1 {
                    assert(!s[s.len() - 1].before(s[i]));
                    T::lemma_not_behind(s[i], s.last(), value);
                }
            }
        }
    }
}

/// A sorted list is in order and holds the same values.
pub proof fn law_sorted<T: Ordered>(s: Seq<T>)
    ensures
        in_order(sorted(s)),
        sorted(s).to_multiset() == s.to_multiset(),
        sorted(s).len() == s.len(),
    decreases s.len(),
{
    broadcast use vstd::seq_lib::group_to_multiset_ensures;

    if s.len() > 0 {
        law_sorted(s.drop_last());
        lemma_with_value(sorted(s.drop_last()), s.last());
        assert(s == s.drop_last().push(s.last()));
    }
}

/// Puts a value into its place in a sorted list.
pub fn insert_value<T: Ordered>(list: &mut Vec<T>, value: T)
    ensures
        final(list)@ == with_value(old(list)@, value),
{
    let ghost all = list@;
    let mut at: usize = list.len();
    assert(all.take(at as int) == all);
    assert(all.skip(at as int) == Seq::<T>::empty());
    while at > 0 && value.is_before(&list[at - 1])
        invariant
            at <= list@.len(),
            all == list@,
            with_value(all, value) == with_value(all.take(at as int), value) + all.skip(at as int),
        decreases at,
    {
        let ghost front = all.take(at as int);
        assert(front.last() == all[at - 1]);
        assert(front.drop_last() == all.take(at - 1));
        at -= 1;
        assert(with_value(front, value) + all.skip(at + 1) == with_value(
            all.take(at as int),
            value,
        ) + all.skip(at as int));
    }
    let ghost front = all.take(at as int);
    assert(with_value(front, value) == front.push(value)) by {
        if at > 0 {
            assert(front.last() == all[at - 1]);
        }
    }
    list.insert(at, value);
    assert(list@ == front.push(value) + all.skip(at as int));
}

/// Sorts a list.
pub fn sort<T: Ordered>(list: Vec<T>) -> (ordered: Vec<T>)
    ensures
        ordered@ == sorted(list@),
{
    let ghost all = list@;
    let mut rest = list;
    let mut reversed: Vec<T> = Vec::new();
    while rest.len() > 0
        invariant
            all == rest@ + reversed@.reverse(),
        decreases rest@.len(),
    {
        let ghost before = rest@;
        let ghost moved = reversed@;
        if let Some(value) = rest.pop() {
            reversed.push(value);
            assert(before == rest@.push(value));
            assert(reversed@.reverse() == seq![value] + moved.reverse());
            assert(rest@.push(value) + moved.reverse() == rest@ + (seq![value] + moved.reverse()));
        }
    }
    assert(rest@ + reversed@.reverse() == reversed@.reverse());
    let mut ordered: Vec<T> = Vec::new();
    let ghost mut taken: nat = 0;
    assert(all.take(0) == Seq::<T>::empty());
    assert(all.skip(0) == all);
    while reversed.len() > 0
        invariant
            taken <= all.len(),
            all.skip(taken as int) == reversed@.reverse(),
            ordered@ == sorted(all.take(taken as int)),
        decreases reversed@.len(),
    {
        let ghost before = reversed@;
        if let Some(value) = reversed.pop() {
            proof {
                assert(before == reversed@.push(value));
                assert(before.reverse()[0] == value);
                assert(all.skip(taken as int).len() == before.len());
                assert(all.skip(taken as int)[0] == all[taken as int]);
                assert(all.take(taken as int + 1).drop_last() == all.take(taken as int));
                assert(all.take(taken as int + 1).last() == value);
                assert(reversed@.reverse() == before.reverse().skip(1));
                assert(all.skip(taken as int).skip(1) == all.skip(taken as int + 1));
                taken = taken + 1;
            }
            insert_value(&mut ordered, value);
        }
    }
    assert(all.skip(taken as int).len() == 0);
    assert(all.take(taken as int) == all);
    ordered
}

} // verus!
