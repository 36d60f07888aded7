//! Lists made from lists.
use vstd::prelude::*;

verus! {

/// The lists that a function gives for the elements of a list, in a row.
pub open spec fn concat_map<T, U>(s: Seq<T>, f: spec_fn(T) -> Seq<U>) -> Seq<U>
    decreases s.len(),
{
    if s.len() == 0 {
        Seq::empty()
    } else {
        concat_map(s.drop_last(), f) + f(s.last())
    }
}

/// One more element adds its own list.
pub proof fn lemma_concat_step<T, U>(s: Seq<T>, f: spec_fn(T) -> Seq<U>, i: int)
    requires
        0 <= i < s.len(),
    ensures
        concat_map(s.take(i + 1), f) == concat_map(s.take(i), f) + f(s[i]),
{
    assert(s.take(i + 1).drop_last() == s.take(i));
    assert(s.take(i + 1).last() == s[i]);
}

/// The first value that a function gives for the elements of a list.
pub open spec fn find_map<T, U>(s: Seq<T>, f: spec_fn(T) -> Option<U>) -> Option<U>
    decreases s.len(),
{
    if s.len() == 0 {
        None
    } else {
        match find_map(s.drop_last(), f) {
            Some(found) => Some(found),
            None => f(s.last()),
        }
    }
}

/// A value that is found in the front of a list is found in the whole list.
pub proof fn lemma_find_front<T, U>(s: Seq<T>, f: spec_fn(T) -> Option<U>, i: int)
    requires
        0 <= i <= s.len(),
        find_map(s.take(i), f) is Some,
    ensures
        find_map(s, f) == find_map(s.take(i), f),
    decreases s.len(),
{
    if i == s.len() {
        assert(s.take(i) == s);
    } else {
        assert(s.drop_last().take(i) == s.take(i));
        lemma_find_front(s.drop_last(), f, i);
    }
}

/// A value that is found is that of some element.
pub proof fn lemma_find_source<T, U>(s: Seq<T>, f: spec_fn(T) -> Option<U>) -> (i: int)
    requires
        find_map(s, f) is Some,
    ensures
        0 <= i < s.len(),
        f(s[i]) == find_map(s, f),
    decreases s.len(),
{
    if find_map(s.drop_last(), f) is Some {
        lemma_find_source(s.drop_last(), f)
    } else {
        s.len() - 1
    }
}

/// The search goes on behind the elements that give nothing.
pub proof fn lemma_find_step<T, U>(s: Seq<T>, f: spec_fn(T) -> Option<U>, i: int)
    requires
        0 <= i < s.len(),
        find_map(s.take(i), f) is None,
    ensures
        find_map(s.take(i + 1), f) == f(s[i]),
        f(s[i]) is Some ==> find_map(s, f) == f(s[i]),
{
    assert(s.take(i + 1).drop_last() == s.take(i));
    assert(s.take(i + 1).last() == s[i]);
    if f(s[i]) is Some {
        lemma_find_front(s, f, i + 1);
    }
}

/// A reference to a value stands for the value.
pub open spec fn pointee<T>(reference: Option<&T>) -> Option<T> {
    match reference {
        Some(value) => Some(*value),
        None => None,
    }
}

/// The model of a value that may be missing.
pub open spec fn seen<T: View>(value: Option<T>) -> Option<T::V> {
    match value {
        Some(value) => Some(value@),
        None => None,
    }
}

/// The models of the values of a list.
pub open spec fn views<T: View>(s: Seq<T>) -> Seq<T::V> {
    Seq::new(s.len(), |i: int| s[i]@)
}

/// Finds the first value that a function gives for the elements of a list.
pub(crate) fn first<'a, T, U, F: Fn(&'a T) -> Option<U>>(items: &'a Vec<T>, f: F, Ghost(g): Ghost<
    spec_fn(T) -> Option<U>,
>) -> (found: Option<U>)
    requires
        forall|x: T| #[trigger] f.requires((&x,)),
        forall|x: T, y: Option<U>| f.ensures((&x,), y) ==> y == g(x),
    ensures
        found == find_map(items@, g),
{
    let ghost all = items@;
    let mut i: usize = 0;
    assert(all.take(0) == Seq::<T>::empty());
    while i < items.len()
        invariant
            i <= all.len(),
            all == items@,
            find_map(all.take(i as int), g) is None,
            forall|x: T| #[trigger] f.requires((&x,)),
            forall|x: T, y: Option<U>| f.ensures((&x,), y) ==> y == g(x),
        decreases all.len() - i,
    {
        proof {
            lemma_find_step(all, g, i as int);
        }
        let found = f(&items[i]);
        if found.is_some() {
            return found;
        }
        i += 1;
    }
    assert(all.take(i as int) == all);
    None
}

/// Finds the first element of a list that passes a test.
pub open spec fn find<T>(s: Seq<T>, test: spec_fn(T) -> bool) -> Option<T> {
    find_map(
        s,
        |x: T|
            if test(x) {
                Some(x)
            } else {
                None
            },
    )
}

/// Finds the first value that a function gives for the elements of a list, by its model.
pub(crate) fn first_seen<'a, T, U: View, F: Fn(&'a T) -> Option<U>>(items: &'a Vec<T>, f: F, Ghost(g): Ghost<
    spec_fn(T) -> Option<U::V>,
>) -> (found: Option<U>)
    requires
        forall|x: T| #[trigger] f.requires((&x,)),
        forall|x: T, y: Option<U>| f.ensures((&x,), y) ==> seen(y) == g(x),
    ensures
        seen(found) == find_map(items@, g),
{
    let ghost all = items@;
    let mut i: usize = 0;
    assert(all.take(0) == Seq::<T>::empty());
    while i < items.len()
        invariant
            i <= all.len(),
            all == items@,
            find_map(all.take(i as int), g) is None,
            forall|x: T| #[trigger] f.requires((&x,)),
            forall|x: T, y: Option<U>| f.ensures((&x,), y) ==> seen(y) == g(x),
        decreases all.len() - i,
    {
        proof {
            lemma_find_step(all, g, i as int);
        }
        let found = f(&items[i]);
        if found.is_some() {
            return found;
        }
        i += 1;
    }
    assert(all.take(i as int) == all);
    None
}

/// Finds the first element of a list that passes a test.
pub(crate) fn first_where<T, F: Fn(&T) -> bool>(items: &Vec<T>, f: F, Ghost(test): Ghost<
    spec_fn(T) -> bool,
>) -> (found: Option<&T>)
    requires
        forall|x: T| #[trigger] f.requires((&x,)),
        forall|x: T, y: bool| f.ensures((&x,), y) ==> y == test(x),
    ensures
        pointee(found) == find(items@, test),
{
    let ghost all = items@;
    let ghost g = |x: T|
        if test(x) {
            Some(x)
        } else {
            None
        };
    let mut i: usize = 0;
    assert(all.take(0) == Seq::<T>::empty());
    while i < items.len()
        invariant
            i <= all.len(),
            all == items@,
            g == |x: T|
                if test(x) {
                    Some(x)
                } else {
                    None
                },
            find_map(all.take(i as int), g) is None,
            forall|x: T| #[trigger] f.requires((&x,)),
            forall|x: T, y: bool| f.ensures((&x,), y) ==> y == test(x),
        decreases all.len() - i,
    {
        proof {
            lemma_find_step(all, g, i as int);
        }
        if f(&items[i]) {
            return Some(&items[i]);
        }
        i += 1;
    }
    assert(all.take(i as int) == all);
    None
}

/// Whether an element of a list passes a test.
pub open spec fn any<T>(s: Seq<T>, test: spec_fn(T) -> bool) -> bool {
    exists|i: int| 0 <= i < s.len() && test(#[trigger] s[i])
}

pub(crate) fn has_any<T, F: Fn(&T) -> bool>(items: &Vec<T>, f: F, Ghost(test): Ghost<
    spec_fn(T) -> bool,
>) -> (found: bool)
    requires
        forall|x: T| #[trigger] f.requires((&x,)),
        forall|x: T, y: bool| f.ensures((&x,), y) ==> y == test(x),
    ensures
        found == any(items@, test),
{
    let mut i: usize = 0;
    while i < items.len()
        invariant
            i <= items@.len(),
            forall|j: int| 0 <= j < i ==> !test(#[trigger] items@[j]),
            forall|x: T| #[trigger] f.requires((&x,)),
            forall|x: T, y: bool| f.ensures((&x,), y) ==> y == test(x),
        decreases items@.len() - i,
    {
        if f(&items[i]) {
            assert(test(items@[i as int]));
            return true;
        }
        i += 1;
    }
    false
}

/// Puts the lists that a function gives for the elements of a list in a row.
pub(crate) fn gather<T, U: View, F: Fn(&T) -> Vec<U>>(items: &Vec<T>, f: F, Ghost(g): Ghost<
    spec_fn(T) -> Seq<U::V>,
>) -> (all: Vec<U>)
    requires
        forall|x: T| #[trigger] f.requires((&x,)),
        forall|x: T, y: Vec<U>| f.ensures((&x,), y) ==> views(y@) == g(x),
    ensures
        views(all@) == concat_map(items@, g),
{
    let ghost listed = items@;
    let mut all: Vec<U> = Vec::new();
    let mut i: usize = 0;
    assert(listed.take(0) == Seq::<T>::empty());
    assert(views(all@) == Seq::<U::V>::empty());
    while i < items.len()
        invariant
            i <= listed.len(),
            listed == items@,
            views(all@) == concat_map(listed.take(i as int), g),
            forall|x: T| #[trigger] f.requires((&x,)),
            forall|x: T, y: Vec<U>| f.ensures((&x,), y) ==> views(y@) == g(x),
        decreases listed.len() - i,
    {
        let ghost before = all@;
        let mut more = f(&items[i]);
        let ghost added = more@;
        all.append(&mut more);
        proof {
            lemma_concat_step(listed, g, i as int);
            assert(views(all@) == views(before) + views(added));
        }
        i += 1;
    }
    assert(listed.take(i as int) == listed);
    all
}

/// The values that a function gives for some of the elements of a list.
pub open spec fn filter_map<T, U>(s: Seq<T>, f: spec_fn(T) -> Option<U>) -> Seq<U>
    decreases s.len(),
{
    if s.len() == 0 {
        Seq::empty()
    } else {
        match f(s.last()) {
            Some(value) => filter_map(s.drop_last(), f).push(value),
            None => filter_map(s.drop_last(), f),
        }
    }
}

/// Lists the values that a function gives for some of the elements of a list.
pub(crate) fn collect<T, U: View, F: Fn(&T) -> Option<U>>(items: &Vec<T>, f: F, Ghost(g): Ghost<
    spec_fn(T) -> Option<U::V>,
>) -> (all: Vec<U>)
    requires
        forall|x: T| #[trigger] f.requires((&x,)),
        forall|x: T, y: Option<U>| f.ensures((&x,), y) ==> seen(y) == g(x),
    ensures
        views(all@) == filter_map(items@, g),
{
    let ghost listed = items@;
    let mut all: Vec<U> = Vec::new();
    let mut i: usize = 0;
    assert(listed.take(0) == Seq::<T>::empty());
    assert(views(all@) == Seq::<U::V>::empty());
    while i < items.len()
        invariant
            i <= listed.len(),
            listed == items@,
            views(all@) == filter_map(listed.take(i as int), g),
            forall|x: T| #[trigger] f.requires((&x,)),
            forall|x: T, y: Option<U>| f.ensures((&x,), y) ==> seen(y) == g(x),
        decreases listed.len() - i,
    {
        let ghost before = all@;
        assert(listed.take(i + 1).drop_last() == listed.take(i as int));
        assert(listed.take(i + 1).last() == listed[i as int]);
        if let Some(value) = f(&items[i]) {
            let ghost model = value@;
            all.push(value);
            assert(views(all@) == views(before).push(model));
        }
        i += 1;
    }
    assert(listed.take(i as int) == listed);
    all
}

/// The place of the first element of a list that passes a test.
pub open spec fn position<T>(s: Seq<T>, test: spec_fn(T) -> bool) -> Option<usize>
    decreases s.len(),
{
    if s.len() == 0 {
        None
    } else {
        match position(s.drop_last(), test) {
            Some(i) => Some(i),
            None => if test(s.last()) {
                Some((s.len() - 1) as usize)
            } else {
                None
            },
        }
    }
}

proof fn lemma_position_front<T>(s: Seq<T>, test: spec_fn(T) -> bool, i: int)
    requires
        0 <= i <= s.len(),
        position(s.take(i), test) is Some,
    ensures
        position(s, test) == position(s.take(i), test),
    decreases s.len(),
{
    if i == s.len() {
        assert(s.take(i) == s);
    } else {
        assert(s.drop_last().take(i) == s.take(i));
        lemma_position_front(s.drop_last(), test, i);
    }
}

/// Finds the place of the first element of a list that passes a test.
pub(crate) fn find_position<T, F: Fn(&T) -> bool>(items: &Vec<T>, f: F, Ghost(test): Ghost<
    spec_fn(T) -> bool,
>) -> (found: Option<usize>)
    requires
        forall|x: T| #[trigger] f.requires((&x,)),
        forall|x: T, y: bool| f.ensures((&x,), y) ==> y == test(x),
    ensures
        found == position(items@, test),
        found matches Some(i) ==> i < items@.len() && test(items@[i as int]),
{
    let ghost all = items@;
    let mut i: usize = 0;
    assert(all.take(0) == Seq::<T>::empty());
    while i < items.len()
        invariant
            i <= all.len(),
            all == items@,
            position(all.take(i as int), test) is None,
            forall|x: T| #[trigger] f.requires((&x,)),
            forall|x: T, y: bool| f.ensures((&x,), y) ==> y == test(x),
        decreases all.len() - i,
    {
        assert(all.take(i + 1).drop_last() == all.take(i as int));
        assert(all.take(i + 1).last() == all[i as int]);
        if f(&items[i]) {
            proof {
                assert(position(all.take(i + 1), test) == Some(i));
                lemma_position_front(all, test, i + 1);
            }
            return Some(i);
        }
        i += 1;
    }
    assert(all.take(i as int) == all);
    None
}

/// The first of two values that is there.
pub open spec fn or_else<T>(a: Option<T>, b: Option<T>) -> Option<T> {
    match a {
        Some(value) => Some(value),
        None => b,
    }
}

/// Puts two lists in a row.
pub(crate) fn join<T: View>(first: Vec<T>, second: Vec<T>) -> (both: Vec<T>)
    ensures
        views(both@) == views(first@) + views(second@),
        both@ == first@ + second@,
{
    let mut both = first;
    let mut more = second;
    both.append(&mut more);
    assert(views(both@) == views(first@) + views(second@));
    both
}

/// Lists the values that a function gives for some of the elements of a list, by their models.
pub(crate) fn collect_by_view<T: View, U: View, F: Fn(&T) -> Option<U>>(
    items: &Vec<T>,
    f: F,
    Ghost(g): Ghost<spec_fn(T::V) -> Option<U::V>>,
) -> (all: Vec<U>)
    requires
        forall|x: T| #[trigger] f.requires((&x,)),
        forall|x: T, y: Option<U>| f.ensures((&x,), y) ==> seen(y) == g(x@),
    ensures
        views(all@) == filter_map(views(items@), g),
{
    let ghost listed = views(items@);
    let mut all: Vec<U> = Vec::new();
    let mut i: usize = 0;
    assert(listed.take(0) == Seq::<T::V>::empty());
    assert(views(all@) == Seq::<U::V>::empty());
    while i < items.len()
        invariant
            i <= listed.len(),
            listed == views(items@),
            views(all@) == filter_map(listed.take(i as int), g),
            forall|x: T| #[trigger] f.requires((&x,)),
            forall|x: T, y: Option<U>| f.ensures((&x,), y) ==> seen(y) == g(x@),
        decreases listed.len() - i,
    {
        let ghost before = all@;
        assert(listed.take(i + 1).drop_last() == listed.take(i as int));
        assert(listed.take(i + 1).last() == items@[i as int]@);
        if let Some(value) = f(&items[i]) {
            let ghost model = value@;
            all.push(value);
            assert(views(all@) == views(before).push(model));
        }
        i += 1;
    }
    assert(listed.take(i as int) == listed);
    all
}

/// Puts the lists that a function gives for the elements of a list in a row, by their models.
pub(crate) fn gather_by_view<T: View, U: View, F: Fn(&T) -> Vec<U>>(
    items: &Vec<T>,
    f: F,
    Ghost(g): Ghost<spec_fn(T::V) -> Seq<U::V>>,
) -> (all: Vec<U>)
    requires
        forall|x: T| #[trigger] f.requires((&x,)),
        forall|x: T, y: Vec<U>| f.ensures((&x,), y) ==> views(y@) == g(x@),
    ensures
        views(all@) == concat_map(views(items@), g),
{
    let ghost listed = views(items@);
    let mut all: Vec<U> = Vec::new();
    let mut i: usize = 0;
    assert(listed.take(0) == Seq::<T::V>::empty());
    assert(views(all@) == Seq::<U::V>::empty());
    while i < items.len()
        invariant
            i <= listed.len(),
            listed == views(items@),
            views(all@) == concat_map(listed.take(i as int), g),
            forall|x: T| #[trigger] f.requires((&x,)),
            forall|x: T, y: Vec<U>| f.ensures((&x,), y) ==> views(y@) == g(x@),
        decreases listed.len() - i,
    {
        let ghost before = all@;
        let mut more = f(&items[i]);
        let ghost added = more@;
        all.append(&mut more);
        proof {
            lemma_concat_step(listed, g, i as int);
            assert(views(all@) == views(before) + views(added));
        }
        i += 1;
    }
    assert(listed.take(i as int) == listed);
    all
}

/// A value that stands first: a list's search gives what the first element with a value has, and
/// nothing only where no element has one.
pub proof fn law_find_map<T, U>(s: Seq<T>, f: spec_fn(T) -> Option<U>)
    ensures
        find_map(s, f) is None <==> forall|i: int| 0 <= i < s.len() ==> f(#[trigger] s[i]) is None,
        forall|i: int|
            0 <= i < s.len() && f(#[trigger] s[i]) is Some && (forall|j: int|
                0 <= j < i ==> f(#[trigger] s[j]) is None) ==> find_map(s, f) == f(s[i]),
        find_map(s, f) is Some ==> exists|i: int|
            0 <= i < s.len() && f(#[trigger] s[i]) == find_map(s, f) && forall|j: int|
                0 <= j < i ==> f(#[trigger] s[j]) is None,
    decreases s.len(),
{
    if s.len() > 0 {
        let front = s.drop_last();
        law_find_map(front, f);
        assert forall|i: int| 0 <= i < front.len() implies #[trigger] s[i] == front[i] by {}
        if find_map(front, f) is None {
            assert forall|i: int| 0 <= i < front.len() implies f(#[trigger] s[i]) is None by {
                assert(f(front[i]) is None);
            }
            if f(s.last()) is Some {
                assert(f(s[s.len() - 1]) == find_map(s, f));
            }
        } else {
            let i = choose|i: int|
                0 <= i < front.len() && f(#[trigger] front[i]) == find_map(front, f) && forall|j: int|
                    0 <= j < i ==> f(#[trigger] front[j]) is None;
            assert(f(s[i]) == find_map(s, f));
            assert forall|j: int| 0 <= j < i implies f(#[trigger] s[j]) is None by {
                assert(f(front[j]) is None);
            }
            assert forall|k: int|
                0 <= k < s.len() && f(#[trigger] s[k]) is Some && (forall|j: int|
                    0 <= j < k ==> f(#[trigger] s[j]) is None) implies find_map(s, f) == f(s[k]) by {
                if k < i {
                    assert(f(s[k]) is None);
                } else if i < k {
                    assert(f(s[i]) is None);
                }
            }
        }
    }
}

/// The search for an element that passes a test gives the first one, and nothing only where none
/// passes.
pub proof fn law_find<T>(s: Seq<T>, test: spec_fn(T) -> bool)
    ensures
        find(s, test) is None <==> forall|i: int| 0 <= i < s.len() ==> !test(#[trigger] s[i]),
        forall|i: int|
            0 <= i < s.len() && test(#[trigger] s[i]) && (forall|j: int|
                0 <= j < i ==> !test(#[trigger] s[j])) ==> find(s, test) == Some(s[i]),
        find(s, test) is Some ==> test(find(s, test)->0) && exists|i: int|
            0 <= i < s.len() && #[trigger] s[i] == find(s, test)->0 && forall|j: int|
                0 <= j < i ==> !test(#[trigger] s[j]),
{
    let f = |x: T|
        if test(x) {
            Some(x)
        } else {
            None
        };
    law_find_map(s, f);
    if find(s, test) is Some {
        let i = choose|i: int|
            0 <= i < s.len() && f(#[trigger] s[i]) == find_map(s, f) && forall|j: int|
                0 <= j < i ==> f(#[trigger] s[j]) is None;
        assert(s[i] == find(s, test)->0);
        assert forall|j: int| 0 <= j < i implies !test(#[trigger] s[j]) by {
            assert(f(s[j]) is None);
        }
    } else {
        assert forall|i: int| 0 <= i < s.len() implies !test(#[trigger] s[i]) by {
            assert(f(s[i]) is None);
        }
    }
    assert forall|i: int|
        0 <= i < s.len() && test(#[trigger] s[i]) && (forall|j: int|
            0 <= j < i ==> !test(#[trigger] s[j])) implies find(s, test) == Some(s[i]) by {
        assert forall|j: int| 0 <= j < i implies f(#[trigger] s[j]) is None by {}
        assert(f(s[i]) is Some);
    }
}

/// Where one element alone passes a test, the search finds it.
pub proof fn law_find_only<T>(s: Seq<T>, test: spec_fn(T) -> bool, i: int)
    requires
        0 <= i < s.len(),
        test(s[i]),
        forall|j: int| 0 <= j < s.len() && test(#[trigger] s[j]) ==> s[j] == s[i],
    ensures
        find(s, test) == Some(s[i]),
{
    law_find(s, test);
    if find(s, test) is None {
        assert(!test(s[i]));
    }
}

/// The values of the elements that have one are listed, and nothing else is.
pub proof fn law_filter_map<T, U>(s: Seq<T>, f: spec_fn(T) -> Option<U>)
    ensures
        forall|i: int|
            0 <= i < s.len() && f(#[trigger] s[i]) is Some ==> filter_map(s, f).contains(f(s[i])->0),
        forall|value: U| #[trigger]
            filter_map(s, f).contains(value) ==> exists|i: int|
                0 <= i < s.len() && f(#[trigger] s[i]) == Some(value),
    decreases s.len(),
{
    if s.len() > 0 {
        let front = s.drop_last();
        let all = filter_map(s, f);
        let before = filter_map(front, f);
        law_filter_map(front, f);
        assert forall|i: int| 0 <= i < s.len() && f(#[trigger] s[i]) is Some implies all.contains(
            f(s[i])->0,
        ) by {
            if i == s.len() - 1 {
                assert(all.last() == f(s[i])->0);
                assert(all[all.len() - 1] == f(s[i])->0);
            } else {
                assert(front[i] == s[i]);
                let k = choose|k: int| 0 <= k < before.len() && before[k] == f(front[i])->0;
                assert(all[k] == before[k]);
            }
        }
        assert forall|value: U| #[trigger] all.contains(value) implies exists|i: int|
            0 <= i < s.len() && f(#[trigger] s[i]) == Some(value) by {
            let k = choose|k: int| 0 <= k < all.len() && all[k] == value;
            if k < before.len() {
                assert(before[k] == all[k]);
                assert(before.contains(value));
                let i = choose|i: int| 0 <= i < front.len() && f(#[trigger] front[i]) == Some(value);
                assert(s[i] == front[i]);
            } else {
                assert(f(s[s.len() - 1]) == Some(value));
            }
        }
    }
}

/// The lists of all elements are put in a row: each of their values is in it, and nothing else
/// is.
pub proof fn law_concat_map<T, U>(s: Seq<T>, f: spec_fn(T) -> Seq<U>)
    ensures
        forall|i: int, value: U|
            0 <= i < s.len() && #[trigger] f(s[i]).contains(value) ==> concat_map(s, f).contains(
                value,
            ),
        forall|value: U| #[trigger]
            concat_map(s, f).contains(value) ==> exists|i: int|
                0 <= i < s.len() && f(#[trigger] s[i]).contains(value),
    decreases s.len(),
{
    if s.len() > 0 {
        let front = s.drop_last();
        let all = concat_map(s, f);
        let before = concat_map(front, f);
        law_concat_map(front, f);
        law_joined(before, f(s.last()));
        assert forall|i: int, value: U| 0 <= i < s.len() && #[trigger] f(s[i]).contains(
            value,
        ) implies all.contains(value) by {
            if i < s.len() - 1 {
                assert(front[i] == s[i]);
                assert(f(front[i]).contains(value));
            }
        }
        assert forall|value: U| #[trigger] all.contains(value) implies exists|i: int|
            0 <= i < s.len() && f(#[trigger] s[i]).contains(value) by {
            if before.contains(value) {
                let i = choose|i: int| 0 <= i < front.len() && f(#[trigger] front[i]).contains(value);
                assert(s[i] == front[i]);
            } else {
                assert(f(s[s.len() - 1]).contains(value));
            }
        }
    }
}

/// Two lists in a row hold what either holds.
pub proof fn law_joined<T>(first: Seq<T>, second: Seq<T>)
    ensures
        forall|value: T|
            #![trigger (first + second).contains(value)]
            #![trigger first.contains(value)]
            #![trigger second.contains(value)]
            (first + second).contains(value) <==> first.contains(value) || second.contains(value),
{
    let both = first + second;
    assert forall|value: T| both.contains(value) == (first.contains(value) || second.contains(
        value,
    )) by {
        if first.contains(value) {
            let i = choose|i: int| 0 <= i < first.len() && first[i] == value;
            assert(both[i] == value);
        }
        if second.contains(value) {
            let i = choose|i: int| 0 <= i < second.len() && second[i] == value;
            assert(both[first.len() + i] == value);
        }
        if both.contains(value) {
            let i = choose|i: int| 0 <= i < both.len() && both[i] == value;
            if i < first.len() {
                assert(first[i] == value);
            } else {
                assert(second[i - first.len()] == value);
            }
        }
    }
}

/// Values are listed in the order of their elements: those of the front of a list come before
/// those of its rest.
pub proof fn law_filter_map_order<T, U>(s: Seq<T>, f: spec_fn(T) -> Option<U>, i: int)
    requires
        0 <= i <= s.len(),
    ensures
        filter_map(s, f) == filter_map(s.take(i), f) + filter_map(s.skip(i), f),
    decreases s.len(),
{
    if i == s.len() {
        assert(s.take(i) == s);
        assert(s.skip(i) == Seq::<T>::empty());
    } else {
        let front = s.drop_last();
        law_filter_map_order(front, f, i);
        assert(front.take(i) == s.take(i));
        assert(s.skip(i).drop_last() == front.skip(i));
        assert(s.skip(i).last() == s.last());
    }
}

/// Lists are put in a row in the order of their elements: those of the front of a list come
/// before those of its rest.
pub proof fn law_concat_map_order<T, U>(s: Seq<T>, f: spec_fn(T) -> Seq<U>, i: int)
    requires
        0 <= i <= s.len(),
    ensures
        concat_map(s, f) == concat_map(s.take(i), f) + concat_map(s.skip(i), f),
    decreases s.len(),
{
    if i == s.len() {
        assert(s.take(i) == s);
        assert(s.skip(i) == Seq::<T>::empty());
    } else {
        let front = s.drop_last();
        law_concat_map_order(front, f, i);
        assert(front.take(i) == s.take(i));
        assert(s.skip(i).drop_last() == front.skip(i));
        assert(s.skip(i).last() == s.last());
    }
}

/// The values of two elements stand in the order of the elements.
pub proof fn law_filter_map_in_order<T, U>(
    s: Seq<T>,
    f: spec_fn(T) -> Option<U>,
    i: int,
    j: int,
) -> (at: (int, int))
    requires
        0 <= i < j < s.len(),
        f(s[i]) is Some,
        f(s[j]) is Some,
    ensures
        0 <= at.0 < at.1 < filter_map(s, f).len(),
        f(s[i]) == Some(filter_map(s, f)[at.0]),
        f(s[j]) == Some(filter_map(s, f)[at.1]),
{
    let front = filter_map(s.take(i + 1), f);
    let back = filter_map(s.skip(i + 1), f);
    law_filter_map_order(s, f, i + 1);
    assert(s.take(i + 1).last() == s[i]);
    law_filter_map(s.skip(i + 1), f);
    assert(s.skip(i + 1)[j - i - 1] == s[j]);
    let k = choose|k: int| 0 <= k < back.len() && back[k] == f(s[j])->0;
    (front.len() - 1, front.len() + k)
}

} // verus!
