//! Small tables keyed by text that remember the order in which keys arrived.
use vstd::prelude::*;

use crate::text::str_eq;

verus! {

/// Index of the first entry with a key.
pub open spec fn index_of<V>(entries: Seq<(Seq<char>, V)>, key: Seq<char>) -> Option<int>
    decreases entries.len(),
{
    if entries.len() == 0 {
        None
    } else {
        match index_of(entries.drop_last(), key) {
            Some(i) => Some(i),
            None => if entries.last().0 == key {
                Some(entries.len() - 1)
            } else {
                None
            },
        }
    }
}

/// The value of a key.
pub open spec fn lookup<V>(entries: Seq<(Seq<char>, V)>, key: Seq<char>) -> Option<V> {
    match index_of(entries, key) {
        Some(i) => Some(entries[i].1),
        None => None,
    }
}

/// The entries with a value for a key: in the place of the earlier value, else at the end.
pub open spec fn with_entry<V>(entries: Seq<(Seq<char>, V)>, key: Seq<char>, value: V) -> Seq<
    (Seq<char>, V),
> {
    match index_of(entries, key) {
        Some(i) => entries.update(i, (key, value)),
        None => entries.push((key, value)),
    }
}

/// The entries without a key.
pub open spec fn without_entry<V>(entries: Seq<(Seq<char>, V)>, key: Seq<char>) -> Seq<
    (Seq<char>, V),
> {
    match index_of(entries, key) {
        Some(i) => entries.remove(i),
        None => entries,
    }
}

/// Whether no key occurs twice.
pub open spec fn keys_distinct<V>(entries: Seq<(Seq<char>, V)>) -> bool {
    forall|i: int, j: int|
        0 <= i < j < entries.len() ==> #[trigger] entries[i].0 != #[trigger] entries[j].0
}

pub proof fn lemma_index_of<V>(entries: Seq<(Seq<char>, V)>, key: Seq<char>)
    ensures
        match index_of(entries, key) {
            Some(i) => 0 <= i < entries.len() && entries[i].0 == key && forall|j: int|
                0 <= j < i ==> (#[trigger] entries[j]).0 != key,
            None => forall|j: int| 0 <= j < entries.len() ==> (#[trigger] entries[j]).0 != key,
        },
    decreases entries.len(),
{
    if entries.len() > 0 {
        lemma_index_of(entries.drop_last(), key);
        assert forall|j: int| 0 <= j < entries.len() - 1 implies entries.drop_last()[j]
            == #[trigger] entries[j] by {}
    }
}

/// An index whose entry has the key and that no earlier entry with the key precedes is the
/// index of the key.
pub proof fn lemma_index_of_unique<V>(entries: Seq<(Seq<char>, V)>, key: Seq<char>, i: int)
    requires
        0 <= i < entries.len(),
        entries[i].0 == key,
        forall|j: int| 0 <= j < i ==> (#[trigger] entries[j]).0 != key,
    ensures
        index_of(entries, key) == Some(i),
{
    lemma_index_of(entries, key);
}

/// A value that was put under a key is found under it, and no other key changes.
pub proof fn lemma_with_entry<V>(
    entries: Seq<(Seq<char>, V)>,
    key: Seq<char>,
    value: V,
    other: Seq<char>,
)
    ensures
        lookup(with_entry(entries, key, value), key) == Some(value),
        other != key ==> lookup(with_entry(entries, key, value), other) == lookup(entries, other),
        keys_distinct(entries) ==> keys_distinct(with_entry(entries, key, value)),
{
    let grown = with_entry(entries, key, value);
    lemma_index_of(entries, key);
    lemma_index_of(entries, other);
    lemma_index_of(grown, key);
    lemma_index_of(grown, other);
    match index_of(entries, key) {
        Some(i) => {
            assert forall|j: int| 0 <= j < entries.len() && j != i implies grown[j]
                == #[trigger] entries[j] by {}
            lemma_index_of_unique(grown, key, i);
            if other != key {
                match index_of(entries, other) {
                    Some(k) => {
                        assert(k != i);
                        lemma_index_of_unique(grown, other, k);
                    },
                    None => {},
                }
            }
        },
        None => {
            assert forall|j: int| 0 <= j < entries.len() implies grown[j] == #[trigger] entries[j] by {}
            lemma_index_of_unique(grown, key, entries.len() as int);
            if other != key {
                match index_of(entries, other) {
                    Some(k) => {
                        lemma_index_of_unique(grown, other, k);
                    },
                    None => {},
                }
            }
        },
    }
}

/// A key that was removed from distinct keys is gone, and no other key changes.
pub proof fn lemma_without_entry<V>(entries: Seq<(Seq<char>, V)>, key: Seq<char>, other: Seq<char>)
    requires
        keys_distinct(entries),
    ensures
        lookup(without_entry(entries, key), key) is None,
        other != key ==> lookup(without_entry(entries, key), other) == lookup(entries, other),
        keys_distinct(without_entry(entries, key)),
{
    let rest = without_entry(entries, key);
    lemma_index_of(entries, key);
    lemma_index_of(entries, other);
    lemma_index_of(rest, key);
    lemma_index_of(rest, other);
    match index_of(entries, key) {
        Some(i) => {
            assert forall|j: int| 0 <= j < rest.len() implies #[trigger] rest[j] == if j < i {
                entries[j]
            } else {
                entries[j + 1]
            } by {}
            if other != key {
                match index_of(entries, other) {
                    Some(k) => {
                        let at = if k < i {
                            k
                        } else {
                            k - 1
                        };
                        assert(rest[at] == entries[k]);
                        lemma_index_of_unique(rest, other, at);
                    },
                    None => {},
                }
            }
        },
        None => {},
    }
}

/// The entries as they are seen from outside.
pub open spec fn viewed<V: View>(entries: Seq<(String, V)>) -> Seq<(Seq<char>, V::V)> {
    Seq::new(entries.len(), |i: int| (entries[i].0@, entries[i].1@))
}

/// A table from text to values.
pub struct Table<V> {
    entries: Vec<(String, V)>,
}

impl<V: View> View for Table<V> {
    type V = Seq<(Seq<char>, V::V)>;

    closed spec fn view(&self) -> Seq<(Seq<char>, V::V)> {
        viewed(self.entries@)
    }
}

impl<V: View> Table<V> {
    pub fn new() -> (table: Table<V>)
        ensures
            table@ == Seq::<(Seq<char>, V::V)>::empty(),
    {
        let table = Table { entries: Vec::new() };
        assert(table@ == Seq::<(Seq<char>, V::V)>::empty());
        table
    }

    pub fn len(&self) -> (len: usize)
        ensures
            len == self@.len(),
    {
        self.entries.len()
    }

    pub fn value_at(&self, i: usize) -> (value: &V)
        requires
            i < self@.len(),
        ensures
            value@ == self@[i as int].1,
    {
        &self.entries[i].1
    }

    pub fn find(&self, key: &str) -> (found: Option<usize>)
        ensures
            match found {
                Some(i) => i < self@.len() && index_of(self@, key@) == Some(i as int),
                None => index_of(self@, key@) is None,
            },
    {
        let mut i: usize = 0;
        while i < self.entries.len()
            invariant
                i <= self@.len(),
                self@ == viewed(self.entries@),
                forall|j: int| 0 <= j < i ==> (#[trigger] self@[j]).0 != key@,
            decreases self@.len() - i,
        {
            if str_eq(self.entries[i].0.as_str(), key) {
                proof {
                    lemma_index_of_unique(self@, key@, i as int);
                }
                return Some(i);
            }
            i += 1;
        }
        proof {
            lemma_index_of(self@, key@);
        }
        None
    }

    pub fn get(&self, key: &str) -> (value: Option<&V>)
        ensures
            match value {
                Some(value) => lookup(self@, key@) == Some(value@),
                None => lookup(self@, key@) is None,
            },
    {
        match self.find(key) {
            Some(i) => Some(&self.entries[i].1),
            None => None,
        }
    }

    pub fn contains(&self, key: &str) -> (found: bool)
        ensures
            found == (lookup(self@, key@) is Some),
    {
        match self.find(key) {
            Some(_) => true,
            None => false,
        }
    }

    pub fn put(&mut self, key: &str, value: V)
        ensures
            final(self)@ == with_entry(old(self)@, key@, value@),
    {
        let ghost before = self@;
        match self.find(key) {
            Some(i) => {
                self.entries[i] = (key.to_owned(), value);
                assert(self@ == before.update(i as int, (key@, value@)));
            },
            None => {
                self.entries.push((key.to_owned(), value));
                assert(self@ == before.push((key@, value@)));
            },
        }
    }

    pub fn remove(&mut self, key: &str) -> (removed: Option<V>)
        ensures
            final(self)@ == without_entry(old(self)@, key@),
            match removed {
                Some(value) => lookup(old(self)@, key@) == Some(value@),
                None => lookup(old(self)@, key@) is None,
            },
    {
        let ghost before = self@;
        match self.find(key) {
            Some(i) => {
                let (_, value) = self.entries.remove(i);
                assert(self@ == before.remove(i as int));
                Some(value)
            },
            None => None,
        }
    }
}

} // verus!
