//! A small table keyed by byte strings, for keys that are too wide for an integer.

use crate::types::copy_of;
use vstd::prelude::*;

verus! {

/// The value of the first entry that carries the key.
pub open spec fn lookup<V>(entries: Seq<(Vec<u8>, V)>, key: Seq<u8>) -> Option<V>
    decreases entries.len(),
{
    if entries.len() == 0 {
        None
    } else if entries.first().0@ == key {
        Some(entries.first().1)
    } else {
        lookup(entries.skip(1), key)
    }
}

/// The place of the first entry that carries the key.
pub open spec fn position<V>(entries: Seq<(Vec<u8>, V)>, key: Seq<u8>) -> Option<int>
    decreases entries.len(),
{
    if entries.len() == 0 {
        None
    } else if entries.first().0@ == key {
        Some(0)
    } else {
        match position(entries.skip(1), key) {
            Some(i) => Some(i + 1),
            None => None,
        }
    }
}

/// `position` is the least index that carries the key, and `lookup` the value there.
pub proof fn lemma_position<V>(entries: Seq<(Vec<u8>, V)>, key: Seq<u8>)
    ensures
        match position(entries, key) {
            Some(i) => {
                &&& 0 <= i < entries.len()
                &&& entries[i].0@ == key
                &&& forall|j: int| 0 <= j < i ==> entries[j].0@ != key
                &&& lookup(entries, key) == Some(entries[i].1)
            },
            None => {
                &&& forall|j: int| 0 <= j < entries.len() ==> entries[j].0@ != key
                &&& lookup(entries, key) is None
            },
        },
    decreases entries.len(),
{
    if entries.len() > 0 && entries.first().0@ != key {
        let rest = entries.skip(1);
        lemma_position(rest, key);
        assert forall|j: int| 1 <= j < entries.len() implies entries[j] == rest[j - 1] by {}
    }
}

/// Appending an entry changes only the lookup of its key, and that only where the key was absent.
pub proof fn lemma_lookup_push<V>(entries: Seq<(Vec<u8>, V)>, e: (Vec<u8>, V), key: Seq<u8>)
    ensures
        lookup(entries.push(e), key) == if lookup(entries, key) is Some {
            lookup(entries, key)
        } else if e.0@ == key {
            Some(e.1)
        } else {
            None
        },
    decreases entries.len(),
{
    if entries.len() == 0 {
        assert(entries.push(e).skip(1) =~= entries);
    } else if entries.first().0@ != key {
        assert(entries.push(e).skip(1) =~= entries.skip(1).push(e));
        lemma_lookup_push(entries.skip(1), e, key);
    }
}

/// Replacing the first entry of a key by another entry of that key changes only the lookup of that key.
pub proof fn lemma_lookup_update<V>(entries: Seq<(Vec<u8>, V)>, i: int, e: (Vec<u8>, V), key: Seq<u8>)
    requires
        position(entries, e.0@) == Some(i),
    ensures
        lookup(entries.update(i, e), key) == if e.0@ == key {
            Some(e.1)
        } else {
            lookup(entries, key)
        },
    decreases entries.len(),
{
    lemma_position(entries, e.0@);
    if i > 0 {
        assert(entries.update(i, e).skip(1) =~= entries.skip(1).update(i - 1, e));
        lemma_lookup_update(entries.skip(1), i - 1, e, key);
    } else {
        assert(entries.update(i, e).skip(1) =~= entries.skip(1));
    }
}

/// Taking out an entry leaves the lookup of every other key as it was.
pub proof fn lemma_lookup_remove<V>(entries: Seq<(Vec<u8>, V)>, i: int, key: Seq<u8>)
    requires
        0 <= i < entries.len(),
        entries[i].0@ != key,
    ensures
        lookup(entries.remove(i), key) == lookup(entries, key),
    decreases entries.len(),
{
    if i > 0 {
        assert(entries.remove(i).skip(1) =~= entries.skip(1).remove(i - 1));
        lemma_lookup_remove(entries.skip(1), i - 1, key);
    } else {
        assert(entries.remove(i) =~= entries.skip(1));
    }
}

/// Whether two byte strings are the same.
pub fn same_bytes(a: &Vec<u8>, b: &Vec<u8>) -> (same: bool)
    ensures
        same == (a@ == b@),
{
    if a.len() != b.len() {
        return false;
    }
    let mut i: usize = 0;
    while i < a.len()
        invariant
            i <= a.len(),
            a.len() == b.len(),
            forall|j: int| 0 <= j < i ==> a@[j] == b@[j],
        decreases a.len() - i,
    {
        if a[i] != b[i] {
            return false;
        }
        i = i + 1;
    }
    proof {
        assert(a@ =~= b@);
    }
    true
}

/// A table from byte strings to values. Its view is the map it stands for.
pub struct ByteTable<V> {
    entries: Vec<(Vec<u8>, V)>,
}

impl<V> View for ByteTable<V> {
    type V = Map<Seq<u8>, V>;

    closed spec fn view(&self) -> Map<Seq<u8>, V> {
        Map::new(
            |key: Seq<u8>| lookup(self.entries@, key) is Some,
            |key: Seq<u8>| lookup(self.entries@, key).unwrap(),
        )
    }
}

impl<V> ByteTable<V> {
    /// A table without entries.
    pub fn new() -> (table: ByteTable<V>)
        ensures
            table@ == Map::<Seq<u8>, V>::empty(),
    {
        let table = ByteTable { entries: Vec::new() };
        proof {
            assert(table@ =~= Map::<Seq<u8>, V>::empty());
        }
        table
    }

    /// The place of the first entry that carries the key.
    fn find(&self, key: &Vec<u8>) -> (found: Option<usize>)
        ensures
            match found {
                Some(i) => position(self.entries@, key@) == Some(i as int) && i
                    < self.entries.len(),
                None => position(self.entries@, key@) is None,
            },
    {
        let mut i: usize = 0;
        while i < self.entries.len()
            invariant
                i <= self.entries.len(),
                forall|j: int| 0 <= j < i ==> self.entries@[j].0@ != key@,
            decreases self.entries.len() - i,
        {
            if same_bytes(&self.entries[i].0, key) {
                proof {
                    lemma_position(self.entries@, key@);
                }
                return Some(i);
            }
            i = i + 1;
        }
        proof {
            lemma_position(self.entries@, key@);
        }
        None
    }

    /// The value under a key, if there is one.
    pub fn get(&self, key: &Vec<u8>) -> (found: Option<&V>)
        ensures
            match found {
                Some(v) => self@.contains_key(key@) && *v == self@[key@],
                None => !self@.contains_key(key@),
            },
    {
        proof {
            lemma_position(self.entries@, key@);
        }
        match self.find(key) {
            Some(i) => Some(&self.entries[i].1),
            None => None,
        }
    }

    /// Puts a value under a key, in place of the value that was there, if any.
    pub fn put(&mut self, key: &Vec<u8>, value: V)
        ensures
            final(self)@ == old(self)@.insert(key@, value),
    {
        let entry = (copy_of(key), value);
        proof {
            lemma_position(self.entries@, key@);
        }
        match self.find(key) {
            Some(i) => {
                proof {
                    assert forall|other: Seq<u8>|
                        lookup(self.entries@.update(i as int, entry), other) == if other == key@ {
                            Some(value)
                        } else {
                            lookup(self.entries@, other)
                        } by {
                        lemma_lookup_update(self.entries@, i as int, entry, other);
                    }
                }
                self.entries.set(i, entry);
            },
            None => {
                proof {
                    assert forall|other: Seq<u8>|
                        lookup(self.entries@.push(entry), other) == if other == key@ {
                            Some(value)
                        } else {
                            lookup(self.entries@, other)
                        } by {
                        lemma_lookup_push(self.entries@, entry, other);
                    }
                }
                self.entries.push(entry);
            },
        }
        proof {
            assert(final(self)@ =~= old(self)@.insert(key@, value));
        }
    }

    /// Takes a key and its value out of the table.
    pub fn remove(&mut self, key: &Vec<u8>)
        ensures
            final(self)@ == old(self)@.remove(key@),
    {
        loop
            invariant
                forall|other: Seq<u8>|
                    other != key@ ==> #[trigger] lookup(self.entries@, other) == lookup(
                        old(self).entries@,
                        other,
                    ),
            ensures
                lookup(self.entries@, key@) is None,
            decreases self.entries.len(),
        {
            proof {
                lemma_position(self.entries@, key@);
            }
            match self.find(key) {
                Some(i) => {
                    let ghost before = self.entries@;
                    self.entries.remove(i);
                    proof {
                        assert forall|other: Seq<u8>| other != key@ implies #[trigger] lookup(
                            self.entries@,
                            other,
                        ) == lookup(old(self).entries@, other) by {
                            lemma_lookup_remove(before, i as int, other);
                            assert(lookup(before, other) == lookup(old(self).entries@, other));
                        }
                    }
                },
                None => {
                    break ;
                },
            }
        }
        proof {
            assert(final(self)@ =~= old(self)@.remove(key@));
        }
    }
}

} // verus!
