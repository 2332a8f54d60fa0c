//! Values kept under text keys.

use vstd::prelude::*;

use crate::text;

verus! {

/// Where `key` first stands among the entries, at or after `from`.
pub open spec fn key_from<V>(entries: Seq<(String, V)>, key: Seq<char>, from: int) -> Option<int>
    decreases entries.len() - from,
{
    if from < 0 || from >= entries.len() {
        None
    } else if entries[from].0@ == key {
        Some(from)
    } else {
        key_from(entries, key, from + 1)
    }
}

/// What the entries map each key to: the value of its first entry.
pub open spec fn listing<V: View>(entries: Seq<(String, V)>) -> Map<Seq<char>, V::V> {
    Map::new(
        |key: Seq<char>| key_from(entries, key, 0) is Some,
        |key: Seq<char>| entries[key_from(entries, key, 0)->0].1@,
    )
}

proof fn lemma_key_at<V>(entries: Seq<(String, V)>, key: Seq<char>, from: int, at: int)
    requires
        0 <= from <= at < entries.len(),
        entries[at].0@ == key,
        forall|i: int| from <= i < at ==> (#[trigger] entries[i]).0@ != key,
    ensures
        key_from(entries, key, from) == Some(at),
    decreases at - from,
{
    if from < at {
        assert(entries[from].0@ != key);
        lemma_key_at(entries, key, from + 1, at);
    }
}

proof fn lemma_no_key<V>(entries: Seq<(String, V)>, key: Seq<char>, from: int)
    requires
        0 <= from <= entries.len(),
        forall|i: int| from <= i < entries.len() ==> (#[trigger] entries[i]).0@ != key,
    ensures
        key_from(entries, key, from) is None,
    decreases entries.len() - from,
{
    if from < entries.len() {
        assert(entries[from].0@ != key);
        lemma_no_key(entries, key, from + 1);
    }
}

proof fn lemma_key_found<V>(entries: Seq<(String, V)>, key: Seq<char>, from: int)
    requires
        0 <= from <= entries.len(),
    ensures
        match key_from(entries, key, from) {
            Some(at) => {
                &&& from <= at < entries.len()
                &&& entries[at].0@ == key
                &&& forall|i: int| from <= i < at ==> (#[trigger] entries[i]).0@ != key
            },
            None => forall|i: int|
                from <= i < entries.len() ==> (#[trigger] entries[i]).0@ != key,
        },
    decreases entries.len() - from,
{
    if from < entries.len() && entries[from].0@ != key {
        lemma_key_found(entries, key, from + 1);
    }
}

/// Two lists whose first entry of a key stands in the same place with the same
/// value map that key alike.
proof fn lemma_same_key<V>(
    entries: Seq<(String, V)>,
    other: Seq<(String, V)>,
    key: Seq<char>,
)
    requires
        entries.len() <= other.len(),
        forall|i: int| 0 <= i < entries.len() ==> (#[trigger] other[i]).0@ == entries[i].0@,
        forall|i: int|
            entries.len() <= i < other.len() ==> (#[trigger] other[i]).0@ != key,
    ensures
        key_from(other, key, 0) == key_from(entries, key, 0),
{
    lemma_key_found(entries, key, 0);
    match key_from(entries, key, 0) {
        Some(at) => {
            assert forall|i: int| 0 <= i < at implies (#[trigger] other[i]).0@ != key by {
                assert(entries[i].0@ != key);
            }
            assert(other[at].0@ == key);
            lemma_key_at(other, key, 0, at);
        },
        None => {
            assert forall|i: int| 0 <= i < other.len() implies (#[trigger] other[i]).0@ != key by {
                if i < entries.len() {
                    assert(entries[i].0@ != key);
                }
            }
            lemma_no_key(other, key, 0);
        },
    }
}

/// No key has two entries.
pub open spec fn distinct_keys<V>(entries: Seq<(String, V)>) -> bool {
    forall|i: int, j: int|
        0 <= i < j < entries.len() ==> (#[trigger] entries[i]).0@ != (#[trigger] entries[j]).0@
}

/// A map from texts to values, as a list of entries in the order in which
/// their keys came. A key has one entry at most.
pub struct Keyed<V> {
    entries: Vec<(String, V)>,
}

impl<V> Keyed<V> {
    #[verifier::type_invariant]
    spec fn well_formed(self) -> bool {
        distinct_keys(self.entries@)
    }
}

impl<V: View> View for Keyed<V> {
    type V = Map<Seq<char>, V::V>;

    closed spec fn view(&self) -> Map<Seq<char>, V::V> {
        listing(self.entries@)
    }
}

impl<V: View> Keyed<V> {
    pub fn new() -> (r: Self)
        ensures
            r@ == Map::<Seq<char>, V::V>::empty(),
    {
        let r = Keyed { entries: Vec::new() };
        assert(r@ == Map::<Seq<char>, V::V>::empty());
        r
    }

    /// The entries, in the order in which their keys came.
    pub fn entries(&self) -> (r: &Vec<(String, V)>)
        ensures
            listing(r@) == self@,
            distinct_keys(r@),
    {
        proof {
            use_type_invariant(self);
        }
        &self.entries
    }

    fn position(&self, key: &str) -> (r: Option<usize>)
        ensures
            match (r, key_from(self.entries@, key@, 0)) {
                (Some(at), Some(first)) => at == first,
                (None, None) => true,
                _ => false,
            },
    {
        let ghost entries = self.entries@;
        for i in 0..self.entries.len()
            invariant
                entries == self.entries@,
                forall|j: int| 0 <= j < i ==> (#[trigger] entries[j]).0@ != key@,
        {
            if text::same(self.entries[i].0.as_str(), key) {
                proof {
                    assert(entries[i as int].0@ == key@);
                    lemma_key_at(entries, key@, 0, i as int);
                }
                return Some(i);
            }
            assert(entries[i as int].0@ != key@);
        }
        proof {
            lemma_no_key(entries, key@, 0);
        }
        None
    }

    pub fn get(&self, key: &str) -> (r: Option<&V>)
        ensures
            match r {
                Some(value) => self@.contains_key(key@) && value@ == self@[key@],
                None => !self@.contains_key(key@),
            },
    {
        let found = self.position(key);
        proof {
            lemma_key_found(self.entries@, key@, 0);
        }
        match found {
            Some(at) => Some(&self.entries[at].1),
            None => None,
        }
    }

    /// Keeps a value under a key, in place of any that it had.
    pub fn insert(&mut self, key: &str, value: V)
        ensures
            final(self)@ == old(self)@.insert(key@, value@),
    {
        let found = self.position(key);
        let ghost before = self.entries@;
        let ghost view = value@;
        proof {
            use_type_invariant(&*self);
            lemma_key_found(before, key@, 0);
        }
        let mut entries: Vec<(String, V)> = Vec::new();
        std::mem::swap(&mut self.entries, &mut entries);
        match found {
            Some(at) => {
                entries.set(at, (key.to_owned(), value));
            },
            None => {
                entries.push((key.to_owned(), value));
            },
        }
        proof {
            let after = entries@;
            assert forall|i: int, j: int| 0 <= i < j < after.len() implies (
            #[trigger] after[i]).0@ != (#[trigger] after[j]).0@ by {
                if j < before.len() {
                    assert(after[i].0@ == before[i].0@);
                    assert(after[j].0@ == before[j].0@);
                } else {
                    assert(after[i].0@ == before[i].0@);
                }
            }
            assert forall|k: Seq<char>|
                #[trigger] listing(after).contains_key(k) == listing(before).insert(
                    key@,
                    view,
                ).contains_key(k) && (listing(after).contains_key(k) ==> listing(after)[k]
                    == listing(before).insert(key@, view)[k]) by {
                if k != key@ {
                    lemma_same_key(before, after, k);
                    lemma_key_found(before, k, 0);
                } else {
                    match key_from(before, key@, 0) {
                        Some(at) => {
                            assert(after[at].0@ == key@);
                            lemma_key_at(after, key@, 0, at);
                        },
                        None => {
                            let at = before.len() as int;
                            assert(after[at].0@ == key@);
                            lemma_key_at(after, key@, 0, at);
                        },
                    }
                }
            }
            assert(listing(after) =~= listing(before).insert(key@, view));
        }
        self.entries = entries;
    }
}

/// Entries of which no two have the same key list each key with its own value,
/// and no other key.
pub proof fn lemma_what_entries_list<V: View>(entries: Seq<(String, V)>, key: Seq<char>, i: int)
    ensures
        distinct_keys(entries) <==> forall|a: int, b: int|
            0 <= a < b < entries.len() ==> (#[trigger] entries[a]).0@ != (
            #[trigger] entries[b]).0@,
        listing(entries).contains_key(key) <==> exists|a: int|
            0 <= a < entries.len() && (#[trigger] entries[a]).0@ == key,
        distinct_keys(entries) && 0 <= i < entries.len() ==> listing(entries).contains_key(
            entries[i].0@,
        ) && listing(entries)[entries[i].0@] == entries[i].1@,
{
    lemma_key_found(entries, key, 0);
    if distinct_keys(entries) && 0 <= i < entries.len() {
        lemma_key_at(entries, entries[i].0@, 0, i);
    }
}

} // verus!
