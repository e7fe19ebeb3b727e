//! A row: the values of one line, each under the name of its column.

use vstd::prelude::*;
use crate::value::{CsvValue, Scalar};

verus! {

/// The map that a list of entries stands for: later entries win over earlier
/// ones with the same key.
pub open spec fn map_of(entries: Seq<(String, CsvValue)>) -> Map<Seq<char>, Scalar>
    decreases entries.len(),
{
    if entries.len() == 0 {
        Map::empty()
    } else {
        map_of(entries.drop_last()).insert(entries.last().0@, entries.last().1@)
    }
}

/// No key stands in two entries.
pub open spec fn distinct_keys(entries: Seq<(String, CsvValue)>) -> bool {
    forall|i: int, j: int|
        0 <= i < j < entries.len() ==> (#[trigger] entries[i]).0@ != (#[trigger] entries[j]).0@
}

/// Without its last entry, a list of distinct keys still has distinct keys.
proof fn lemma_distinct_keys_drop_last(entries: Seq<(String, CsvValue)>)
    requires
        distinct_keys(entries),
        entries.len() > 0,
    ensures
        distinct_keys(entries.drop_last()),
{
    let before = entries.drop_last();
    assert forall|i: int, j: int| 0 <= i < j < before.len() implies (#[trigger] before[i]).0@
        != (#[trigger] before[j]).0@ by {
        assert(before[i] == entries[i] && before[j] == entries[j]);
    }
}

/// The keys of `map_of(entries)` are the keys of the entries.
pub proof fn lemma_map_of_keys(entries: Seq<(String, CsvValue)>)
    ensures
        map_of(entries).dom().finite(),
        forall|k: Seq<char>|
            map_of(entries).contains_key(k) <==> exists|i: int|
                0 <= i < entries.len() && (#[trigger] entries[i]).0@ == k,
    decreases entries.len(),
{
    if entries.len() > 0 {
        let before = entries.drop_last();
        lemma_map_of_keys(before);
        assert forall|k: Seq<char>|
            map_of(entries).contains_key(k) <==> exists|i: int|
                0 <= i < entries.len() && (#[trigger] entries[i]).0@ == k by {
            if map_of(before).contains_key(k) {
                let i = choose|i: int| 0 <= i < before.len() && (#[trigger] before[i]).0@ == k;
                assert(entries[i].0@ == k);
            }
            if exists|i: int| 0 <= i < entries.len() && (#[trigger] entries[i]).0@ == k {
                let i = choose|i: int| 0 <= i < entries.len() && (#[trigger] entries[i]).0@ == k;
                if i < before.len() {
                    assert(before[i].0@ == k);
                }
            }
        }
    }
}

/// Where no key stands twice, each entry's value is the one under its key,
/// and there are as many keys as entries.
pub proof fn lemma_map_of_distinct(entries: Seq<(String, CsvValue)>)
    requires
        distinct_keys(entries),
    ensures
        map_of(entries).len() == entries.len(),
        forall|i: int|
            0 <= i < entries.len() ==> map_of(entries).contains_key((#[trigger] entries[i]).0@)
                && map_of(entries)[entries[i].0@] == entries[i].1@,
    decreases entries.len(),
{
    if entries.len() > 0 {
        let before = entries.drop_last();
        let last = entries.last();
        lemma_distinct_keys_drop_last(entries);
        lemma_map_of_distinct(before);
        lemma_map_of_keys(before);
        assert(!map_of(before).contains_key(last.0@)) by {
            if map_of(before).contains_key(last.0@) {
                let i = choose|i: int|
                    0 <= i < before.len() && (#[trigger] before[i]).0@ == last.0@;
                assert(entries[i].0@ == entries[entries.len() - 1].0@);
            }
        }
        assert forall|i: int| 0 <= i < entries.len() implies map_of(entries).contains_key(
            (#[trigger] entries[i]).0@,
        ) && map_of(entries)[entries[i].0@] == entries[i].1@ by {
            if i < before.len() {
                assert(before[i] == entries[i]);
            }
        }
    }
}

/// Putting a new value where the key already stands is `insert` on the map.
pub proof fn lemma_map_of_update(
    entries: Seq<(String, CsvValue)>,
    at: int,
    entry: (String, CsvValue),
)
    requires
        distinct_keys(entries),
        0 <= at < entries.len(),
        entries[at].0@ == entry.0@,
    ensures
        distinct_keys(entries.update(at, entry)),
        map_of(entries.update(at, entry)) == map_of(entries).insert(entry.0@, entry.1@),
    decreases entries.len(),
{
    let updated = entries.update(at, entry);
    assert forall|i: int, j: int| 0 <= i < j < updated.len() implies (#[trigger] updated[i]).0@
        != (#[trigger] updated[j]).0@ by {
        assert(updated[i].0@ == entries[i].0@ && updated[j].0@ == entries[j].0@);
    }
    let before = entries.drop_last();
    if at == entries.len() - 1 {
        assert(updated.drop_last() =~= before);
    } else {
        lemma_distinct_keys_drop_last(entries);
        lemma_map_of_update(before, at, entry);
        assert(updated.drop_last() =~= before.update(at, entry));
        assert(entries[at].0@ != entries[entries.len() - 1].0@);
    }
    assert(map_of(updated) =~= map_of(entries).insert(entry.0@, entry.1@));
}

/// The values of one line, each under the name of its column. A column whose
/// field was blank has no entry.
///
/// The entries stand in a list in which no name occurs twice. Of a hash map
/// with strings for keys nothing could be proved: the model of the standard
/// map holds only for key types that are known to hash as they compare.
#[derive(Debug)]
pub struct Row {
    entries: Vec<(String, CsvValue)>,
}

impl View for Row {
    type V = Map<Seq<char>, Scalar>;

    closed spec fn view(&self) -> Map<Seq<char>, Scalar> {
        map_of(self.entries@)
    }
}

impl Row {
    #[verifier::type_invariant]
    spec fn well_formed(self) -> bool {
        distinct_keys(self.entries@)
    }

    /// A row without entries.
    pub fn new() -> (r: Row)
        ensures
            r@ == Map::<Seq<char>, Scalar>::empty(),
    {
        Row { entries: Vec::new() }
    }

    /// Where `key` stands among the entries, if it does.
    fn position(&self, key: &String) -> (r: Option<usize>)
        ensures
            match r {
                Some(i) => i < self.entries.len() && self.entries@[i as int].0@ == key@,
                None => forall|i: int|
                    0 <= i < self.entries.len() ==> (#[trigger] self.entries@[i]).0@ != key@,
            },
    {
        let mut i: usize = 0;
        while i < self.entries.len()
            invariant
                i <= self.entries.len(),
                forall|j: int| 0 <= j < i ==> (#[trigger] self.entries@[j]).0@ != key@,
            decreases self.entries.len() - i,
        {
            if self.entries[i].0 == *key {
                return Some(i);
            }
            i += 1;
        }
        None
    }

    /// Puts `value` under `key`. A value that stood there before is gone.
    pub fn insert(&mut self, key: String, value: CsvValue)
        ensures
            final(self)@ == old(self)@.insert(key@, value@),
    {
        proof {
            use_type_invariant(&*self);
        }
        let found = self.position(&key);
        let mut entries: Vec<(String, CsvValue)> = Vec::new();
        core::mem::swap(&mut self.entries, &mut entries);
        match found {
            Some(i) => {
                proof {
                    lemma_map_of_update(entries@, i as int, (key, value));
                }
                entries[i] = (key, value);
            },
            None => {
                assert(entries@.push((key, value)).drop_last() =~= entries@);
                assert(distinct_keys(entries@.push((key, value))));
                entries.push((key, value));
            },
        }
        core::mem::swap(&mut self.entries, &mut entries);
    }

    /// The value under `key`, if there is one.
    pub fn get(&self, key: &str) -> (r: Option<&CsvValue>)
        ensures
            match r {
                Some(value) => self@.contains_key(key@) && self@[key@] == value@,
                None => !self@.contains_key(key@),
            },
    {
        proof {
            use_type_invariant(self);
            lemma_map_of_keys(self.entries@);
            lemma_map_of_distinct(self.entries@);
        }
        let owned: String = key.to_owned();
        match self.position(&owned) {
            Some(i) => Some(&self.entries[i].1),
            None => None,
        }
    }

    /// Whether a value stands under `key`.
    pub fn contains_key(&self, key: &str) -> (r: bool)
        ensures
            r == self@.contains_key(key@),
    {
        self.get(key).is_some()
    }

    /// The number of entries.
    pub fn len(&self) -> (r: usize)
        ensures
            r == self@.len(),
            self@.dom().finite(),
    {
        proof {
            use_type_invariant(self);
            lemma_map_of_keys(self.entries@);
            lemma_map_of_distinct(self.entries@);
        }
        self.entries.len()
    }

    /// Whether the row has no entry.
    pub fn is_empty(&self) -> (r: bool)
        ensures
            r == (self@.len() == 0),
    {
        self.len() == 0
    }

    /// The entries as they stand, each key once, in no particular order.
    pub fn entries(&self) -> (r: &[(String, CsvValue)])
        ensures
            distinct_keys(r@),
            map_of(r@) == self@,
    {
        proof {
            use_type_invariant(self);
        }
        self.entries.as_slice()
    }

    /// The entries, each key once, in no particular order.
    pub fn into_entries(self) -> (r: Vec<(String, CsvValue)>)
        ensures
            distinct_keys(r@),
            map_of(r@) == self@,
    {
        proof {
            use_type_invariant(&self);
        }
        self.entries
    }
}

} // verus!
