//! A small map keyed by strings.
//!
//! The manager's maps hold a handful of entries each, so the table keeps them
//! in a vector and looks a key up by scanning. No key occurs twice: that is
//! the table's invariant, and what makes it a map.

use vstd::prelude::*;
use vstd::string::*;

verus! {

/// Whether `key` is the key of one of `entries`.
pub open spec fn has_key<V>(entries: Seq<(String, V)>, key: Seq<char>) -> bool {
    exists|i: int| 0 <= i < entries.len() && (#[trigger] entries[i]).0@ == key
}

/// The position of `key` among `entries`.
pub open spec fn position_of<V>(entries: Seq<(String, V)>, key: Seq<char>) -> int {
    choose|i: int| 0 <= i < entries.len() && (#[trigger] entries[i]).0@ == key
}

/// No two of `entries` share a key.
pub open spec fn distinct_keys<V>(entries: Seq<(String, V)>) -> bool {
    forall|i: int, j: int|
        0 <= i < j < entries.len() ==> (#[trigger] entries[i]).0@ != (#[trigger] entries[j]).0@
}

/// The map that a duplicate-free list of entries stands for.
pub open spec fn map_of<V>(entries: Seq<(String, V)>) -> Map<Seq<char>, V> {
    Map::new(
        |key: Seq<char>| has_key(entries, key),
        |key: Seq<char>| entries[position_of(entries, key)].1,
    )
}

/// In a duplicate-free list, the entry at `i` is what its key maps to.
pub proof fn lemma_map_of_entry<V>(entries: Seq<(String, V)>, i: int)
    requires
        distinct_keys(entries),
        0 <= i < entries.len(),
    ensures
        map_of(entries).contains_key(entries[i].0@),
        map_of(entries)[entries[i].0@] == entries[i].1,
        position_of(entries, entries[i].0@) == i,
{
    let key = entries[i].0@;
    assert(has_key(entries, key));
    let p = position_of(entries, key);
    assert(0 <= p < entries.len() && entries[p].0@ == key);
    if p < i {
        assert(entries[p].0@ != entries[i].0@);
    } else if i < p {
        assert(entries[i].0@ != entries[p].0@);
    }
}

/// Giving the entry at `i` a new value gives its key that value, and leaves
/// the other keys as they were.
pub proof fn lemma_map_of_update<V>(entries: Seq<(String, V)>, i: int, value: V)
    requires
        distinct_keys(entries),
        0 <= i < entries.len(),
    ensures
        distinct_keys(entries.update(i, (entries[i].0, value))),
        map_of(entries.update(i, (entries[i].0, value))) == map_of(entries).insert(
            entries[i].0@,
            value,
        ),
{
    let after = entries.update(i, (entries[i].0, value));
    assert(distinct_keys(after)) by {
        assert forall|a: int, b: int| 0 <= a < b < after.len() implies (#[trigger] after[a]).0@ != (
        #[trigger] after[b]).0@ by {
            assert(after[a].0@ == entries[a].0@);
            assert(after[b].0@ == entries[b].0@);
        }
    }
    let expected = map_of(entries).insert(entries[i].0@, value);
    assert forall|key: Seq<char>| map_of(after).contains_key(key) <==> expected.contains_key(
        key,
    ) by {
        if has_key(after, key) {
            let p = position_of(after, key);
            assert(entries[p].0@ == key);
        }
        if has_key(entries, key) {
            let p = position_of(entries, key);
            assert(after[p].0@ == key);
        }
        assert(after[i].0@ == entries[i].0@);
    }
    assert forall|key: Seq<char>| map_of(after).contains_key(key) implies map_of(after)[key]
        == expected[key] by {
        let p = position_of(after, key);
        lemma_map_of_entry(after, p);
        if p != i {
            assert(after[p] == entries[p]);
            lemma_map_of_entry(entries, p);
        }
    }
    assert(map_of(after) =~= expected);
}

/// Adding an entry under a new key adds that key with its value.
pub proof fn lemma_map_of_push<V>(entries: Seq<(String, V)>, key: String, value: V)
    requires
        distinct_keys(entries),
        !has_key(entries, key@),
    ensures
        distinct_keys(entries.push((key, value))),
        map_of(entries.push((key, value))) == map_of(entries).insert(key@, value),
{
    let after = entries.push((key, value));
    assert(distinct_keys(after)) by {
        assert forall|a: int, b: int| 0 <= a < b < after.len() implies (#[trigger] after[a]).0@ != (
        #[trigger] after[b]).0@ by {
            assert(after[a] == entries[a]);
            if b < entries.len() {
                assert(after[b] == entries[b]);
            }
        }
    }
    let expected = map_of(entries).insert(key@, value);
    assert forall|k: Seq<char>| map_of(after).contains_key(k) <==> expected.contains_key(k) by {
        if has_key(after, k) {
            let p = position_of(after, k);
            if p < entries.len() {
                assert(entries[p].0@ == k);
            }
        }
        if has_key(entries, k) {
            let p = position_of(entries, k);
            assert(after[p].0@ == k);
        }
        assert(after[entries.len() as int].0@ == key@);
    }
    assert forall|k: Seq<char>| map_of(after).contains_key(k) implies map_of(after)[k]
        == expected[k] by {
        let p = position_of(after, k);
        lemma_map_of_entry(after, p);
        if p < entries.len() {
            assert(after[p] == entries[p]);
            lemma_map_of_entry(entries, p);
        }
    }
    assert(map_of(after) =~= expected);
}

/// Taking the entry at `i` out takes its key out, and leaves the other keys
/// as they were.
pub proof fn lemma_map_of_remove<V>(entries: Seq<(String, V)>, i: int)
    requires
        distinct_keys(entries),
        0 <= i < entries.len(),
    ensures
        distinct_keys(entries.remove(i)),
        map_of(entries.remove(i)) == map_of(entries).remove(entries[i].0@),
{
    let after = entries.remove(i);
    assert(distinct_keys(after)) by {
        assert forall|a: int, b: int| 0 <= a < b < after.len() implies (#[trigger] after[a]).0@ != (
        #[trigger] after[b]).0@ by {
            let a0 = if a < i { a } else { a + 1 };
            let b0 = if b < i { b } else { b + 1 };
            assert(after[a] == entries[a0]);
            assert(after[b] == entries[b0]);
        }
    }
    let expected = map_of(entries).remove(entries[i].0@);
    assert forall|k: Seq<char>| map_of(after).contains_key(k) <==> expected.contains_key(k) by {
        if has_key(after, k) {
            let p = position_of(after, k);
            let p0 = if p < i { p } else { p + 1 };
            assert(after[p] == entries[p0]);
            assert(entries[p0].0@ == k);
            if p0 < i {
                assert(entries[p0].0@ != entries[i].0@);
            } else {
                assert(entries[i].0@ != entries[p0].0@);
            }
        }
        if has_key(entries, k) && k != entries[i].0@ {
            let p = position_of(entries, k);
            let q = if p < i { p } else { p - 1 };
            assert(after[q] == entries[p]);
            assert(after[q].0@ == k);
        }
    }
    assert forall|k: Seq<char>| map_of(after).contains_key(k) implies map_of(after)[k]
        == expected[k] by {
        let p = position_of(after, k);
        lemma_map_of_entry(after, p);
        let p0 = if p < i { p } else { p + 1 };
        assert(after[p] == entries[p0]);
        lemma_map_of_entry(entries, p0);
    }
    assert(map_of(after) =~= expected);
}

/// The map that a list of entries builds when they are inserted one after
/// the other: of two entries with one key, the later stays.
pub open spec fn collected<V>(entries: Seq<(String, V)>) -> Map<Seq<char>, V>
    decreases entries.len(),
{
    if entries.len() == 0 {
        Map::empty()
    } else {
        collected(entries.drop_last()).insert(entries.last().0@, entries.last().1)
    }
}

/// A duplicate-free list builds the map that it stands for.
pub proof fn lemma_collected_distinct<V>(entries: Seq<(String, V)>)
    requires
        distinct_keys(entries),
    ensures
        collected(entries) == map_of(entries),
    decreases entries.len(),
{
    if entries.len() == 0 {
        assert(map_of(entries) =~= Map::<Seq<char>, V>::empty());
    } else {
        let init = entries.drop_last();
        let last = entries.last();
        assert(distinct_keys(init)) by {
            assert forall|a: int, b: int| 0 <= a < b < init.len() implies (#[trigger] init[a]).0@
                != (#[trigger] init[b]).0@ by {
                assert(init[a] == entries[a]);
                assert(init[b] == entries[b]);
            }
        }
        lemma_collected_distinct(init);
        assert(!has_key(init, last.0@)) by {
            if has_key(init, last.0@) {
                let p = position_of(init, last.0@);
                assert(init[p] == entries[p]);
                assert(entries[p].0@ != entries[entries.len() - 1].0@);
            }
        }
        lemma_map_of_push(init, last.0, last.1);
        assert(init.push((last.0, last.1)) =~= entries);
    }
}

/// Mutable access to the value of the entry at `i`; its key stays.
fn value_mut<V>(entries: &mut Vec<(String, V)>, i: usize) -> (value: &mut V)
    requires
        i < old(entries)@.len(),
    ensures
        *value == old(entries)@[i as int].1,
        final(entries)@ == old(entries)@.update(i as int, (old(entries)@[i as int].0, *final(value))),
    no_unwind
{
    &mut entries[i].1
}

/// A map from strings to values of `V`.
pub struct Table<V> {
    entries: Vec<(String, V)>,
}

impl<V> View for Table<V> {
    type V = Map<Seq<char>, V>;

    closed spec fn view(&self) -> Map<Seq<char>, V> {
        map_of(self.entries@)
    }
}

impl<V> Table<V> {
    #[verifier::type_invariant]
    spec fn well_formed(self) -> bool {
        distinct_keys(self.entries@)
    }

    /// The entries in the order in which the table lists them.
    pub closed spec fn listing(&self) -> Seq<(String, V)> {
        self.entries@
    }

    /// An empty table.
    pub fn new() -> (table: Self)
        ensures
            table@ == Map::<Seq<char>, V>::empty(),
            table.listing().len() == 0,
    {
        let table = Table { entries: Vec::new() };
        proof {
            assert(table@ =~= Map::<Seq<char>, V>::empty());
        }
        table
    }

    /// The table that `entries` build when they are inserted one after the
    /// other.
    pub fn from_entries(entries: Vec<(String, V)>) -> (table: Self)
        ensures
            table@ == collected(entries@),
    {
        let mut table: Table<V> = Table::new();
        let ghost all = entries@;
        for entry in it: entries
            invariant
                it.seq() == all,
                table@ == collected(all.take(it.index() as int)),
        {
            proof {
                let done = all.take(it.index() as int);
                let next = all.take(it.index() + 1);
                assert(next.drop_last() =~= done);
                assert(next.last() == entry);
            }
            table.insert(entry.0, entry.1);
        }
        proof {
            assert(all.take(all.len() as int) =~= all);
        }
        table
    }

    /// The number of entries. The entries are listed without a key twice,
    /// and stand for the table.
    pub fn len(&self) -> (n: usize)
        ensures
            n == self.listing().len(),
            distinct_keys(self.listing()),
            map_of(self.listing()) == self@,
    {
        proof {
            use_type_invariant(self);
        }
        self.entries.len()
    }

    /// The key of entry `i` of the listing.
    pub fn key_at(&self, i: usize) -> (key: &String)
        requires
            i < self.listing().len(),
        ensures
            *key == self.listing()[i as int].0,
    {
        &self.entries[i].0
    }

    /// The value of entry `i` of the listing.
    pub fn value_at(&self, i: usize) -> (value: &V)
        requires
            i < self.listing().len(),
        ensures
            *value == self.listing()[i as int].1,
    {
        &self.entries[i].1
    }

    /// Where `key` stands among the entries, if it does.
    fn find(&self, key: &str) -> (found: Option<usize>)
        ensures
            match found {
                Some(i) => i < self.entries@.len() && self.entries@[i as int].0@ == key@,
                None => !has_key(self.entries@, key@),
            },
    {
        let wanted = String::from_str(key);
        let mut i: usize = 0;
        while i < self.entries.len()
            invariant
                wanted@ == key@,
                i <= self.entries@.len(),
                forall|j: int| 0 <= j < i ==> (#[trigger] self.entries@[j]).0@ != key@,
            decreases self.entries@.len() - i,
        {
            if self.entries[i].0 == wanted {
                return Some(i);
            }
            i += 1;
        }
        None
    }

    /// Gives `key` the value `value`, and returns the value it had.
    pub fn insert(&mut self, key: String, value: V) -> (previous: Option<V>)
        ensures
            final(self)@ == old(self)@.insert(key@, value),
            match previous {
                Some(p) => old(self)@.contains_key(key@) && p == old(self)@[key@],
                None => !old(self)@.contains_key(key@),
            },
    {
        proof {
            use_type_invariant(&*self);
        }
        let found = self.find(key.as_str());
        let mut entries: Vec<(String, V)> = Vec::new();
        std::mem::swap(&mut self.entries, &mut entries);
        match found {
            Some(i) => {
                proof {
                    lemma_map_of_entry(entries@, i as int);
                    lemma_map_of_update(entries@, i as int, value);
                }
                let mut held = value;
                std::mem::swap(value_mut(&mut entries, i), &mut held);
                self.entries = entries;
                Some(held)
            },
            None => {
                proof {
                    lemma_map_of_push(entries@, key, value);
                }
                entries.push((key, value));
                self.entries = entries;
                None
            },
        }
    }

    /// Takes `key` out, and returns the value it had.
    pub fn remove(&mut self, key: &str) -> (previous: Option<V>)
        ensures
            final(self)@ == old(self)@.remove(key@),
            match previous {
                Some(p) => old(self)@.contains_key(key@) && p == old(self)@[key@],
                None => !old(self)@.contains_key(key@),
            },
    {
        proof {
            use_type_invariant(&*self);
        }
        match self.find(key) {
            Some(i) => {
                let mut entries: Vec<(String, V)> = Vec::new();
                std::mem::swap(&mut self.entries, &mut entries);
                proof {
                    lemma_map_of_entry(entries@, i as int);
                    lemma_map_of_remove(entries@, i as int);
                }
                let entry = entries.remove(i);
                self.entries = entries;
                Some(entry.1)
            },
            None => {
                proof {
                    assert(self@.remove(key@) =~= self@);
                }
                None
            },
        }
    }

    /// Mutable access to the value of `key`, if it has one. What is written
    /// through it becomes the value of `key`; nothing else changes.
    pub fn get_mut(&mut self, key: &str) -> (value: Option<&mut V>)
        ensures
            match value {
                Some(v) => old(self)@.contains_key(key@) && *v == old(self)@[key@] && final(self)@
                    == old(self)@.insert(key@, *final(v)),
                None => !old(self)@.contains_key(key@) && final(self)@ == old(self)@,
            },
    {
        proof {
            use_type_invariant(&*self);
        }
        match self.find(key) {
            Some(i) => {
                proof {
                    lemma_map_of_entry(self.entries@, i as int);
                    assert forall|v: V| #[trigger]
                        map_of(self.entries@.update(i as int, (self.entries@[i as int].0, v)))
                            == map_of(self.entries@).insert(key@, v) by {
                        lemma_map_of_update(self.entries@, i as int, v);
                    }
                    assert forall|v: V| #[trigger]
                        distinct_keys(self.entries@.update(i as int, (self.entries@[i as int].0, v))) by {
                        lemma_map_of_update(self.entries@, i as int, v);
                    }
                }
                Some(value_mut(&mut self.entries, i))
            },
            None => None,
        }
    }

    /// Whether `key` has a value.
    pub fn contains_key(&self, key: &str) -> (found: bool)
        ensures
            found == self@.contains_key(key@),
    {
        self.find(key).is_some()
    }

    /// The value of `key`, if it has one.
    pub fn get(&self, key: &str) -> (value: Option<&V>)
        ensures
            match value {
                Some(v) => self@.contains_key(key@) && *v == self@[key@],
                None => !self@.contains_key(key@),
            },
    {
        proof {
            use_type_invariant(self);
        }
        match self.find(key) {
            Some(i) => {
                proof {
                    lemma_map_of_entry(self.entries@, i as int);
                }
                Some(&self.entries[i].1)
            },
            None => None,
        }
    }
}

} // verus!
