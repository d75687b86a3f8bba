//! A table keyed by symbol: an ordered list of entries in which no key
//! occurs twice, read in contracts as a map from symbol to value.

use vstd::prelude::*;
use crate::symbols::Symbol;

verus! {

/// One entry of a table.
#[derive(Clone, Debug, PartialEq, Eq)]
pub struct Entry<V> {
    pub key: String,
    pub value: V,
}

/// A table from symbols to values.
#[derive(Clone, Debug, PartialEq, Eq)]
pub struct Table<V> {
    pub entries: Vec<Entry<V>>,
}

/// The map that a list of entries stands for: a later entry overrides an
/// earlier one with the same key.
pub open spec fn entries_map<V>(entries: Seq<Entry<V>>) -> Map<Symbol, V>
    decreases entries.len(),
{
    if entries.len() == 0 {
        Map::empty()
    } else {
        entries_map(entries.drop_last()).insert(entries.last().key@, entries.last().value)
    }
}

/// No key occurs twice among the entries.
pub open spec fn distinct_keys<V>(entries: Seq<Entry<V>>) -> bool {
    forall|i: int, j: int|
        0 <= i < j < entries.len() ==> (#[trigger] entries[i]).key@ != (#[trigger] entries[j]).key@
}

/// A key of the map is the key of some entry.
pub proof fn lemma_map_key_has_entry<V>(entries: Seq<Entry<V>>, key: Symbol)
    ensures
        entries_map(entries).contains_key(key) <==> exists|i: int|
            0 <= i < entries.len() && (#[trigger] entries[i]).key@ == key,
    decreases entries.len(),
{
    if entries.len() > 0 {
        let front = entries.drop_last();
        lemma_map_key_has_entry(front, key);
        if entries_map(entries).contains_key(key) {
            if entries.last().key@ == key {
                assert(entries[entries.len() - 1].key@ == key);
            } else {
                let i = choose|i: int| 0 <= i < front.len() && (#[trigger] front[i]).key@ == key;
                assert(entries[i].key@ == key);
            }
        }
        if exists|i: int| 0 <= i < entries.len() && (#[trigger] entries[i]).key@ == key {
            let i = choose|i: int| 0 <= i < entries.len() && (#[trigger] entries[i]).key@ == key;
            if i < entries.len() - 1 {
                assert(front[i].key@ == key);
            }
        }
    }
}

/// Where keys are distinct, every entry is what the map holds for its key.
pub proof fn lemma_entry_in_map<V>(entries: Seq<Entry<V>>, i: int)
    requires
        distinct_keys(entries),
        0 <= i < entries.len(),
    ensures
        entries_map(entries).contains_key(entries[i].key@),
        entries_map(entries)[entries[i].key@] == entries[i].value,
    decreases entries.len(),
{
    let front = entries.drop_last();
    if i < entries.len() - 1 {
        assert(distinct_keys(front)) by {
            assert forall|a: int, b: int| 0 <= a < b < front.len() implies (#[trigger] front[a]).key@
                != (#[trigger] front[b]).key@ by {
                assert(entries[a].key@ != entries[b].key@);
            }
        }
        lemma_entry_in_map(front, i);
        assert(front[i] == entries[i]);
        assert(entries[i].key@ != entries[entries.len() - 1].key@);
    }
}

/// Replacing the entry that holds a key, in a list of distinct keys, is an
/// insertion into the map.
pub proof fn lemma_replace_is_insert<V>(entries: Seq<Entry<V>>, i: int, entry: Entry<V>)
    requires
        distinct_keys(entries),
        0 <= i < entries.len(),
        entries[i].key@ == entry.key@,
    ensures
        distinct_keys(entries.update(i, entry)),
        entries_map(entries.update(i, entry)) == entries_map(entries).insert(
            entry.key@,
            entry.value,
        ),
    decreases entries.len(),
{
    let after = entries.update(i, entry);
    assert(distinct_keys(after)) by {
        assert forall|a: int, b: int| 0 <= a < b < after.len() implies (#[trigger] after[a]).key@
            != (#[trigger] after[b]).key@ by {
            assert(entries[a].key@ != entries[b].key@);
        }
    }
    let front = entries.drop_last();
    let last = entries.len() - 1;
    if i == last {
        assert(after.drop_last() =~= front);
        assert(entries_map(after) =~= entries_map(entries).insert(entry.key@, entry.value));
    } else {
        assert(distinct_keys(front)) by {
            assert forall|a: int, b: int| 0 <= a < b < front.len() implies (#[trigger] front[a]).key@
                != (#[trigger] front[b]).key@ by {
                assert(entries[a].key@ != entries[b].key@);
            }
        }
        assert(front[i] == entries[i]);
        lemma_replace_is_insert(front, i, entry);
        assert(after.drop_last() =~= front.update(i, entry));
        assert(after.last() == entries.last());
        assert(entries[i].key@ != entries[last].key@);
        assert(entries_map(after) =~= entries_map(entries).insert(entry.key@, entry.value));
    }
}

impl<V> Table<V> {
    /// The table as a map from symbol to value.
    pub open spec fn view(&self) -> Map<Symbol, V> {
        entries_map(self.entries@)
    }

    /// The table's invariant: no key occurs twice.
    pub open spec fn wf(&self) -> bool {
        distinct_keys(self.entries@)
    }

    /// The empty table.
    pub fn new() -> (table: Self)
        ensures
            table.wf(),
            table@ == Map::<Symbol, V>::empty(),
            table.entries@.len() == 0,
    {
        Table { entries: Vec::new() }
    }

    /// The number of entries.
    pub fn len(&self) -> (n: usize)
        ensures
            n == self.entries@.len(),
    {
        self.entries.len()
    }

    /// The position of the entry that decides what the table holds for
    /// `key`, if it holds anything.
    pub fn find(&self, key: &String) -> (found: Option<usize>)
        ensures
            found is Some <==> self@.contains_key(key@),
            found matches Some(i) ==> i < self.entries@.len() && self.entries@[i as int].key@
                == key@ && self@[key@] == self.entries@[i as int].value,
    {
        let mut found: Option<usize> = None;
        let mut i: usize = 0;
        while i < self.entries.len()
            invariant
                i <= self.entries.len(),
                found is Some <==> entries_map(self.entries@.take(i as int)).contains_key(key@),
                found matches Some(k) ==> k < i && self.entries@[k as int].key@ == key@
                    && entries_map(self.entries@.take(i as int))[key@]
                    == self.entries@[k as int].value,
            decreases self.entries.len() - i,
        {
            proof {
                let next = self.entries@.take(i as int + 1);
                assert(next.drop_last() =~= self.entries@.take(i as int));
                assert(next.last() == self.entries@[i as int]);
            }
            if self.entries[i].key == *key {
                found = Some(i);
            }
            i += 1;
        }
        assert(self.entries@.take(i as int) =~= self.entries@);
        found
    }

    /// The value that the table holds for `key`, if any.
    pub fn get(&self, key: &String) -> (value: Option<&V>)
        ensures
            value is Some <==> self@.contains_key(key@),
            value matches Some(v) ==> *v == self@[key@],
    {
        match self.find(key) {
            Some(i) => Some(&self.entries[i].value),
            None => None,
        }
    }

    /// Sets what the table holds for `key`: an earlier value is replaced
    /// where it stands, a new key goes to the end.
    pub fn insert(&mut self, key: String, value: V)
        requires
            old(self).wf(),
        ensures
            final(self).wf(),
            final(self)@ == old(self)@.insert(key@, value),
            !old(self)@.contains_key(key@) ==> final(self).entries@ == old(self).entries@.push(
                (Entry { key, value }),
            ),
            old(self)@.contains_key(key@) ==> exists|i: int|
                0 <= i < old(self).entries@.len() && (#[trigger] old(self).entries@[i]).key@
                    == key@ && final(self).entries@ == old(self).entries@.update(
                    i,
                    (Entry { key, value }),
                ),
    {
        let entry = Entry { key, value };
        match self.find(&entry.key) {
            Some(i) => {
                proof {
                    lemma_replace_is_insert(self.entries@, i as int, entry);
                }
                self.entries.set(i, entry);
                assert(old(self).entries@[i as int].key@ == key@);
            },
            None => {
                proof {
                    lemma_map_key_has_entry(self.entries@, entry.key@);
                    assert(self.entries@.push(entry).drop_last() =~= self.entries@);
                    assert(distinct_keys(self.entries@.push(entry)));
                }
                self.entries.push(entry);
            },
        }
    }
}

} // verus!
