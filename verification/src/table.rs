//! An association table: a vector of entries in which no key occurs twice.
use vstd::prelude::*;

verus! {

/// A key that can be compared with another by value.
pub trait TableKey: View {
    /// Whether both keys stand for the same value.
    fn same_key(&self, other: &Self) -> (r: bool)
        ensures
            r == (self@ == other@),
    ;
}

impl TableKey for u64 {
    fn same_key(&self, other: &Self) -> (r: bool) {
        *self == *other
    }
}

impl TableKey for String {
    fn same_key(&self, other: &Self) -> (r: bool) {
        *self == *other
    }
}

impl TableKey for [u8; 20] {
    fn same_key(&self, other: &Self) -> (r: bool) {
        let mut i: usize = 0;
        while i < 20
            invariant
                i <= 20,
                forall|j: int| 0 <= j < i ==> self@[j] == other@[j],
            decreases 20 - i,
        {
            if self[i] != other[i] {
                return false;
            }
            i += 1;
        }
        assert(self@ =~= other@);
        true
    }
}

/// Entries found again by their key.
pub struct Table<K, V> {
    entries: Vec<(K, V)>,
}

/// The position of the entry with key `k`.
pub open spec fn entry_of<K: View, V>(entries: Seq<(K, V)>, k: K::V) -> int {
    choose|i: int| 0 <= i < entries.len() && (#[trigger] entries[i]).0@ == k
}

/// Whether some entry has key `k`.
pub open spec fn has_entry<K: View, V>(entries: Seq<(K, V)>, k: K::V) -> bool {
    exists|i: int| 0 <= i < entries.len() && (#[trigger] entries[i]).0@ == k
}

/// No key occurs twice.
pub open spec fn keys_distinct<K: View, V>(entries: Seq<(K, V)>) -> bool {
    forall|i: int, j: int|
        0 <= i < entries.len() && 0 <= j < entries.len() && (#[trigger] entries[i]).0@ == (
        #[trigger] entries[j]).0@ ==> i == j
}

/// The entries as a map from key to value.
pub open spec fn entries_map<K: View, V: View>(entries: Seq<(K, V)>) -> Map<K::V, V::V> {
    Map::new(
        |k: K::V| has_entry(entries, k),
        |k: K::V| entries[entry_of(entries, k)].1@,
    )
}

impl<K: TableKey, V: View> Table<K, V> {
    /// The entries in the order in which they are kept.
    pub closed spec fn rows(&self) -> Seq<(K, V)> {
        self.entries@
    }

    /// No key occurs twice.
    pub open spec fn wf(&self) -> bool {
        keys_distinct(self.rows())
    }

    /// The table as a map from key to value.
    pub open spec fn view(&self) -> Map<K::V, V::V> {
        entries_map(self.rows())
    }

    /// An empty table.
    pub fn new() -> (r: Self)
        ensures
            r.wf(),
            r@ == Map::<K::V, V::V>::empty(),
            r.rows().len() == 0,
    {
        Table { entries: Vec::new() }
    }

    /// How many entries there are.
    pub fn len(&self) -> (r: usize)
        ensures
            r == self.rows().len(),
    {
        self.entries.len()
    }

    /// The position of the entry with the given key.
    fn position(&self, key: &K) -> (r: Option<usize>)
        ensures
            match r {
                Some(i) => i < self.rows().len() && self.rows()[i as int].0@ == key@,
                None => !has_entry(self.rows(), key@),
            },
    {
        let mut i: usize = 0;
        while i < self.entries.len()
            invariant
                i <= self.entries@.len(),
                forall|j: int| 0 <= j < i ==> (#[trigger] self.entries@[j]).0@ != key@,
            decreases self.entries@.len() - i,
        {
            if self.entries[i].0.same_key(key) {
                return Some(i);
            }
            i += 1;
        }
        None
    }

    /// Whether the key is present.
    pub fn contains_key(&self, key: &K) -> (r: bool)
        requires
            self.wf(),
        ensures
            r == self@.contains_key(key@),
    {
        self.position(key).is_some()
    }

    /// The value kept under the key.
    pub fn get(&self, key: &K) -> (r: Option<&V>)
        requires
            self.wf(),
        ensures
            match r {
                Some(v) => self@.contains_key(key@) && v@ == self@[key@],
                None => !self@.contains_key(key@),
            },
    {
        match self.position(key) {
            Some(i) => Some(&self.entries[i].1),
            None => None,
        }
    }

    /// The value kept under the key, for changing it in place.
    pub fn get_mut(&mut self, key: &K) -> (r: Option<&mut V>)
        requires
            old(self).wf(),
        ensures
            final(self).wf(),
            match r {
                Some(v) => {
                    &&& old(self)@.contains_key(key@)
                    &&& v@ == old(self)@[key@]
                    &&& final(self)@ == old(self)@.insert(key@, final(v)@)
                },
                None => !old(self)@.contains_key(key@) && *final(self) == *old(self),
            },
    {
        match self.position(key) {
            Some(i) => {
                proof {
                    lemma_replace(self.entries@, i as int);
                }
                Some(&mut self.entries[i].1)
            },
            None => None,
        }
    }

    /// Keeps `value` under `key`, in place of what was there.
    pub fn insert(&mut self, key: K, value: V)
        requires
            old(self).wf(),
        ensures
            final(self).wf(),
            final(self)@ == old(self)@.insert(key@, value@),
            final(self).rows().len() == old(self).rows().len() + (if old(self)@.contains_key(
                key@,
            ) {
                0int
            } else {
                1int
            }),
    {
        match self.position(&key) {
            Some(i) => {
                proof {
                    lemma_replace(self.entries@, i as int);
                }
                self.entries[i] = (key, value);
            },
            None => {
                proof {
                    lemma_push(self.entries@, (key, value));
                }
                self.entries.push((key, value));
            },
        }
    }

    /// Takes out the entry with the given key.
    pub fn remove(&mut self, key: &K) -> (r: Option<V>)
        requires
            old(self).wf(),
        ensures
            final(self).wf(),
            final(self)@ == old(self)@.remove(key@),
            match r {
                Some(v) => old(self)@.contains_key(key@) && v@ == old(self)@[key@]
                    && final(self).rows().len() == old(self).rows().len() - 1,
                None => !old(self)@.contains_key(key@) && *final(self) == *old(self),
            },
    {
        match self.position(key) {
            Some(i) => {
                proof {
                    lemma_remove(self.entries@, i as int);
                }
                let (_, value) = self.entries.remove(i);
                Some(value)
            },
            None => None,
        }
    }

    /// Takes out some entry.
    pub fn pop(&mut self) -> (r: Option<(K, V)>)
        requires
            old(self).wf(),
        ensures
            final(self).wf(),
            match r {
                Some((k, v)) => {
                    &&& old(self)@.contains_key(k@)
                    &&& v@ == old(self)@[k@]
                    &&& final(self)@ == old(self)@.remove(k@)
                    &&& final(self).rows().len() == old(self).rows().len() - 1
                },
                None => old(self).rows().len() == 0 && *final(self) == *old(self),
            },
    {
        if self.entries.len() == 0 {
            return None;
        }
        let last: usize = self.entries.len() - 1;
        proof {
            lemma_remove(self.entries@, last as int);
        }
        Some(self.entries.remove(last))
    }

    /// The entry at a position.
    pub fn row(&self, i: usize) -> (r: (&K, &V))
        requires
            self.wf(),
            i < self.rows().len(),
        ensures
            *r.0 == self.rows()[i as int].0,
            *r.1 == self.rows()[i as int].1,
            self@.contains_key(r.0@),
            self@[r.0@] == r.1@,
    {
        proof {
            lemma_row(self.entries@, i as int);
        }
        (&self.entries[i].0, &self.entries[i].1)
    }
}

/// The entry at a position is what the map holds under its key.
pub proof fn lemma_row<K: View, V: View>(entries: Seq<(K, V)>, i: int)
    requires
        keys_distinct(entries),
        0 <= i < entries.len(),
    ensures
        entries_map(entries).contains_key(entries[i].0@),
        entries_map(entries)[entries[i].0@] == entries[i].1@,
        entry_of(entries, entries[i].0@) == i,
{
}

proof fn lemma_replace<K: View, V: View>(entries: Seq<(K, V)>, i: int)
    requires
        keys_distinct(entries),
        0 <= i < entries.len(),
    ensures
        entries_map(entries).contains_key(entries[i].0@),
        entries_map(entries)[entries[i].0@] == entries[i].1@,
        forall|e: (K, V)|
            #![trigger entries.update(i, e)]
            e.0@ == entries[i].0@ ==> {
                &&& keys_distinct(entries.update(i, e))
                &&& entries_map(entries.update(i, e)) == entries_map(entries).insert(e.0@, e.1@)
            },
{
    lemma_row(entries, i);
    assert forall|e: (K, V)|
        #![trigger entries.update(i, e)]
        e.0@ == entries[i].0@ implies {
        &&& keys_distinct(entries.update(i, e))
        &&& entries_map(entries.update(i, e)) == entries_map(entries).insert(e.0@, e.1@)
    } by {
        let after = entries.update(i, e);
        assert forall|k: K::V| has_entry(after, k) == (has_entry(entries, k)) by {
            if has_entry(entries, k) {
                let j = entry_of(entries, k);
                assert(after[j].0@ == k);
            }
        }
    }
}

proof fn lemma_push<K: View, V: View>(entries: Seq<(K, V)>, e: (K, V))
    requires
        keys_distinct(entries),
        !has_entry(entries, e.0@),
    ensures
        keys_distinct(entries.push(e)),
        entries_map(entries.push(e)) == entries_map(entries).insert(e.0@, e.1@),
{
    let after = entries.push(e);
    assert(after[entries.len() as int] == e);
    assert forall|k: K::V| has_entry(after, k) == (k == e.0@ || has_entry(entries, k)) by {
        if has_entry(entries, k) {
            let j = entry_of(entries, k);
            assert(after[j].0@ == k);
        }
    }
}

proof fn lemma_remove<K: View, V: View>(entries: Seq<(K, V)>, i: int)
    requires
        keys_distinct(entries),
        0 <= i < entries.len(),
    ensures
        keys_distinct(entries.remove(i)),
        entries_map(entries).contains_key(entries[i].0@),
        entries_map(entries)[entries[i].0@] == entries[i].1@,
        entries_map(entries.remove(i)) == entries_map(entries).remove(entries[i].0@),
{
    lemma_row(entries, i);
    let after = entries.remove(i);
    let gone = entries[i].0@;
    assert forall|k: K::V| has_entry(after, k) == (k != gone && has_entry(entries, k)) by {
        if has_entry(entries, k) && k != gone {
            let j = entry_of(entries, k);
            if j < i {
                assert(after[j].0@ == k);
            } else {
                assert(after[j - 1].0@ == k);
            }
        }
    }
}

/// A table has as many entries as its map has keys.
pub proof fn lemma_len<K: View, V: View>(entries: Seq<(K, V)>)
    requires
        keys_distinct(entries),
    ensures
        entries_map(entries).dom().finite(),
        entries_map(entries).dom().len() == entries.len(),
    decreases entries.len(),
{
    if entries.len() == 0 {
        assert(entries_map(entries).dom() =~= Set::<K::V>::empty());
    } else {
        let last = entries.len() - 1;
        lemma_remove(entries, last);
        lemma_len(entries.remove(last));
    }
}

} // verus!
