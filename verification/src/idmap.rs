//! The resolution map: expression identifiers to lexical distances, with
//! a mathematical `Map` as its image.
use vstd::prelude::*;

verus! {

/// A table from expression identifiers to distances, with unique keys.
pub struct IdMap {
    pub entries: Vec<(u64, u32)>,
}

/// The mathematical map an entry list denotes.
pub open spec fn id_map_of(entries: Seq<(u64, u32)>) -> Map<u64, u32>
    decreases entries.len(),
{
    if entries.len() == 0 {
        Map::empty()
    } else {
        id_map_of(entries.drop_last()).insert(entries.last().0, entries.last().1)
    }
}

/// Whether an entry list has pairwise distinct keys.
pub open spec fn distinct_ids(entries: Seq<(u64, u32)>) -> bool {
    forall|i: int, j: int| 0 <= i < j < entries.len() ==> entries[i].0 != entries[j].0
}

/// In a well-formed list, the entry holding a key decides the map at it.
proof fn lemma_id_map_index(entries: Seq<(u64, u32)>, i: int)
    requires
        distinct_ids(entries),
        0 <= i < entries.len(),
    ensures
        id_map_of(entries).contains_key(entries[i].0),
        id_map_of(entries)[entries[i].0] == entries[i].1,
    decreases entries.len(),
{
    if i + 1 < entries.len() {
        lemma_id_map_index(entries.drop_last(), i);
    }
}

/// A key held by no entry is outside the map.
proof fn lemma_id_map_absent(entries: Seq<(u64, u32)>, k: u64)
    requires
        forall|i: int| 0 <= i < entries.len() ==> entries[i].0 != k,
    ensures
        !id_map_of(entries).contains_key(k),
    decreases entries.len(),
{
    if entries.len() > 0 {
        lemma_id_map_absent(entries.drop_last(), k);
    }
}

/// Replacing the entry that holds a key updates the map at that key.
proof fn lemma_id_map_update(entries: Seq<(u64, u32)>, i: int, pair: (u64, u32))
    requires
        distinct_ids(entries),
        0 <= i < entries.len(),
        pair.0 == entries[i].0,
    ensures
        id_map_of(entries.update(i, pair)) == id_map_of(entries).insert(pair.0, pair.1),
    decreases entries.len(),
{
    let updated = entries.update(i, pair);
    if i + 1 == entries.len() {
        assert(updated.drop_last() =~= entries.drop_last());
        assert(id_map_of(updated) =~= id_map_of(entries).insert(pair.0, pair.1));
    } else {
        lemma_id_map_update(entries.drop_last(), i, pair);
        assert(updated.drop_last() =~= entries.drop_last().update(i, pair));
        assert(id_map_of(updated) =~= id_map_of(entries).insert(pair.0, pair.1));
    }
}

impl View for IdMap {
    type V = Map<u64, u32>;

    open spec fn view(&self) -> Map<u64, u32> {
        id_map_of(self.entries@)
    }
}

impl IdMap {
    /// The backing list never repeats a key.
    pub open spec fn wf(&self) -> bool {
        distinct_ids(self.entries@)
    }

    /// An empty table.
    pub fn new() -> (m: IdMap)
        ensures
            m.wf(),
            m@ == Map::<u64, u32>::empty(),
    {
        IdMap { entries: Vec::new() }
    }

    /// The distance recorded for an identifier, if any.
    pub fn get(&self, key: u64) -> (r: Option<u32>)
        requires
            self.wf(),
        ensures
            match r {
                Some(d) => self@.contains_key(key) && d == self@[key],
                None => !self@.contains_key(key),
            },
    {
        let mut i: usize = 0;
        while i < self.entries.len()
            invariant
                self.wf(),
                i <= self.entries.len(),
                forall|j: int| 0 <= j < i ==> self.entries@[j].0 != key,
            decreases self.entries.len() - i,
        {
            if self.entries[i].0 == key {
                proof {
                    lemma_id_map_index(self.entries@, i as int);
                }
                return Some(self.entries[i].1);
            }
            i = i + 1;
        }
        proof {
            lemma_id_map_absent(self.entries@, key);
        }
        None
    }

    /// Records a distance for an identifier, overwriting any earlier one.
    pub fn insert(&mut self, key: u64, value: u32)
        requires
            old(self).wf(),
        ensures
            final(self).wf(),
            final(self)@ == old(self)@.insert(key, value),
    {
        let mut i: usize = 0;
        while i < self.entries.len()
            invariant
                self.wf(),
                self.entries@ == old(self).entries@,
                i <= self.entries.len(),
                forall|j: int| 0 <= j < i ==> self.entries@[j].0 != key,
            decreases self.entries.len() - i,
        {
            if self.entries[i].0 == key {
                proof {
                    lemma_id_map_update(self.entries@, i as int, (key, value));
                }
                self.entries[i] = (key, value);
                return ;
            }
            i = i + 1;
        }
        proof {
            lemma_id_map_absent(self.entries@, key);
            assert(self.entries@.push((key, value)).drop_last() =~= self.entries@);
        }
        self.entries.push((key, value));
    }
}

} // verus!
