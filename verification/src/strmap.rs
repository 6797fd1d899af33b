//! A name-to-value table with a mathematical `Map` as its image: the
//! backing store is a vector of pairs whose keys are pairwise distinct.
use vstd::prelude::*;

use crate::strutil::str_eq;

verus! {

/// A table from names to values of type `V`, with unique keys.
pub struct StrMap<V> {
    pub entries: Vec<(String, V)>,
}

/// The mathematical map an entry list denotes: later entries win, though
/// a well-formed list never repeats a key.
pub open spec fn map_of<V: DeepView>(entries: Seq<(String, V)>) -> Map<
    Seq<char>,
    <V as DeepView>::V,
>
    decreases entries.len(),
{
    if entries.len() == 0 {
        Map::empty()
    } else {
        map_of(entries.drop_last()).insert(
            entries.last().0@,
            entries.last().1.deep_view(),
        )
    }
}

/// Whether an entry list has pairwise distinct keys.
pub open spec fn distinct_keys<V>(entries: Seq<(String, V)>) -> bool {
    forall|i: int, j: int| 0 <= i < j < entries.len() ==> entries[i].0@ != entries[j].0@
}

/// In a well-formed list, the entry holding a key decides the map at it.
proof fn lemma_map_of_index<V: DeepView>(entries: Seq<(String, V)>, i: int)
    requires
        distinct_keys(entries),
        0 <= i < entries.len(),
    ensures
        map_of(entries).contains_key(entries[i].0@),
        map_of(entries)[entries[i].0@] == entries[i].1.deep_view(),
    decreases entries.len(),
{
    if i + 1 == entries.len() {
    } else {
        lemma_map_of_index(entries.drop_last(), i);
    }
}

/// A key held by no entry is outside the map.
proof fn lemma_map_of_absent<V: DeepView>(entries: Seq<(String, V)>, k: Seq<char>)
    requires
        forall|i: int| 0 <= i < entries.len() ==> entries[i].0@ != k,
    ensures
        !map_of(entries).contains_key(k),
    decreases entries.len(),
{
    if entries.len() > 0 {
        lemma_map_of_absent(entries.drop_last(), k);
    }
}

/// Replacing the entry that holds a key updates the map at that key.
proof fn lemma_map_of_update<V: DeepView>(entries: Seq<(String, V)>, i: int, pair: (String, V))
    requires
        distinct_keys(entries),
        0 <= i < entries.len(),
        pair.0@ == entries[i].0@,
    ensures
        map_of(entries.update(i, pair)) == map_of(entries).insert(pair.0@, pair.1.deep_view()),
    decreases entries.len(),
{
    let updated = entries.update(i, pair);
    if i + 1 == entries.len() {
        assert(updated.drop_last() =~= entries.drop_last());
        assert(map_of(updated) =~= map_of(entries).insert(pair.0@, pair.1.deep_view()));
    } else {
        lemma_map_of_update(entries.drop_last(), i, pair);
        assert(updated.drop_last() =~= entries.drop_last().update(i, pair));
        assert(map_of(updated) =~= map_of(entries).insert(pair.0@, pair.1.deep_view()));
    }
}

impl<V: DeepView> View for StrMap<V> {
    type V = Map<Seq<char>, <V as DeepView>::V>;

    open spec fn view(&self) -> Map<Seq<char>, <V as DeepView>::V> {
        map_of(self.entries@)
    }
}

impl<V: DeepView> StrMap<V> {
    /// The backing list never repeats a key.
    pub open spec fn wf(&self) -> bool {
        distinct_keys(self.entries@)
    }

    /// An empty table.
    pub fn new() -> (m: StrMap<V>)
        ensures
            m.wf(),
            m@ == Map::<Seq<char>, <V as DeepView>::V>::empty(),
    {
        StrMap { entries: Vec::new() }
    }

    /// The value bound to a name, if any.
    pub fn get(&self, key: &str) -> (r: Option<&V>)
        requires
            self.wf(),
        ensures
            match r {
                Some(v) => self@.contains_key(key@) && v.deep_view() == self@[key@],
                None => !self@.contains_key(key@),
            },
    {
        let mut i: usize = 0;
        while i < self.entries.len()
            invariant
                self.wf(),
                i <= self.entries.len(),
                forall|j: int| 0 <= j < i ==> self.entries@[j].0@ != key@,
            decreases self.entries.len() - i,
        {
            if str_eq(self.entries[i].0.as_str(), key) {
                proof {
                    lemma_map_of_index(self.entries@, i as int);
                }
                return Some(&self.entries[i].1);
            }
            i = i + 1;
        }
        proof {
            lemma_map_of_absent(self.entries@, key@);
        }
        None
    }

    /// Whether a name is bound.
    pub fn contains(&self, key: &str) -> (r: bool)
        requires
            self.wf(),
        ensures
            r == self@.contains_key(key@),
    {
        match self.get(key) {
            Some(_) => true,
            None => false,
        }
    }

    /// Binds a name, overwriting any earlier binding of it.
    pub fn insert(&mut self, key: String, value: V)
        requires
            old(self).wf(),
        ensures
            final(self).wf(),
            final(self)@ == old(self)@.insert(key@, value.deep_view()),
    {
        let mut i: usize = 0;
        while i < self.entries.len()
            invariant
                self.wf(),
                self.entries@ == old(self).entries@,
                i <= self.entries.len(),
                forall|j: int| 0 <= j < i ==> self.entries@[j].0@ != key@,
            decreases self.entries.len() - i,
        {
            if str_eq(self.entries[i].0.as_str(), key.as_str()) {
                proof {
                    lemma_map_of_update(self.entries@, i as int, (key, value));
                }
                self.entries[i] = (key, value);
                return ;
            }
            i = i + 1;
        }
        proof {
            lemma_map_of_absent(self.entries@, key@);
            assert(self.entries@.push((key, value)).drop_last() =~= self.entries@);
        }
        self.entries.push((key, value));
    }
}

/// Two entry lists that agree key for key and image for image denote the
/// same map.
pub proof fn lemma_map_of_congruence<V: DeepView>(s1: Seq<(String, V)>, s2: Seq<(String, V)>)
    requires
        s1.len() == s2.len(),
        forall|i: int|
            0 <= i < s1.len() ==> s1[i].0@ == s2[i].0@ && s1[i].1.deep_view()
                == s2[i].1.deep_view(),
    ensures
        map_of(s1) == map_of(s2),
    decreases s1.len(),
{
    if s1.len() > 0 {
        lemma_map_of_congruence(s1.drop_last(), s2.drop_last());
        assert(map_of(s1) =~= map_of(s2));
    } else {
        assert(map_of(s1) =~= map_of(s2));
    }
}

} // verus!
