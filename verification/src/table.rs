//! Small association tables keyed by identifiers, kept in insertion order.

use vstd::prelude::*;

use crate::mir::{LocalId, TypeParamId};
use crate::sem::{SemLocalId, SymbolId};

verus! {

/// A key of a table: an identifier whose equality is decidable.
pub trait TableKey: Copy + Sized {
    fn key_eq(&self, other: &Self) -> (r: bool)
        ensures
            r == (*self == *other),
    ;
}

impl TableKey for LocalId {
    fn key_eq(&self, other: &Self) -> (r: bool) {
        self.0 == other.0
    }
}

impl TableKey for SemLocalId {
    fn key_eq(&self, other: &Self) -> (r: bool) {
        self.0 == other.0
    }
}

impl TableKey for SymbolId {
    fn key_eq(&self, other: &Self) -> (r: bool) {
        self.0 == other.0
    }
}

impl TableKey for TypeParamId {
    fn key_eq(&self, other: &Self) -> (r: bool) {
        self.0 == other.0
    }
}

/// A map from keys to values, kept as entries in insertion order.
#[derive(Debug)]
pub struct Table<K, V> {
    pub entries: Vec<(K, V)>,
}

impl<K, V> Table<K, V> {
    /// The keys, in insertion order.
    pub open spec fn keys(&self) -> Seq<K> {
        self.entries@.map_values(|e: (K, V)| e.0)
    }

    /// No key occurs twice.
    pub open spec fn wf(&self) -> bool {
        self.keys().no_duplicates()
    }

    /// The table as a map.
    pub open spec fn map(&self) -> Map<K, V> {
        Map::new(
            |k: K| self.keys().contains(k),
            |k: K| self.entries@[self.keys().index_of(k)].1,
        )
    }

    /// The value stored at the entry with key `k`.
    pub proof fn lemma_entry(&self, i: int)
        requires
            self.wf(),
            0 <= i < self.entries@.len(),
        ensures
            self.map().contains_key(self.entries@[i].0),
            self.map()[self.entries@[i].0] == self.entries@[i].1,
            self.keys()[i] == self.entries@[i].0,
    {
        let k = self.entries@[i].0;
        assert(self.keys()[i] == k);
        assert(self.keys().contains(k));
        let j = self.keys().index_of(k);
        assert(self.keys()[j] == k);
    }
}

impl<K: TableKey, V> Table<K, V> {
    /// An empty table.
    pub fn new() -> (r: Self)
        ensures
            r.wf(),
            r.keys().len() == 0,
            r.map() == Map::<K, V>::empty(),
    {
        let r = Table { entries: Vec::new() };
        assert(r.map() =~= Map::<K, V>::empty());
        r
    }

    /// The number of entries.
    pub fn len(&self) -> (r: usize)
        ensures
            r == self.keys().len(),
    {
        self.entries.len()
    }

    /// The key of entry `i`.
    pub fn key_at(&self, i: usize) -> (r: K)
        requires
            i < self.keys().len(),
        ensures
            r == self.keys()[i as int],
    {
        self.entries[i].0
    }

    /// The value of entry `i`.
    pub fn value_at(&self, i: usize) -> (r: &V)
        requires
            i < self.keys().len(),
        ensures
            *r == self.entries@[i as int].1,
            self.wf() ==> *r == self.map()[self.keys()[i as int]],
    {
        proof {
            if self.wf() {
                self.lemma_entry(i as int);
            }
        }
        &self.entries[i].1
    }

    /// The position of the entry with key `k`, if any.
    pub fn find(&self, k: K) -> (r: Option<usize>)
        ensures
            match r {
                Some(i) => i < self.keys().len() && self.keys()[i as int] == k,
                None => !self.keys().contains(k),
            },
    {
        let mut i: usize = 0;
        while i < self.entries.len()
            invariant
                i <= self.entries@.len(),
                forall|j: int| 0 <= j < i ==> self.keys()[j] != k,
            decreases self.entries.len() - i,
        {
            if self.entries[i].0.key_eq(&k) {
                return Some(i);
            }
            i = i + 1;
        }
        None
    }

    /// Whether the table has an entry for `k`.
    pub fn contains(&self, k: K) -> (r: bool)
        ensures
            r == self.keys().contains(k),
            r == self.map().contains_key(k),
    {
        match self.find(k) {
            Some(_) => true,
            None => false,
        }
    }

    /// The value stored for `k`, if any.
    pub fn get(&self, k: K) -> (r: Option<&V>)
        requires
            self.wf(),
        ensures
            match r {
                Some(v) => self.map().contains_key(k) && *v == self.map()[k],
                None => !self.map().contains_key(k),
            },
    {
        match self.find(k) {
            Some(i) => {
                proof {
                    self.lemma_entry(i as int);
                }
                Some(&self.entries[i].1)
            },
            None => None,
        }
    }

    /// Stores `v` for `k`, replacing the value of an existing entry in place or
    /// appending a new entry.
    pub fn insert(&mut self, k: K, v: V)
        requires
            old(self).wf(),
        ensures
            final(self).wf(),
            final(self).map() == old(self).map().insert(k, v),
            old(self).keys().contains(k) ==> final(self).keys() == old(self).keys(),
            !old(self).keys().contains(k) ==> final(self).keys() == old(self).keys().push(k),
    {
        match self.find(k) {
            Some(i) => {
                self.entries.set(i, (k, v));
                proof {
                    assert(self.keys() =~= old(self).keys());
                    assert forall|kk: K| #[trigger] self.map().contains_key(kk) implies
                        self.map()[kk] == old(self).map().insert(k, v)[kk] by {
                        let j = self.keys().index_of(kk);
                        assert(self.keys()[j] == kk);
                        if kk == k {
                            assert(j == i);
                        } else {
                            let jo = old(self).keys().index_of(kk);
                            assert(old(self).keys()[jo] == kk);
                            assert(jo == j);
                        }
                    }
                    assert(self.map() =~= old(self).map().insert(k, v));
                }
            },
            None => {
                self.entries.push((k, v));
                proof {
                    assert(self.keys() =~= old(self).keys().push(k));
                    let n = old(self).keys().len() as int;
                    assert(self.keys()[n] == k);
                    assert forall|kk: K| #[trigger] self.map().contains_key(kk) implies
                        self.map()[kk] == old(self).map().insert(k, v)[kk] by {
                        let j = self.keys().index_of(kk);
                        assert(self.keys()[j] == kk);
                        if kk == k {
                            assert(j == n);
                        } else {
                            let jo = old(self).keys().index_of(kk);
                            assert(old(self).keys()[jo] == kk);
                            assert(self.keys()[jo] == kk);
                            assert(jo == j);
                        }
                    }
                    assert forall|kk: K| #[trigger] self.map().contains_key(kk) <==>
                        old(self).map().insert(k, v).contains_key(kk) by {
                        if kk != k && self.keys().contains(kk) {
                            let j = self.keys().index_of(kk);
                            assert(self.keys()[j] == kk);
                            assert(j < n);
                            assert(old(self).keys()[j] == kk);
                        }
                        if old(self).keys().contains(kk) {
                            let j = old(self).keys().index_of(kk);
                            assert(self.keys()[j] == kk);
                        }
                    }
                    assert(self.map() =~= old(self).map().insert(k, v));
                }
            },
        }
    }

}

} // verus!
