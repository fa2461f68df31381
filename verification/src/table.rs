//! Insertion-ordered association tables.
//!
//! The registry, the price snapshot and every per-identity balance map are
//! stored as a vector of key/value pairs with unique keys, keeping the order
//! in which entries were first inserted.

use vstd::prelude::*;

verus! {

/// An association table from numeric identifiers to values, keeping
/// insertion order.  Keys are unique whenever [`Table::wf`] holds.
pub struct Table<V> {
    pub pairs: Vec<(u64, V)>,
}

impl<V> Table<V> {
    /// Well-formedness: no key occurs twice.
    pub open spec fn wf(self) -> bool {
        forall|i: int, j: int|
            0 <= i < j < self.pairs@.len() ==> (#[trigger] self.pairs@[i]).0 != (
            #[trigger] self.pairs@[j]).0
    }

    pub open spec fn contains_key(self, k: u64) -> bool {
        exists|i: int| 0 <= i < self.pairs@.len() && (#[trigger] self.pairs@[i]).0 == k
    }

    /// Position of `k`, meaningful while `contains_key(k)` holds.
    pub open spec fn index_of_key(self, k: u64) -> int {
        choose|i: int| 0 <= i < self.pairs@.len() && (#[trigger] self.pairs@[i]).0 == k
    }

    /// Value stored under `k`, meaningful while `contains_key(k)` holds.
    pub open spec fn val(self, k: u64) -> V {
        self.pairs@[self.index_of_key(k)].1
    }

    /// While keys are unique, any position holding `k` is the position.
    pub proof fn lemma_index_unique(self, k: u64, i: int)
        requires
            self.wf(),
            0 <= i < self.pairs@.len(),
            self.pairs@[i].0 == k,
        ensures
            self.contains_key(k),
            self.index_of_key(k) == i,
    {
        assert(self.contains_key(k));
        let j = self.index_of_key(k);
        if i < j {
            assert(self.pairs@[i].0 != self.pairs@[j].0);
        } else if j < i {
            assert(self.pairs@[j].0 != self.pairs@[i].0);
        }
    }

    pub fn new() -> (r: Table<V>)
        ensures
            r.wf(),
            r.pairs@.len() == 0,
    {
        Table { pairs: Vec::new() }
    }

    pub fn len(&self) -> (r: usize)
        ensures
            r == self.pairs@.len(),
    {
        self.pairs.len()
    }

    /// Linear search for `k`.
    pub fn find(&self, k: u64) -> (r: Option<usize>)
        ensures
            match r {
                Some(i) => {
                    &&& i < self.pairs@.len()
                    &&& self.pairs@[i as int].0 == k
                    &&& self.contains_key(k)
                    &&& self.wf() ==> i == self.index_of_key(k)
                },
                None => !self.contains_key(k),
            },
    {
        let mut i: usize = 0;
        while i < self.pairs.len()
            invariant
                i <= self.pairs@.len(),
                forall|j: int| 0 <= j < i ==> (#[trigger] self.pairs@[j]).0 != k,
            decreases self.pairs@.len() - i,
        {
            if self.pairs[i].0 == k {
                proof {
                    if self.wf() {
                        self.lemma_index_unique(k, i as int);
                    }
                }
                return Some(i);
            }
            i = i + 1;
        }
        None
    }

    /// Inserts or replaces the value under `k`; a new key goes to the end.
    pub fn insert(&mut self, k: u64, v: V)
        requires
            old(self).wf(),
        ensures
            final(self).wf(),
            old(self).contains_key(k) ==> final(self).pairs@ == old(self).pairs@.update(
                old(self).index_of_key(k),
                (k, v),
            ),
            !old(self).contains_key(k) ==> final(self).pairs@ == old(self).pairs@.push((k, v)),
            final(self).contains_key(k),
            final(self).val(k) == v,
            forall|k2: u64|
                k2 != k ==> #[trigger] final(self).contains_key(k2) == old(self).contains_key(k2),
            forall|k2: u64|
                k2 != k && old(self).contains_key(k2) ==> #[trigger] final(self).val(k2) == old(
                    self,
                ).val(k2) && final(self).index_of_key(k2) == old(self).index_of_key(k2),
    {
        let found = self.find(k);
        match found {
            Some(i) => {
                self.pairs.set(i, (k, v));
                proof {
                    self.lemma_index_unique(k, i as int);
                    assert forall|k2: u64| k2 != k implies #[trigger] self.contains_key(k2) == old(
                        self,
                    ).contains_key(k2) by {
                        if old(self).contains_key(k2) {
                            let j = old(self).index_of_key(k2);
                            assert(self.pairs@[j].0 == k2);
                        }
                        if self.contains_key(k2) {
                            let j = self.index_of_key(k2);
                            assert(old(self).pairs@[j].0 == k2);
                        }
                    }
                    assert forall|k2: u64| k2 != k && old(self).contains_key(k2) implies
                        #[trigger] self.val(k2) == old(self).val(k2) && self.index_of_key(k2)
                        == old(self).index_of_key(k2) by {
                        let j = old(self).index_of_key(k2);
                        assert(self.pairs@[j].0 == k2);
                        self.lemma_index_unique(k2, j);
                    }
                }
            },
            None => {
                self.pairs.push((k, v));
                proof {
                    let n = old(self).pairs@.len();
                    self.lemma_index_unique(k, n as int);
                    assert forall|k2: u64| k2 != k implies #[trigger] self.contains_key(k2) == old(
                        self,
                    ).contains_key(k2) by {
                        if old(self).contains_key(k2) {
                            let j = old(self).index_of_key(k2);
                            assert(self.pairs@[j].0 == k2);
                        }
                        if self.contains_key(k2) {
                            let j = self.index_of_key(k2);
                            assert(j < n);
                            assert(old(self).pairs@[j].0 == k2);
                        }
                    }
                    assert forall|k2: u64| k2 != k && old(self).contains_key(k2) implies
                        #[trigger] self.val(k2) == old(self).val(k2) && self.index_of_key(k2)
                        == old(self).index_of_key(k2) by {
                        let j = old(self).index_of_key(k2);
                        assert(self.pairs@[j].0 == k2);
                        self.lemma_index_unique(k2, j);
                    }
                }
            },
        }
    }

    /// Removes and returns the value under `k`, if any.
    pub fn remove(&mut self, k: u64) -> (r: Option<V>)
        requires
            old(self).wf(),
        ensures
            final(self).wf(),
            match r {
                Some(v) => {
                    &&& old(self).contains_key(k)
                    &&& v == old(self).val(k)
                    &&& final(self).pairs@ == old(self).pairs@.remove(old(self).index_of_key(k))
                },
                None => !old(self).contains_key(k) && *final(self) == *old(self),
            },
            !final(self).contains_key(k),
            forall|k2: u64|
                k2 != k ==> #[trigger] final(self).contains_key(k2) == old(self).contains_key(k2),
            forall|k2: u64|
                k2 != k && old(self).contains_key(k2) ==> #[trigger] final(self).val(k2) == old(
                    self,
                ).val(k2),
    {
        let found = self.find(k);
        match found {
            Some(i) => {
                let pair = self.pairs.remove(i);
                proof {
                    let n = old(self).pairs@.len();
                    let idx = i as int;
                    assert forall|k2: u64| #[trigger]
                        self.contains_key(k2) implies k2 != k && old(self).contains_key(k2) by {
                        let j = self.index_of_key(k2);
                        if j < idx {
                            assert(old(self).pairs@[j].0 == k2);
                        } else {
                            assert(old(self).pairs@[j + 1].0 == k2);
                        }
                    }
                    assert forall|k2: u64| k2 != k implies #[trigger] self.contains_key(k2) == old(
                        self,
                    ).contains_key(k2) by {
                        if old(self).contains_key(k2) {
                            let j = old(self).index_of_key(k2);
                            assert(old(self).pairs@[j].0 == k2);
                            if j < idx {
                                assert(self.pairs@[j].0 == k2);
                            } else {
                                assert(j > idx);
                                assert(self.pairs@[j - 1].0 == k2);
                            }
                        }
                    }
                    assert forall|k2: u64| k2 != k && old(self).contains_key(k2) implies self
                        .contains_key(k2) && #[trigger] self.val(k2) == old(self).val(k2) by {
                        let j = old(self).index_of_key(k2);
                        assert(old(self).pairs@[j].0 == k2);
                        if j < idx {
                            assert(self.pairs@[j].0 == k2);
                            self.lemma_index_unique(k2, j);
                        } else {
                            assert(j > idx);
                            assert(self.pairs@[j - 1] == old(self).pairs@[j]);
                            self.lemma_index_unique(k2, j - 1);
                        }
                    }
                }
                Some(pair.1)
            },
            None => None,
        }
    }
}

impl<V: Copy> Table<V> {
    /// Copies out the value under `k`, if any.
    pub fn get(&self, k: u64) -> (r: Option<V>)
        requires
            self.wf(),
        ensures
            match r {
                Some(v) => self.contains_key(k) && v == self.val(k),
                None => !self.contains_key(k),
            },
    {
        let found = self.find(k);
        match found {
            Some(i) => Some(self.pairs[i].1),
            None => None,
        }
    }
}

impl<V> Table<V> {
    /// Borrows the value under `k`, if any.
    pub fn borrow_val(&self, k: u64) -> (r: Option<&V>)
        requires
            self.wf(),
        ensures
            match r {
                Some(v) => self.contains_key(k) && *v == self.val(k),
                None => !self.contains_key(k),
            },
    {
        let found = self.find(k);
        match found {
            Some(i) => Some(&self.pairs[i].1),
            None => None,
        }
    }
}

} // verus!
