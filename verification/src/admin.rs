//! Identity sets for the admin gate: the approval set of the pending
//! privileged action and the admin blacklist.

use vstd::prelude::*;

verus! {

/// A set of distinct admin identities.
pub struct IdSet {
    pub ids: Vec<u64>,
}

impl IdSet {
    /// No identity occurs twice.
    pub open spec fn wf(self) -> bool {
        forall|i: int, j: int|
            0 <= i < j < self.ids@.len() ==> self.ids@[i] != self.ids@[j]
    }

    pub open spec fn contains(self, id: u64) -> bool {
        exists|i: int| 0 <= i < self.ids@.len() && self.ids@[i] == id
    }

    /// Number of distinct identities recorded.
    pub open spec fn count(self) -> int {
        self.ids@.len() as int
    }

    pub fn new() -> (r: IdSet)
        ensures
            r.wf(),
            r.count() == 0,
            forall|id: u64| !r.contains(id),
    {
        IdSet { ids: Vec::new() }
    }

    pub fn len(&self) -> (r: usize)
        ensures
            r == self.count(),
    {
        self.ids.len()
    }

    pub fn contains_id(&self, id: u64) -> (r: bool)
        ensures
            r == self.contains(id),
    {
        let mut i: usize = 0;
        while i < self.ids.len()
            invariant
                i <= self.ids@.len(),
                forall|j: int| 0 <= j < i ==> self.ids@[j] != id,
            decreases self.ids@.len() - i,
        {
            if self.ids[i] == id {
                return true;
            }
            i = i + 1;
        }
        false
    }

    /// Records an identity; recording it twice does not double-count.
    pub fn insert(&mut self, id: u64)
        requires
            old(self).wf(),
        ensures
            final(self).wf(),
            final(self).contains(id),
            forall|id2: u64|
                id2 != id ==> #[trigger] final(self).contains(id2) == old(self).contains(id2),
            old(self).contains(id) ==> *final(self) == *old(self),
            !old(self).contains(id) ==> final(self).ids@ == old(self).ids@.push(id),
            !old(self).contains(id) ==> final(self).count() == old(self).count() + 1,
    {
        if !self.contains_id(id) {
            self.ids.push(id);
            proof {
                let n = old(self).ids@.len();
                assert(self.ids@[n as int] == id);
                assert forall|id2: u64| id2 != id implies #[trigger] self.contains(id2) == old(
                    self,
                ).contains(id2) by {
                    if old(self).contains(id2) {
                        let j = choose|j: int|
                            0 <= j < old(self).ids@.len() && old(self).ids@[j] == id2;
                        assert(self.ids@[j] == id2);
                    }
                    if self.contains(id2) {
                        let j = choose|j: int| 0 <= j < self.ids@.len() && self.ids@[j] == id2;
                        assert(j < n);
                        assert(old(self).ids@[j] == id2);
                    }
                }
            }
        }
    }

    /// Removes an identity if present.
    pub fn remove(&mut self, id: u64)
        requires
            old(self).wf(),
        ensures
            final(self).wf(),
            !final(self).contains(id),
            forall|id2: u64|
                id2 != id ==> #[trigger] final(self).contains(id2) == old(self).contains(id2),
    {
        let mut i: usize = 0;
        let n = self.ids.len();
        let mut found: Option<usize> = None;
        while i < n
            invariant
                n == self.ids@.len(),
                i <= n,
                match found {
                    Some(k) => k < n && self.ids@[k as int] == id,
                    None => forall|j: int| 0 <= j < i ==> self.ids@[j] != id,
                },
            decreases n - i,
        {
            if found.is_none() && self.ids[i] == id {
                found = Some(i);
            }
            i = i + 1;
        }
        match found {
            Some(k) => {
                let _ = self.ids.remove(k);
                proof {
                    let idx = k as int;
                    let m = old(self).ids@.len();
                    assert(old(self).ids@[idx] == id);
                    assert forall|id2: u64| #[trigger] self.contains(id2) implies id2 != id by {
                        let j = choose|j: int| 0 <= j < self.ids@.len() && self.ids@[j] == id2;
                        if j < idx {
                            assert(self.ids@[j] == old(self).ids@[j]);
                            assert(old(self).ids@[j] != old(self).ids@[idx]);
                        } else {
                            assert(self.ids@[j] == old(self).ids@[j + 1]);
                            assert(old(self).ids@[j + 1] != old(self).ids@[idx]);
                        }
                    }
                    assert forall|id2: u64| id2 != id implies #[trigger] self.contains(id2) == old(
                        self,
                    ).contains(id2) by {
                        if old(self).contains(id2) {
                            let j = choose|j: int| 0 <= j < m && old(self).ids@[j] == id2;
                            if j < idx {
                                assert(self.ids@[j] == id2);
                            } else {
                                assert(j > idx);
                                assert(self.ids@[j - 1] == id2);
                            }
                        }
                        if self.contains(id2) {
                            let j = choose|j: int|
                                0 <= j < self.ids@.len() && self.ids@[j] == id2;
                            if j < idx {
                                assert(old(self).ids@[j] == id2);
                            } else {
                                assert(old(self).ids@[j + 1] == id2);
                            }
                        }
                    }
                }
            },
            None => {
                proof {
                    assert forall|id2: u64| #[trigger] self.contains(id2) implies id2 != id by {
                        let j = choose|j: int| 0 <= j < self.ids@.len() && self.ids@[j] == id2;
                        assert(self.ids@[j] != id);
                    }
                }
            },
        }
    }

    /// Forgets every recorded identity.
    pub fn clear(&mut self)
        ensures
            final(self).wf(),
            final(self).count() == 0,
            forall|id: u64| !final(self).contains(id),
    {
        self.ids = Vec::new();
    }
}

} // verus!
