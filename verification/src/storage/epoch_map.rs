//! A map from epochs to values.

use crate::hash::EpochId;
use vstd::prelude::*;

verus! {

/// A map from epochs to values.
#[derive(Debug)]
pub struct EpochMap<T> {
    entries: Vec<(EpochId, T)>,
}

spec fn keyed<T>(entries: Seq<(EpochId, T)>, epoch: EpochId, i: int) -> bool {
    0 <= i < entries.len() && entries[i].0 == epoch
}

impl<T> View for EpochMap<T> {
    type V = Map<EpochId, T>;

    closed spec fn view(&self) -> Map<EpochId, T> {
        Map::new(
            |e: EpochId| exists|i: int| keyed(self.entries@, e, i),
            |e: EpochId| self.entries@[choose|i: int| keyed(self.entries@, e, i)].1,
        )
    }
}

impl<T> EpochMap<T> {
    /// No epoch has two values.
    pub closed spec fn wf(&self) -> bool {
        forall|i: int, j: int|
            0 <= i < j < self.entries@.len() ==> self.entries@[i].0 != self.entries@[j].0
    }

    /// The epochs and their values in the order in which they stand.
    pub closed spec fn entries(&self) -> Seq<(EpochId, T)> {
        self.entries@
    }

    /// The list of entries and the map say the same.
    pub proof fn entries_match_view(&self)
        requires
            self.wf(),
        ensures
            forall|i: int|
                0 <= i < self.entries().len() ==> self@.contains_key(
                    (#[trigger] self.entries()[i]).0,
                ) && self@[self.entries()[i].0] == self.entries()[i].1,
            forall|e: EpochId| #[trigger]
                self@.contains_key(e) ==> exists|i: int|
                    0 <= i < self.entries().len() && (#[trigger] self.entries()[i]).0 == e,
            forall|i: int, j: int|
                0 <= i < j < self.entries().len() ==> (#[trigger] self.entries()[i]).0 != (
                #[trigger] self.entries()[j]).0,
    {
        assert forall|i: int| 0 <= i < self.entries().len() implies self@.contains_key(
            (#[trigger] self.entries()[i]).0,
        ) && self@[self.entries()[i].0] == self.entries()[i].1 by {
            self.lookup_at(i);
        }
        assert forall|e: EpochId| #[trigger] self@.contains_key(e) implies exists|i: int|
            0 <= i < self.entries().len() && (#[trigger] self.entries()[i]).0 == e by {
            let i = choose|i: int| keyed(self.entries@, e, i);
            assert(self.entries()[i].0 == e);
        }
    }

    proof fn lookup_at(&self, i: int)
        requires
            self.wf(),
            0 <= i < self.entries@.len(),
        ensures
            self@.contains_key(self.entries@[i].0),
            self@[self.entries@[i].0] == self.entries@[i].1,
    {
        let e = self.entries@[i].0;
        assert(keyed(self.entries@, e, i));
        let k = choose|k: int| keyed(self.entries@, e, k);
        assert(k == i);
    }

    /// A map without entries.
    pub fn new() -> (r: EpochMap<T>)
        ensures
            r.wf(),
            r@ == Map::<EpochId, T>::empty(),
    {
        let r = EpochMap { entries: Vec::new() };
        proof {
            assert(r@ =~= Map::<EpochId, T>::empty());
        }
        r
    }

    /// The number of entries.
    pub fn len(&self) -> (r: usize)
        ensures
            r == self.entries().len(),
    {
        self.entries.len()
    }

    /// The epoch and the value at a position.
    pub fn entry(&self, i: usize) -> (r: (EpochId, &T))
        requires
            i < self.entries().len(),
        ensures
            r.0 == self.entries()[i as int].0,
            *r.1 == self.entries()[i as int].1,
    {
        let e = &self.entries[i];
        (e.0, &e.1)
    }

    fn position(&self, epoch: &EpochId) -> (r: Option<usize>)
        ensures
            r matches Some(i) ==> keyed(self.entries@, *epoch, i as int),
            r is None ==> forall|i: int| !keyed(self.entries@, *epoch, i),
    {
        let mut i: usize = 0;
        while i < self.entries.len()
            invariant
                i <= self.entries.len(),
                forall|j: int| 0 <= j < i ==> !keyed(self.entries@, *epoch, j),
            decreases self.entries.len() - i,
        {
            if self.entries[i].0 == *epoch {
                return Some(i);
            }
            i = i + 1;
        }
        None
    }

    /// The value of an epoch.
    pub fn get(&self, epoch: &EpochId) -> (r: Option<&T>)
        requires
            self.wf(),
        ensures
            r matches Some(value) ==> self@.contains_key(*epoch) && *value == self@[*epoch],
            r is None ==> !self@.contains_key(*epoch),
    {
        match self.position(epoch) {
            Some(i) => {
                proof {
                    self.lookup_at(i as int);
                }
                Some(&self.entries[i].1)
            },
            None => None,
        }
    }

    /// Puts `value` under `epoch`, in place of what stood there.
    pub fn insert(&mut self, epoch: &EpochId, value: T)
        requires
            old(self).wf(),
        ensures
            final(self).wf(),
            final(self)@ == old(self)@.insert(*epoch, value),
    {
        let ghost before = *self;
        match self.position(epoch) {
            Some(i) => {
                self.entries[i] = (*epoch, value);
                proof {
                    assert(self.entries@ == before.entries@.update(i as int, (*epoch, value)));
                    assert forall|e: EpochId| self@.contains_key(e) == before@.insert(
                        *epoch,
                        value,
                    ).contains_key(e) by {
                        if exists|k: int| keyed(before.entries@, e, k) {
                            let k = choose|k: int| keyed(before.entries@, e, k);
                            assert(keyed(self.entries@, e, k));
                        }
                        if exists|k: int| keyed(self.entries@, e, k) {
                            let k = choose|k: int| keyed(self.entries@, e, k);
                            assert(keyed(before.entries@, e, k));
                        }
                    }
                    assert forall|e: EpochId| self@.contains_key(e) implies self@[e]
                        == before@.insert(*epoch, value)[e] by {
                        let k = choose|k: int| keyed(self.entries@, e, k);
                        self.lookup_at(k);
                        before.lookup_at(k);
                    }
                    assert(self@ =~= before@.insert(*epoch, value));
                }
            },
            None => {
                self.entries.push((*epoch, value));
                proof {
                    let n = before.entries@.len() as int;
                    assert(keyed(self.entries@, *epoch, n));
                    assert forall|i: int, j: int|
                        0 <= i < j < self.entries@.len() implies self.entries@[i].0
                        != self.entries@[j].0 by {
                        if j == n {
                            assert(!keyed(before.entries@, *epoch, i));
                        }
                    }
                    assert forall|e: EpochId| self@.contains_key(e) == before@.insert(
                        *epoch,
                        value,
                    ).contains_key(e) by {
                        if exists|k: int| keyed(before.entries@, e, k) {
                            let k = choose|k: int| keyed(before.entries@, e, k);
                            assert(keyed(self.entries@, e, k));
                        }
                        if exists|k: int| keyed(self.entries@, e, k) {
                            let k = choose|k: int| keyed(self.entries@, e, k);
                            if k < n {
                                assert(keyed(before.entries@, e, k));
                            }
                        }
                    }
                    assert forall|e: EpochId| self@.contains_key(e) implies self@[e]
                        == before@.insert(*epoch, value)[e] by {
                        let k = choose|k: int| keyed(self.entries@, e, k);
                        self.lookup_at(k);
                        if k < n {
                            before.lookup_at(k);
                        }
                    }
                    assert(self@ =~= before@.insert(*epoch, value));
                }
            },
        }
    }

    /// Takes an epoch out of the map.
    pub fn remove(&mut self, epoch: &EpochId)
        requires
            old(self).wf(),
        ensures
            final(self).wf(),
            final(self)@ == old(self)@.remove(*epoch),
    {
        let ghost before = *self;
        match self.position(epoch) {
            Some(i) => {
                self.entries.remove(i);
                proof {
                    assert(self.entries@ == before.entries@.remove(i as int));
                    assert forall|e: EpochId| self@.contains_key(e) == before@.remove(
                        *epoch,
                    ).contains_key(e) by {
                        if e != *epoch && exists|k: int| keyed(before.entries@, e, k) {
                            let k = choose|k: int| keyed(before.entries@, e, k);
                            assert(keyed(self.entries@, e, if k < i { k } else { k - 1 }));
                        }
                        if exists|k: int| keyed(self.entries@, e, k) {
                            let k = choose|k: int| keyed(self.entries@, e, k);
                            assert(keyed(before.entries@, e, if k < i { k } else { k + 1 }));
                        }
                    }
                    assert forall|e: EpochId| self@.contains_key(e) implies self@[e]
                        == before@.remove(*epoch)[e] by {
                        let k = choose|k: int| keyed(self.entries@, e, k);
                        self.lookup_at(k);
                        before.lookup_at(if k < i { k } else { k + 1 });
                    }
                    assert(self@ =~= before@.remove(*epoch));
                }
            },
            None => {
                proof {
                    assert(!before@.contains_key(*epoch));
                    assert(self@ =~= before@.remove(*epoch));
                }
            },
        }
    }
}

} // verus!
