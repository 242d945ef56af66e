//! Per-table change tracking between persistence flushes.

use std::collections::HashSet;
use vstd::prelude::*;
use vstd::std_specs::hash::obeys_key_model;

verus! {

broadcast use vstd::std_specs::hash::group_hash_axioms;

/// Per-table change tracker.
///
/// `K` is the natural key of the tracked rows. A key is either dirty
/// (to be written) or removed (to be deleted), never both: removal wins.
#[derive(Debug)]
pub struct PendingChanges<K: Eq + core::hash::Hash + Clone> {
    dirty: HashSet<K>,
    removed: HashSet<K>,
}

/// The two key sets taken out of a [`PendingChanges`] for one flush.
#[derive(Debug)]
pub struct PendingSnapshot<K: Eq + core::hash::Hash + Clone> {
    pub dirty: HashSet<K>,
    pub removed: HashSet<K>,
}

/// Removed keys after restoring a snapshot with removed keys `snap_removed` onto a
/// tracker whose removed keys are `removed`.
pub open spec fn restored_removed<K>(removed: Set<K>, snap_removed: Set<K>) -> Set<K> {
    removed.union(snap_removed)
}

/// Dirty keys after restoring a snapshot onto a tracker: the snapshot's dirty keys join
/// unless already removed, then every key the snapshot removed leaves.
pub open spec fn restored_dirty<K>(dirty: Set<K>, removed: Set<K>, snap_dirty: Set<K>, snap_removed: Set<K>) -> Set<K> {
    dirty.union(snap_dirty.difference(removed)).difference(snap_removed)
}

/// Taking a snapshot and restoring it straight away gives back exactly the changes the
/// tracker held, when no key was both dirty and removed.
pub proof fn lemma_snapshot_restore_round_trip<K>(dirty: Set<K>, removed: Set<K>)
    requires
        dirty.disjoint(removed),
    ensures
        restored_dirty(Set::<K>::empty(), Set::<K>::empty(), dirty, removed) == dirty,
        restored_removed(Set::<K>::empty(), removed) == removed,
{
    assert(restored_dirty(Set::<K>::empty(), Set::<K>::empty(), dirty, removed) =~= dirty);
    assert(restored_removed(Set::<K>::empty(), removed) =~= removed);
}

impl<K: Eq + core::hash::Hash + Clone> PendingChanges<K> {
    /// Keys waiting to be written.
    pub closed spec fn dirty_set(&self) -> Set<K> {
        self.dirty@
    }

    /// Keys waiting to be deleted.
    pub closed spec fn removed_set(&self) -> Set<K> {
        self.removed@
    }

    /// A key is never both dirty and removed.
    pub open spec fn wf(&self) -> bool {
        self.dirty_set().disjoint(self.removed_set())
    }

    pub fn new() -> (p: Self)
        ensures
            p.dirty_set() == Set::<K>::empty(),
            p.removed_set() == Set::<K>::empty(),
            p.wf(),
    {
        PendingChanges { dirty: HashSet::new(), removed: HashSet::new() }
    }

    /// Marks `key` for writing, unless it is already marked for removal.
    pub fn mark_dirty(&mut self, key: K)
        requires
            obeys_key_model::<K>(),
        ensures
            final(self).dirty_set() == (if old(self).removed_set().contains(key) {
                old(self).dirty_set()
            } else {
                old(self).dirty_set().insert(key)
            }),
            final(self).removed_set() == old(self).removed_set(),
            old(self).wf() ==> final(self).wf(),
    {
        if !self.removed.contains(&key) {
            self.dirty.insert(key);
        }
    }

    /// Marks `key` for removal; it stops being dirty.
    pub fn mark_removed(&mut self, key: K)
        requires
            obeys_key_model::<K>(),
        ensures
            final(self).dirty_set() == old(self).dirty_set().remove(key),
            final(self).removed_set() == old(self).removed_set().insert(key),
            old(self).wf() ==> final(self).wf(),
    {
        self.dirty.remove(&key);
        self.removed.insert(key);
    }

    pub fn has_changes(&self) -> (b: bool)
        ensures
            b == (!self.dirty_set().is_empty() || !self.removed_set().is_empty()),
    {
        !self.dirty.is_empty() || !self.removed.is_empty()
    }

    pub fn dirty_count(&self) -> (n: usize)
        requires
            obeys_key_model::<K>(),
        ensures
            n == self.dirty_set().len(),
    {
        self.dirty.len()
    }

    pub fn removed_count(&self) -> (n: usize)
        requires
            obeys_key_model::<K>(),
        ensures
            n == self.removed_set().len(),
    {
        self.removed.len()
    }

    pub fn dirty(&self) -> (d: &HashSet<K>)
        ensures
            d@ == self.dirty_set(),
    {
        &self.dirty
    }

    pub fn removed(&self) -> (r: &HashSet<K>)
        ensures
            r@ == self.removed_set(),
    {
        &self.removed
    }

    /// Moves both key sets out into a snapshot, leaving the tracker empty.
    pub fn take_snapshot(&mut self) -> (snap: PendingSnapshot<K>)
        ensures
            snap.dirty@ == old(self).dirty_set(),
            snap.removed@ == old(self).removed_set(),
            final(self).dirty_set() == Set::<K>::empty(),
            final(self).removed_set() == Set::<K>::empty(),
    {
        let mut dirty = HashSet::new();
        let mut removed = HashSet::new();
        std::mem::swap(&mut dirty, &mut self.dirty);
        std::mem::swap(&mut removed, &mut self.removed);
        PendingSnapshot { dirty, removed }
    }

    /// Re-applies a snapshot (after a failed flush): every snapshot key is
    /// marked dirty, then every removed key is marked removed, on top of the
    /// changes recorded since the snapshot was taken.
    pub fn restore_snapshot(&mut self, snap: PendingSnapshot<K>)
        requires
            obeys_key_model::<K>(),
            forall|a: K, b: K| cloned(a, b) ==> a == b,
        ensures
            final(self).removed_set() == restored_removed(old(self).removed_set(), snap.removed@),
            final(self).dirty_set() == restored_dirty(
                old(self).dirty_set(),
                old(self).removed_set(),
                snap.dirty@,
                snap.removed@,
            ),
            old(self).wf() ==> final(self).wf(),
    {
        let ghost d0 = self.dirty@;
        let ghost r0 = self.removed@;
        let ghost sd = snap.dirty@;
        let ghost sr = snap.removed@;
        let ghost mut seen: Set<K> = Set::empty();
        for k in it: snap.dirty.iter()
            invariant
                obeys_key_model::<K>(),
                forall|a: K, b: K| cloned(a, b) ==> a == b,
                self.removed@ == r0,
                it.seq().unref().to_set() == sd,
                seen.subset_of(sd),
                forall|x: K|
                    #[trigger] sd.contains(x) && !seen.contains(x) ==> exists|j: int|
                        it.index() <= j < it.seq().len() && *it.seq()[j] == x,
                self.dirty@ == d0.union(seen.difference(r0)),
        {
            let key = K::clone(k);
            proof {
                assert(it.seq().unref()[it.index() as int] == *k);
                assert(sd.contains(*k));
                assert(cloned(*k, key));
                assert(key == *k);
                seen = seen.insert(*k);
            }
            self.mark_dirty(key);
            assert(self.dirty@ =~= d0.union(seen.difference(r0)));
        }
        proof {
            assert(seen =~= sd);
        }
        let ghost mut gone: Set<K> = Set::empty();
        for k in it2: snap.removed.iter()
            invariant
                obeys_key_model::<K>(),
                forall|a: K, b: K| cloned(a, b) ==> a == b,
                it2.seq().unref().to_set() == sr,
                gone.subset_of(sr),
                forall|x: K|
                    #[trigger] sr.contains(x) && !gone.contains(x) ==> exists|j: int|
                        it2.index() <= j < it2.seq().len() && *it2.seq()[j] == x,
                self.removed@ == r0.union(gone),
                self.dirty@ == d0.union(sd.difference(r0)).difference(gone),
        {
            let key = K::clone(k);
            proof {
                assert(it2.seq().unref()[it2.index() as int] == *k);
                assert(sr.contains(*k));
                assert(cloned(*k, key));
                assert(key == *k);
                gone = gone.insert(*k);
            }
            self.mark_removed(key);
            assert(self.removed@ =~= r0.union(gone));
            assert(self.dirty@ =~= d0.union(sd.difference(r0)).difference(gone));
        }
        proof {
            assert(gone =~= sr);
            assert(self.dirty@ =~= d0.union(sd.difference(r0)).difference(sr));
        }
    }

    pub fn clear(&mut self)
        ensures
            final(self).dirty_set() == Set::<K>::empty(),
            final(self).removed_set() == Set::<K>::empty(),
    {
        self.dirty.clear();
        self.removed.clear();
    }
}

impl<K: Eq + core::hash::Hash + Clone> PendingSnapshot<K> {
    pub fn has_changes(&self) -> (b: bool)
        ensures
            b == (!self.dirty@.is_empty() || !self.removed@.is_empty()),
    {
        !self.dirty.is_empty() || !self.removed.is_empty()
    }
}

} // verus!
