//! Named, ordered retention of frozen spectrum snapshots.
use vstd::prelude::*;

use crate::detect::Feature;
use crate::errors::CoreError;
use crate::spectrum::Spectrum;

verus! {

/// One retained snapshot: a monotonically assigned id, the captured
/// spectrum and feature sets, and the capture time.
#[derive(Debug)]
pub struct FrozenTrace {
    pub id: u64,
    pub spectrum: Spectrum,
    pub valleys: Vec<Feature>,
    pub peaks: Vec<Feature>,
    pub frozen_at: u64,
}

/// Some trace in `s` carries `id`.
pub open spec fn has_id(s: Seq<FrozenTrace>, id: u64) -> bool {
    exists|k: int| 0 <= k < s.len() && (#[trigger] s[k].id) == id
}

/// The ordered collection of frozen traces.
pub struct FrozenStore {
    pub traces: Vec<FrozenTrace>,
    pub next_id: u64,
}

impl FrozenStore {
    /// Ids strictly increase along the collection (creation order) and
    /// stay below the counter, so every id is unique until deleted and
    /// never reused.
    pub open spec fn well_formed(self) -> bool {
        &&& forall|k1: int, k2: int| 0 <= k1 < k2 < self.traces@.len() ==> (
        #[trigger] self.traces@[k1].id) < (#[trigger] self.traces@[k2].id)
        &&& forall|k: int| 0 <= k < self.traces@.len() ==> (#[trigger] self.traces@[k].id)
            < self.next_id
    }

    /// An empty store whose counter starts at zero.
    pub fn new() -> (r: FrozenStore)
        ensures
            r.traces@.len() == 0,
            r.next_id == 0,
            r.well_formed(),
    {
        FrozenStore { traces: Vec::new(), next_id: 0 }
    }

    /// How many traces are currently retained.
    pub fn len(&self) -> (r: usize)
        ensures
            r == self.traces@.len(),
    {
        self.traces.len()
    }

    /// Retains a snapshot and hands back its freshly assigned id.
    pub fn freeze(
        &mut self,
        spectrum: Spectrum,
        valleys: Vec<Feature>,
        peaks: Vec<Feature>,
        now: u64,
    ) -> (id: u64)
        requires
            old(self).well_formed(),
            old(self).next_id < u64::MAX,
        ensures
            final(self).well_formed(),
            id == old(self).next_id,
            final(self).next_id == old(self).next_id + 1,
            final(self).traces@ == old(self).traces@.push(
                FrozenTrace { id, spectrum, valleys, peaks, frozen_at: now },
            ),
            !has_id(old(self).traces@, id),
    {
        let id: u64 = self.next_id;
        let trace = FrozenTrace { id, spectrum, valleys, peaks, frozen_at: now };
        self.traces.push(trace);
        self.next_id = id + 1;
        id
    }

    /// Removes the trace carrying `id`; an absent id reports `NotFound`
    /// and changes nothing.
    pub fn delete(&mut self, id: u64) -> (r: Result<(), CoreError>)
        requires
            old(self).well_formed(),
        ensures
            final(self).well_formed(),
            final(self).next_id == old(self).next_id,
            r is Ok <==> has_id(old(self).traces@, id),
            r is Ok ==> exists|k: int|
                0 <= k < old(self).traces@.len() && (#[trigger] old(self).traces@[k].id) == id
                    && final(self).traces@ == old(self).traces@.remove(k),
            r matches Err(e) ==> e == CoreError::NotFound && *final(self) == *old(self),
    {
        let n: usize = self.traces.len();
        let mut i: usize = 0;
        while i < n
            invariant
                n == self.traces@.len(),
                i <= n,
                *self == *old(self),
                old(self).well_formed(),
                forall|k: int| 0 <= k < i ==> (#[trigger] self.traces@[k].id) != id,
            decreases n - i,
        {
            if self.traces[i].id == id {
                let ghost before = self.traces@;
                self.traces.remove(i);
                proof {
                    assert(before[i as int].id == id);
                    assert(old(self).well_formed());
                    assert(before == old(self).traces@);
                    assert(forall|a: int, b: int|
                        0 <= a < b < before.len() ==> (#[trigger] before[a].id) < (
                        #[trigger] before[b].id));
                    assert(forall|a: int|
                        0 <= a < before.len() ==> (#[trigger] before[a].id) < self.next_id);
                    assert(self.traces@ =~= before.remove(i as int));
                    assert forall|k1: int, k2: int|
                        0 <= k1 < k2 < self.traces@.len() implies (#[trigger] self.traces@[k1].id)
                        < (#[trigger] self.traces@[k2].id) by {
                        if k1 < i as int {
                            assert(self.traces@[k1] == before[k1]);
                        } else {
                            assert(self.traces@[k1] == before[k1 + 1]);
                        }
                        if k2 < i as int {
                            assert(self.traces@[k2] == before[k2]);
                        } else {
                            assert(self.traces@[k2] == before[k2 + 1]);
                        }
                    }
                    assert forall|k: int| 0 <= k < self.traces@.len() implies (
                    #[trigger] self.traces@[k].id) < self.next_id by {
                        if k < i as int {
                            assert(self.traces@[k] == before[k]);
                        } else {
                            assert(self.traces@[k] == before[k + 1]);
                        }
                    }
                }
                return Ok(());
            }
            i = i + 1;
        }
        Err(CoreError::NotFound)
    }

    /// Looks a trace up by id.
    pub fn get(&self, id: u64) -> (r: Option<&FrozenTrace>)
        ensures
            r is Some <==> has_id(self.traces@, id),
            r matches Some(t) ==> t.id == id && exists|k: int|
                0 <= k < self.traces@.len() && *t == (#[trigger] self.traces@[k]),
    {
        let n: usize = self.traces.len();
        let mut i: usize = 0;
        while i < n
            invariant
                n == self.traces@.len(),
                i <= n,
                forall|k: int| 0 <= k < i ==> (#[trigger] self.traces@[k].id) != id,
            decreases n - i,
        {
            if self.traces[i].id == id {
                return Some(&self.traces[i]);
            }
            i = i + 1;
        }
        None
    }
}

/// Law: freezing and then immediately deleting the returned id leaves
/// the store's contents — and so its size — exactly as before the
/// freeze.  `t` is the trace the freeze appended (its id above every
/// existing one) and `k` the index the delete removed.
pub proof fn lemma_freeze_then_delete_restores_size(
    before: Seq<FrozenTrace>,
    t: FrozenTrace,
    after: Seq<FrozenTrace>,
    k: int,
)
    requires
        forall|i: int| 0 <= i < before.len() ==> (#[trigger] before[i].id) < t.id,
        0 <= k < before.push(t).len(),
        before.push(t)[k].id == t.id,
        after == before.push(t).remove(k),
    ensures
        after.len() == before.len(),
        after == before,
{
    if k < before.len() {
        assert(before.push(t)[k] == before[k]);
        assert(false);
    }
    assert(k == before.len());
    assert(after =~= before);
}

} // verus!
