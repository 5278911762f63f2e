//! The ready queue: runnable task ids ordered by priority, then by arrival.
use std::collections::HashSet;
use vstd::multiset::Multiset;
use vstd::prelude::*;

use crate::task::TaskId;

verus! {

broadcast use vstd::std_specs::hash::group_hash_axioms, vstd::seq_lib::group_to_multiset_ensures;

/// Entry in the ready queue representing a runnable task.
#[derive(Copy, Clone, Debug, PartialEq, Eq, Structural)]
pub struct ReadyEntry {
    /// Task priority. Lower values run first.
    pub pri: u8,
    /// Arrival counter that keeps equal priorities in FIFO order.
    pub seq: u64,
    /// Identifier of the runnable task.
    pub tid: TaskId,
}

impl ReadyEntry {
    /// `self` is dispatched strictly before `other`: lower priority value
    /// first, and within a priority band the lower arrival counter first.
    pub open spec fn runs_before(self, other: ReadyEntry) -> bool {
        self.pri < other.pri || (self.pri == other.pri && self.seq < other.seq)
    }

    /// Executable form of [`Self::runs_before`].
    pub fn precedes(&self, other: &ReadyEntry) -> (r: bool)
        ensures
            r == self.runs_before(*other),
    {
        self.pri < other.pri || (self.pri == other.pri && self.seq < other.seq)
    }
}

/// `e` is an entry that may leave `entries` next: it is queued and no queued
/// entry runs before it.
pub open spec fn is_next(entries: Multiset<ReadyEntry>, e: ReadyEntry) -> bool {
    &&& entries.contains(e)
    &&& forall|x: ReadyEntry| entries.contains(x) ==> !x.runs_before(e)
}

/// Within a priority band, an entry that arrived later never leaves while
/// an earlier one is still queued.
pub proof fn lemma_fifo_within_band(entries: Multiset<ReadyEntry>, a: ReadyEntry, b: ReadyEntry)
    requires
        entries.contains(a),
        entries.contains(b),
        a.pri == b.pri,
        a.seq < b.seq,
    ensures
        !is_next(entries, b),
{
    assert(a.runs_before(b));
}

/// An entry of a lower priority value leaves before one of a higher value,
/// whatever their arrival order.
pub proof fn lemma_priority_dominance(entries: Multiset<ReadyEntry>, a: ReadyEntry, b: ReadyEntry)
    requires
        entries.contains(a),
        entries.contains(b),
        a.pri < b.pri,
    ensures
        !is_next(entries, b),
{
    assert(a.runs_before(b));
}

/// Priority queue of runnable task ids, with duplicate suppression.
///
/// `set` holds the ids admitted through [`ReadyQueue::push`] and not popped
/// since; `heap` holds the queued entries.
pub struct ReadyQueue {
    heap: Vec<ReadyEntry>,
    set: HashSet<TaskId>,
}

impl ReadyQueue {
    /// The queued entries.
    pub closed spec fn entries(&self) -> Multiset<ReadyEntry> {
        self.heap@.to_multiset()
    }

    /// The ids that count as present for duplicate suppression.
    pub closed spec fn members(&self) -> Set<TaskId> {
        self.set@
    }

    /// Create an empty ready queue.
    pub fn new() -> (r: Self)
        ensures
            r.entries() =~= Multiset::empty(),
            r.members() =~= Set::empty(),
    {
        ReadyQueue { heap: Vec::new(), set: HashSet::new() }
    }

    /// Push a task entry onto the queue, unless its id is already present.
    pub fn push(&mut self, entry: ReadyEntry)
        ensures
            final(self).members() == old(self).members().insert(entry.tid),
            old(self).members().contains(entry.tid) ==> final(self).entries() == old(
                self,
            ).entries(),
            !old(self).members().contains(entry.tid) ==> final(self).entries() == old(
                self,
            ).entries().insert(entry),
    {
        if self.set.insert(entry.tid) {
            self.heap.push(entry);
        }
    }

    /// Returns `true` if the queue already contains `tid`.
    pub fn contains(&self, tid: TaskId) -> (r: bool)
        ensures
            r == self.members().contains(tid),
    {
        self.set.contains(&tid)
    }

    /// Pop the id of the next entry: the lowest priority value, and within
    /// it the lowest arrival counter.
    pub fn pop(&mut self) -> (r: Option<TaskId>)
        ensures
            r is None <==> old(self).entries().len() == 0,
            r is None ==> *final(self) == *old(self),
            r matches Some(t) ==> exists|e: ReadyEntry|
                {
                    &&& #[trigger] is_next(old(self).entries(), e)
                    &&& e.tid == t
                    &&& final(self).entries() == old(self).entries().remove(e)
                    &&& final(self).members() == old(self).members().remove(t)
                },
    {
        let n = self.heap.len();
        if n == 0 {
            return None;
        }
        let mut best: usize = 0;
        let mut i: usize = 1;
        while i < n
            invariant
                n == self.heap@.len(),
                0 <= best < i <= n,
                forall|j: int| 0 <= j < i ==> !(#[trigger] self.heap@[j]).runs_before(
                    self.heap@[best as int],
                ),
            decreases n - i,
        {
            if self.heap[i].precedes(&self.heap[best]) {
                best = i;
            }
            i = i + 1;
        }
        let ghost old_heap = self.heap@;
        let e = self.heap.remove(best);
        self.set.remove(&e.tid);
        proof {
            assert forall|x: ReadyEntry| old_heap.to_multiset().contains(x) implies !x.runs_before(
                e,
            ) by {
                assert(old_heap.contains(x));
            }
            assert(old_heap[best as int] == e);
            assert(old_heap.contains(e));
            assert(is_next(old_heap.to_multiset(), e));
            assert(self.heap@ == old_heap.remove(best as int));
        }
        Some(e.tid)
    }

    /// Returns `true` if the queue has no entries.
    pub fn is_empty(&self) -> (r: bool)
        ensures
            r == (self.entries().len() == 0),
    {
        self.heap.len() == 0
    }

    /// Returns the number of queued entries.
    pub fn len(&self) -> (r: usize)
        ensures
            r == self.entries().len(),
    {
        self.heap.len()
    }

    /// Queue an entry without consulting the present ids, so that an id may
    /// stand in the queue twice or after its task has gone.
    pub fn force_push(&mut self, entry: ReadyEntry)
        ensures
            final(self).entries() == old(self).entries().insert(entry),
            final(self).members() == old(self).members(),
    {
        self.heap.push(entry);
    }
}

} // verus!
