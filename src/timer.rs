//! Timer queues: pending wake-ups ordered by instant.
use vstd::multiset::Multiset;
use vstd::prelude::*;

use crate::task::TaskId;

verus! {

broadcast use vstd::seq_lib::group_to_multiset_ensures;

/// A pending wake-up of task `tid` at virtual instant `wake_at`. A timed
/// join also names the task it waits on in `target`; a sleep names none (0).
#[derive(Copy, Clone, Debug, PartialEq, Eq, Structural)]
pub struct TimerEntry {
    pub wake_at: u64,
    pub tid: TaskId,
    pub target: TaskId,
}

impl TimerEntry {
    /// Lexicographic order on (`wake_at`, `tid`, `target`).
    pub open spec fn earlier(self, other: TimerEntry) -> bool {
        self.wake_at < other.wake_at || (self.wake_at == other.wake_at && (self.tid < other.tid
            || (self.tid == other.tid && self.target < other.target)))
    }

    fn is_earlier(&self, other: &TimerEntry) -> (r: bool)
        ensures
            r == self.earlier(*other),
    {
        self.wake_at < other.wake_at || (self.wake_at == other.wake_at && (self.tid < other.tid
            || (self.tid == other.tid && self.target < other.target)))
    }
}

/// `e` is the earliest of `entries`: held there, and nothing there is earlier.
pub open spec fn is_earliest(entries: Multiset<TimerEntry>, e: TimerEntry) -> bool {
    &&& entries.contains(e)
    &&& forall|x: TimerEntry| entries.contains(x) ==> !x.earlier(e)
}

/// A min-queue of timer entries.
pub struct TimerHeap {
    entries: Vec<TimerEntry>,
}

impl TimerHeap {
    /// The pending entries.
    pub closed spec fn pending(&self) -> Multiset<TimerEntry> {
        self.entries@.to_multiset()
    }

    /// An empty queue.
    pub fn new() -> (r: Self)
        ensures
            r.pending() =~= Multiset::empty(),
    {
        TimerHeap { entries: Vec::new() }
    }

    /// Adds an entry.
    pub fn push(&mut self, e: TimerEntry)
        ensures
            final(self).pending() == old(self).pending().insert(e),
    {
        self.entries.push(e);
    }

    /// Whether no entry is pending.
    pub fn is_empty(&self) -> (r: bool)
        ensures
            r == (self.pending().len() == 0),
    {
        self.entries.len() == 0
    }

    /// Position of the earliest entry, of a non-empty queue.
    fn earliest_index(&self) -> (r: usize)
        requires
            self.entries@.len() > 0,
        ensures
            r < self.entries@.len(),
            is_earliest(self.pending(), self.entries@[r as int]),
    {
        let n = self.entries.len();
        let mut best: usize = 0;
        let mut i: usize = 1;
        while i < n
            invariant
                n == self.entries@.len(),
                0 <= best < i <= n,
                forall|j: int| 0 <= j < i ==> !(#[trigger] self.entries@[j]).earlier(
                    self.entries@[best as int],
                ),
            decreases n - i,
        {
            if self.entries[i].is_earlier(&self.entries[best]) {
                best = i;
            }
            i = i + 1;
        }
        proof {
            let s = self.entries@;
            assert(s.contains(s[best as int]));
            assert forall|x: TimerEntry| s.to_multiset().contains(x) implies !x.earlier(
                s[best as int],
            ) by {
                assert(s.contains(x));
            }
        }
        best
    }

    /// The earliest entry, if any.
    pub fn peek(&self) -> (r: Option<TimerEntry>)
        ensures
            r is None <==> self.pending().len() == 0,
            r matches Some(e) ==> is_earliest(self.pending(), e),
    {
        if self.entries.len() == 0 {
            None
        } else {
            let i = self.earliest_index();
            Some(self.entries[i])
        }
    }

    /// Removes and returns the earliest entry, if any.
    pub fn pop(&mut self) -> (r: Option<TimerEntry>)
        ensures
            r is None <==> old(self).pending().len() == 0,
            r is None ==> final(self).pending() == old(self).pending(),
            r matches Some(e) ==> is_earliest(old(self).pending(), e) && final(self).pending()
                == old(self).pending().remove(e),
    {
        if self.entries.len() == 0 {
            None
        } else {
            let i = self.earliest_index();
            let ghost before = self.entries@;
            let e = self.entries.remove(i);
            proof {
                assert(self.entries@ == before.remove(i as int));
            }
            Some(e)
        }
    }
}

/// The earliest of a multiset is unique.
pub proof fn lemma_earliest_unique(entries: Multiset<TimerEntry>, a: TimerEntry, b: TimerEntry)
    requires
        is_earliest(entries, a),
        is_earliest(entries, b),
    ensures
        a == b,
{
    assert(!a.earlier(b) && !b.earlier(a));
}

} // verus!
