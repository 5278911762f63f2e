//! Indexes of the tasks that wait on another task or on an I/O readiness id.
use std::collections::HashMap;
use vstd::prelude::*;

use crate::task::{TaskId, TaskState};

verus! {

broadcast use vstd::std_specs::hash::group_hash_axioms;

/// The list that `m` keeps under `k`; a missing key keeps the empty list.
pub open spec fn list_at(m: Map<u64, Vec<TaskId>>, k: u64) -> Seq<TaskId> {
    if m.contains_key(k) {
        m[k]@
    } else {
        Seq::empty()
    }
}

/// `s` without its first occurrence of `x`, which it holds.
pub open spec fn without_first(s: Seq<TaskId>, x: TaskId, r: Seq<TaskId>) -> bool {
    exists|i: int|
        0 <= i < s.len() && s[i] == x && (forall|j: int| 0 <= j < i ==> s[j] != x) && r == s.remove(
            i,
        )
}

/// Appends `v` to the list under `k`.
fn append_at(m: &mut HashMap<u64, Vec<TaskId>>, k: u64, v: TaskId)
    ensures
        forall|j: u64|
            list_at(final(m)@, j) == if j == k {
                list_at(old(m)@, j).push(v)
            } else {
                list_at(old(m)@, j)
            },
{
    let ghost before = m@;
    let mut list = match m.remove(&k) {
        Some(l) => l,
        None => Vec::new(),
    };
    list.push(v);
    m.insert(k, list);
    proof {
        assert forall|j: u64| j != k implies list_at(m@, j) == list_at(before, j) by {
            assert(m@.contains_key(j) == before.contains_key(j));
        }
    }
}

/// Takes the list under `k` out of `m`.
fn take_at(m: &mut HashMap<u64, Vec<TaskId>>, k: u64) -> (r: Vec<TaskId>)
    ensures
        r@ == list_at(old(m)@, k),
        forall|j: u64|
            list_at(final(m)@, j) == if j == k {
                Seq::<TaskId>::empty()
            } else {
                list_at(old(m)@, j)
            },
{
    let ghost before = m@;
    let r = match m.remove(&k) {
        Some(l) => l,
        None => Vec::new(),
    };
    proof {
        assert forall|j: u64| j != k implies list_at(m@, j) == list_at(before, j) by {
            assert(m@.contains_key(j) == before.contains_key(j));
        }
    }
    r
}

/// Map of tasks waiting on other tasks to complete, or on I/O readiness.
pub struct WaitMap {
    join_waiters: HashMap<TaskId, Vec<TaskId>>,
    io_waiters: HashMap<u64, Vec<TaskId>>,
}

impl WaitMap {
    /// The tasks waiting for `target` to terminate, in the order they asked.
    pub closed spec fn joiners(&self, target: TaskId) -> Seq<TaskId> {
        list_at(self.join_waiters@, target)
    }

    /// The tasks waiting for readiness of `io_id`, in the order they asked.
    pub closed spec fn io_waiters_of(&self, io_id: u64) -> Seq<TaskId> {
        list_at(self.io_waiters@, io_id)
    }

    /// `self` and `other` keep the same join waiters.
    pub open spec fn same_joiners(&self, other: &WaitMap) -> bool {
        forall|t: TaskId| #[trigger] self.joiners(t) == other.joiners(t)
    }

    /// `self` and `other` keep the same I/O waiters.
    pub open spec fn same_io_waiters(&self, other: &WaitMap) -> bool {
        forall|i: u64| #[trigger] self.io_waiters_of(i) == other.io_waiters_of(i)
    }

    /// Create a new empty `WaitMap`.
    pub fn new() -> (r: Self)
        ensures
            forall|t: TaskId| #[trigger] r.joiners(t) == Seq::<TaskId>::empty(),
            forall|i: u64| #[trigger] r.io_waiters_of(i) == Seq::<TaskId>::empty(),
    {
        WaitMap { join_waiters: HashMap::new(), io_waiters: HashMap::new() }
    }

    /// Record that `waiter` is waiting for `target` to finish.
    pub fn wait_for(&mut self, target: TaskId, waiter: TaskId)
        ensures
            forall|t: TaskId| #[trigger]
                final(self).joiners(t) == if t == target {
                    old(self).joiners(t).push(waiter)
                } else {
                    old(self).joiners(t)
                },
            final(self).same_io_waiters(old(self)),
    {
        append_at(&mut self.join_waiters, target, waiter);
    }

    /// Notify tasks waiting on `target`: returns its waiters, in the order
    /// they asked, and the state it ended in.
    pub fn complete(&mut self, target: TaskId, state: TaskState) -> (r: (Vec<TaskId>, TaskState))
        ensures
            r.0@ == old(self).joiners(target),
            r.1 == state,
            forall|t: TaskId| #[trigger]
                final(self).joiners(t) == if t == target {
                    Seq::<TaskId>::empty()
                } else {
                    old(self).joiners(t)
                },
            final(self).same_io_waiters(old(self)),
    {
        (take_at(&mut self.join_waiters, target), state)
    }

    /// Record that `waiter` is waiting for the I/O resource `source_id`.
    pub fn wait_io(&mut self, source_id: u64, waiter: TaskId)
        ensures
            forall|i: u64| #[trigger]
                final(self).io_waiters_of(i) == if i == source_id {
                    old(self).io_waiters_of(i).push(waiter)
                } else {
                    old(self).io_waiters_of(i)
                },
            final(self).same_joiners(old(self)),
    {
        append_at(&mut self.io_waiters, source_id, waiter);
    }

    /// Notify tasks waiting on an I/O resource: returns them in the order
    /// they asked.
    pub fn complete_io(&mut self, source_id: u64) -> (r: Vec<TaskId>)
        ensures
            r@ == old(self).io_waiters_of(source_id),
            forall|i: u64| #[trigger]
                final(self).io_waiters_of(i) == if i == source_id {
                    Seq::<TaskId>::empty()
                } else {
                    old(self).io_waiters_of(i)
                },
            final(self).same_joiners(old(self)),
    {
        take_at(&mut self.io_waiters, source_id)
    }

    /// Remove the first occurrence of `waiter` from the waiters on `target`.
    /// Returns whether it was there.
    pub fn remove_waiter(&mut self, target: TaskId, waiter: TaskId) -> (r: bool)
        ensures
            r == old(self).joiners(target).contains(waiter),
            r ==> without_first(old(self).joiners(target), waiter, final(self).joiners(target)),
            !r ==> final(self).joiners(target) == old(self).joiners(target),
            forall|t: TaskId| t != target ==> #[trigger] final(self).joiners(t) == old(self).joiners(t),
            final(self).same_io_waiters(old(self)),
    {
        let ghost before = self.join_waiters@;
        let mut list = take_at(&mut self.join_waiters, target);
        let ghost orig = list@;
        let n = list.len();
        let mut i: usize = 0;
        while i < n
            invariant
                n == list@.len(),
                list@ == orig,
                i <= n,
                forall|j: int| 0 <= j < i ==> orig[j] != waiter,
                orig == list_at(before, target),
                self.io_waiters@ == old(self).io_waiters@,
                before == old(self).join_waiters@,
                forall|j: u64|
                    #[trigger] list_at(self.join_waiters@, j) == if j == target {
                        Seq::<TaskId>::empty()
                    } else {
                        list_at(before, j)
                    },
            decreases n - i,
        {
            if list[i] == waiter {
                list.remove(i);
                if list.len() > 0 {
                    append_all(&mut self.join_waiters, target, list);
                }
                proof {
                    assert(orig.contains(waiter));
                    assert(list_at(self.join_waiters@, target) =~= orig.remove(i as int));
                    assert(without_first(orig, waiter, orig.remove(i as int)));
                }
                return true;
            }
            i = i + 1;
        }
        if n > 0 {
            append_all(&mut self.join_waiters, target, list);
        }
        proof {
            assert(!orig.contains(waiter));
        }
        false
    }
}

/// Puts the non-empty list `l` under `k`, where `m` keeps none.
fn append_all(m: &mut HashMap<u64, Vec<TaskId>>, k: u64, l: Vec<TaskId>)
    requires
        list_at(old(m)@, k) == Seq::<TaskId>::empty(),
    ensures
        forall|j: u64|
            list_at(final(m)@, j) == if j == k {
                l@
            } else {
                list_at(old(m)@, j)
            },
{
    let ghost before = m@;
    m.insert(k, l);
    proof {
        assert forall|j: u64| j != k implies list_at(m@, j) == list_at(before, j) by {
            assert(m@.contains_key(j) == before.contains_key(j));
        }
    }
}

} // verus!
