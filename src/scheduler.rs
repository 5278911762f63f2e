//! The scheduler's state and the decisions of its dispatch loop.
//!
//! A driver owns the task bodies and the channels they send on. Each turn of
//! its loop it asks this state machine what to do ([`Scheduler::pick_next`],
//! [`Scheduler::reclaim_for`]) and hands back what happened
//! ([`Scheduler::handle_syscall`], [`Scheduler::io_ready`]).
use std::collections::{HashMap, HashSet};
use vstd::multiset::Multiset;
use vstd::prelude::*;

use crate::clock::TickClock;
use crate::pal::{emit, TaskEvent};
use crate::ready_queue::{is_next, ReadyEntry, ReadyQueue};
use crate::syscall::SystemCall;
use crate::task::{TaskId, TaskState};
use crate::timer::{is_earliest, TimerEntry, TimerHeap};
use crate::wait_map::WaitMap;

verus! {

broadcast use vstd::std_specs::hash::group_hash_axioms, vstd::seq_lib::group_to_multiset_ensures,
    vstd::multiset::group_multiset_axioms;

/// Priority given by [`Scheduler::spawn`].
pub const DEFAULT_PRIORITY: u8 = 10;

/// The longest a dispatch loop waits for a system call or for I/O
/// readiness before it stops, in nanoseconds: five seconds.
pub const IDLE_TIMEOUT_NANOS: u64 = 5_000_000_000;

/// The `target` of a sleep's timer entry: sleeps wait on no task.
pub const NO_TARGET: TaskId = 0;

/// The ready queue in the abstract: queued entries, ids present for
/// duplicate suppression, and the arrival counter the next push gets.
pub type ReadyModel = (Multiset<ReadyEntry>, Set<TaskId>, u64);

/// The arrival counter after one use. It stops at `u64::MAX`.
pub open spec fn next_seq(s: u64) -> u64 {
    if s < u64::MAX {
        (s + 1) as u64
    } else {
        s
    }
}

/// The ready queue after making `t` ready, where `live` maps each live task
/// to its priority. An id that is not live is dropped.
pub open spec fn after_push(r: ReadyModel, live: Map<TaskId, u8>, t: TaskId) -> ReadyModel {
    if live.contains_key(t) {
        let e = ReadyEntry { pri: live[t], seq: r.2, tid: t };
        (if r.1.contains(t) {
            r.0
        } else {
            r.0.insert(e)
        }, r.1.insert(t), next_seq(r.2))
    } else {
        r
    }
}

/// The ready queue after making each of `ws` ready, in order.
pub open spec fn after_wake_all(r: ReadyModel, live: Map<TaskId, u8>, ws: Seq<TaskId>) -> ReadyModel
    decreases ws.len(),
{
    if ws.len() == 0 {
        r
    } else {
        after_push(after_wake_all(r, live, ws.drop_last()), live, ws.last())
    }
}

/// The ready queue agrees with the id and arrival counters: every present
/// id was handed out before `next`, and every queued entry arrived before
/// the counter (unless the counter has stopped at `u64::MAX`).
pub open spec fn ready_ok(r: ReadyModel, next: TaskId) -> bool {
    &&& forall|t: TaskId| #[trigger] r.1.contains(t) ==> t < next
    &&& forall|e: ReadyEntry| #[trigger] r.0.contains(e) ==> e.seq < r.2 || r.2 == u64::MAX
}

/// Making a task ready keeps the queue in agreement with the counters.
proof fn lemma_after_push_ok(r: ReadyModel, live: Map<TaskId, u8>, t: TaskId, next: TaskId)
    requires
        ready_ok(r, next),
        live.contains_key(t) ==> t < next,
    ensures
        ready_ok(after_push(r, live, t), next),
{
    if live.contains_key(t) {
        let e = ReadyEntry { pri: live[t], seq: r.2, tid: t };
        let q = after_push(r, live, t);
        assert forall|x: ReadyEntry| #[trigger] q.0.contains(x) implies x.seq < q.2 || q.2
            == u64::MAX by {
            if x != e {
                assert(r.0.contains(x));
            }
        }
    }
}

/// Queuing an entry stamped with the counter, without touching the present
/// ids, keeps the queue in agreement with the counters.
proof fn lemma_force_push_ok(r: ReadyModel, e: ReadyEntry, next: TaskId)
    requires
        ready_ok(r, next),
        e.seq == r.2,
    ensures
        ready_ok((r.0.insert(e), r.1, next_seq(r.2)), next),
{
    assert forall|x: ReadyEntry| #[trigger] r.0.insert(e).contains(x) implies x.seq < next_seq(
        r.2,
    ) || next_seq(r.2) == u64::MAX by {
        if x != e {
            assert(r.0.contains(x));
        }
    }
}

/// Taking an entry out keeps the queue in agreement with the counters.
proof fn lemma_pop_ok(r: ReadyModel, e: ReadyEntry, next: TaskId)
    requires
        ready_ok(r, next),
    ensures
        ready_ok((r.0.remove(e), r.1.remove(e.tid), r.2), next),
{
    assert forall|x: ReadyEntry| #[trigger] r.0.remove(e).contains(x) implies x.seq < r.2 || r.2
        == u64::MAX by {
        assert(r.0.contains(x));
    }
}

/// The instant `dur` after `now`; it stops at `u64::MAX`.
pub open spec fn wake_instant(now: nat, dur: u64) -> u64 {
    if now + dur <= u64::MAX {
        (now + dur) as u64
    } else {
        u64::MAX
    }
}

/// Some entry of `m` due by `now` wakes task `t`.
pub open spec fn due_tid(m: Multiset<TimerEntry>, now: nat, t: TaskId) -> bool {
    exists|e: TimerEntry| #[trigger] m.contains(e) && e.wake_at <= now && e.tid == t
}

/// Taking the first `x` out of `s` keeps every other element.
proof fn lemma_without_first_keeps(s: Seq<TaskId>, x: TaskId, r: Seq<TaskId>)
    requires
        crate::wait_map::without_first(s, x, r),
    ensures
        forall|y: TaskId| #[trigger] r.contains(y) ==> s.contains(y),
        forall|y: TaskId| y != x && s.contains(y) ==> #[trigger] r.contains(y),
{
    let i = choose|i: int|
        0 <= i < s.len() && s[i] == x && (forall|j: int| 0 <= j < i ==> s[j] != x) && r == s.remove(
            i,
        );
    assert forall|y: TaskId| #[trigger] r.contains(y) implies s.contains(y) by {
        let k = choose|k: int| 0 <= k < r.len() && r[k] == y;
        if k < i {
            assert(s[k] == y);
        } else {
            assert(s[k + 1] == y);
        }
    }
    assert forall|y: TaskId| y != x && s.contains(y) implies #[trigger] r.contains(y) by {
        let k = choose|k: int| 0 <= k < s.len() && s[k] == y;
        if k < i {
            assert(r[k] == y);
        } else {
            assert(k != i);
            assert(r[k - 1] == y);
        }
    }
}

/// Taking the first `x` out of `s` takes one `x` out of its multiset.
proof fn lemma_without_first_count(s: Seq<TaskId>, x: TaskId, r: Seq<TaskId>)
    requires
        crate::wait_map::without_first(s, x, r),
    ensures
        r.to_multiset() == s.to_multiset().remove(x),
{
    let i = choose|i: int|
        0 <= i < s.len() && s[i] == x && (forall|j: int| 0 <= j < i ==> s[j] != x) && r == s.remove(
            i,
        );
    assert(s.remove(i).to_multiset() == s.to_multiset().remove(s[i]));
}

/// The entries that making each of `ws` ready queues, when none is present
/// and the counter starts at `s` and does not stop: one per task, in order.
pub open spec fn wake_entries(ws: Seq<TaskId>, live: Map<TaskId, u8>, s: nat) -> Seq<ReadyEntry> {
    Seq::new(ws.len(), |i: int| ReadyEntry { pri: live[ws[i]], seq: (s + i) as u64, tid: ws[i] })
}

/// Making distinct live tasks ready, none of them present, queues exactly
/// one entry for each, with arrival counters in their order.
pub proof fn lemma_wake_all_distinct(r: ReadyModel, live: Map<TaskId, u8>, ws: Seq<TaskId>)
    requires
        ws.no_duplicates(),
        forall|w: TaskId| #[trigger] ws.contains(w) ==> live.contains_key(w) && !r.1.contains(w),
        r.2 + ws.len() <= u64::MAX,
    ensures
        after_wake_all(r, live, ws) == (
            r.0.add(wake_entries(ws, live, r.2 as nat).to_multiset()),
            r.1.union(ws.to_set()),
            (r.2 + ws.len()) as u64,
        ),
    decreases ws.len(),
{
    if ws.len() == 0 {
        assert(wake_entries(ws, live, r.2 as nat) =~= Seq::<ReadyEntry>::empty());
        assert(r.0.add(Seq::<ReadyEntry>::empty().to_multiset()) =~= r.0);
        assert(r.1.union(ws.to_set()) =~= r.1);
    } else {
        let pre = ws.drop_last();
        let w = ws.last();
        assert forall|x: TaskId| #[trigger] pre.contains(x) implies live.contains_key(x)
            && !r.1.contains(x) by {
            let k = choose|k: int| 0 <= k < pre.len() && pre[k] == x;
            assert(ws[k] == x);
            assert(ws.contains(x));
        }
        assert(pre.no_duplicates()) by {
            assert forall|i: int, j: int| 0 <= i < pre.len() && 0 <= j < pre.len() && i != j implies pre[i] != pre[j] by {
                assert(ws[i] == pre[i] && ws[j] == pre[j]);
            }
        }
        lemma_wake_all_distinct(r, live, pre);
        assert(ws.contains(w)) by {
            assert(ws[ws.len() - 1] == w);
        }
        assert(!pre.to_set().contains(w)) by {
            if pre.to_set().contains(w) {
                let k = choose|k: int| 0 <= k < pre.len() && pre[k] == w;
                assert(ws[k] == ws[ws.len() - 1]);
            }
        }
        let e = ReadyEntry { pri: live[w], seq: (r.2 + pre.len()) as u64, tid: w };
        let we = wake_entries(ws, live, r.2 as nat);
        let wp = wake_entries(pre, live, r.2 as nat);
        assert(we =~= wp.push(e));
        assert(we.to_multiset() == wp.to_multiset().insert(e));
        assert(r.0.add(we.to_multiset()) =~= r.0.add(wp.to_multiset()).insert(e));
        assert(ws.to_set() =~= pre.to_set().insert(w)) by {
            assert(ws =~= pre.push(w));
        }
        assert(r.1.union(ws.to_set()) =~= r.1.union(pre.to_set()).insert(w));
    }
}

/// Making `ws` ready keeps every present id present and makes each live
/// one of `ws` present.
pub proof fn lemma_wake_all_members(r: ReadyModel, live: Map<TaskId, u8>, ws: Seq<TaskId>)
    ensures
        r.1.subset_of(after_wake_all(r, live, ws).1),
        forall|w: TaskId|
            ws.contains(w) && live.contains_key(w) ==> #[trigger] after_wake_all(
                r,
                live,
                ws,
            ).1.contains(w),
    decreases ws.len(),
{
    if ws.len() > 0 {
        lemma_wake_all_members(r, live, ws.drop_last());
        assert forall|w: TaskId|
            ws.contains(w) && live.contains_key(w) implies #[trigger] after_wake_all(
            r,
            live,
            ws,
        ).1.contains(w) by {
            let k = choose|k: int| 0 <= k < ws.len() && ws[k] == w;
            if k < ws.len() - 1 {
                assert(ws.drop_last()[k] == w);
                assert(ws.drop_last().contains(w));
            }
        }
    }
}

/// Some entry of `m` due by `now` is a timed join of `w` on `t`.
pub open spec fn due_join(m: Multiset<TimerEntry>, now: nat, w: TaskId, t: TaskId) -> bool {
    exists|e: TimerEntry| #[trigger] m.contains(e) && e.wake_at <= now && e.tid == w && e.target == t
}

/// The tasks that the timer entries `due` wake, in order.
pub open spec fn tids_of(due: Seq<TimerEntry>) -> Seq<TaskId> {
    due.map_values(|e: TimerEntry| e.tid)
}

/// What the driver does next after [`Scheduler::pick_next`].
#[derive(Copy, Clone, Debug, PartialEq, Eq, Structural)]
pub enum Pick {
    /// Await the next system call: the turn belongs to this live task.
    Run(TaskId),
    /// Start the next turn at once.
    Again,
    /// Nothing is ready and no timer is pending: block on I/O readiness.
    Idle,
}

/// Work on a coroutine that must happen before a system call is applied.
#[derive(Copy, Clone, Debug, PartialEq, Eq, Structural)]
pub enum Reclaim {
    /// None.
    Nothing,
    /// The task has finished: wait for its coroutine to end, noting a panic.
    Join(TaskId),
    /// Cancel the target's coroutine and wait for it to end.
    Cancel(TaskId),
}

/// The scheduler's state: live tasks, terminal states, the ready queue, the
/// wait indexes, the timers and the virtual clock.
pub struct Scheduler {
    next_id: TaskId,
    seq: u64,
    clock: TickClock,
    sleepers: TimerHeap,
    timeout_waiters: TimerHeap,
    tasks: HashMap<TaskId, u8>,
    ready: ReadyQueue,
    wait_map: WaitMap,
    cancelled: HashSet<TaskId>,
    states: HashMap<TaskId, TaskState>,
}

impl Scheduler {
    /// Live tasks, each with its priority.
    pub closed spec fn live(&self) -> Map<TaskId, u8> {
        self.tasks@
    }

    /// Recorded states: `Running` for live tasks, then the terminal state.
    pub closed spec fn states(&self) -> Map<TaskId, TaskState> {
        self.states@
    }

    /// Tasks that were cancelled.
    pub closed spec fn cancelled(&self) -> Set<TaskId> {
        self.cancelled@
    }

    /// The id the next spawned task gets.
    pub closed spec fn next_tid(&self) -> TaskId {
        self.next_id
    }

    /// The ready queue in the abstract.
    pub closed spec fn ready_model(&self) -> ReadyModel {
        (self.ready.entries(), self.ready.members(), self.seq)
    }

    /// Tasks waiting for `target` to terminate.
    pub closed spec fn joiners(&self, target: TaskId) -> Seq<TaskId> {
        self.wait_map.joiners(target)
    }

    /// Tasks waiting for readiness of `io_id`.
    pub closed spec fn io_waiters_of(&self, io_id: u64) -> Seq<TaskId> {
        self.wait_map.io_waiters_of(io_id)
    }

    /// Pending sleeps.
    pub closed spec fn sleepers(&self) -> Multiset<TimerEntry> {
        self.sleepers.pending()
    }

    /// Pending timed joins.
    pub closed spec fn timeouts(&self) -> Multiset<TimerEntry> {
        self.timeout_waiters.pending()
    }

    /// The virtual time.
    pub closed spec fn now(&self) -> nat {
        self.clock.instant()
    }

    /// Well-formed: a task is live exactly when its recorded state is
    /// `Running`, live ids lie between 1 and the next id, and the ready
    /// queue agrees with the id and arrival counters.
    pub closed spec fn wf(&self) -> bool {
        &&& self.next_id >= 1
        &&& forall|t: TaskId| #[trigger]
            self.tasks@.contains_key(t) ==> 1 <= t < self.next_id && self.states@.contains_key(t)
                && self.states@[t] == TaskState::Running
        &&& forall|t: TaskId| #[trigger]
            self.states@.contains_key(t) && self.states@[t] == TaskState::Running
                ==> self.tasks@.contains_key(t)
        &&& ready_ok(self.ready_model(), self.next_id)
    }

    /// Same tasks, states, cancellations and next id.
    pub open spec fn same_tasks(&self, o: &Scheduler) -> bool {
        &&& self.live() == o.live()
        &&& self.states() == o.states()
        &&& self.cancelled() == o.cancelled()
        &&& self.next_tid() == o.next_tid()
    }

    /// Same join and I/O waiters.
    pub open spec fn same_waits(&self, o: &Scheduler) -> bool {
        &&& forall|t: TaskId| #[trigger] self.joiners(t) == o.joiners(t)
        &&& forall|i: u64| #[trigger] self.io_waiters_of(i) == o.io_waiters_of(i)
    }

    /// Same timers and virtual time.
    pub open spec fn same_timers(&self, o: &Scheduler) -> bool {
        &&& self.sleepers() == o.sleepers()
        &&& self.timeouts() == o.timeouts()
        &&& self.now() == o.now()
    }

    /// `post` is `pre` with `tid` made ready again.
    pub open spec fn requeued(pre: &Scheduler, post: &Scheduler, tid: TaskId) -> bool {
        &&& post.ready_model() == after_push(pre.ready_model(), pre.live(), tid)
        &&& post.same_tasks(pre)
        &&& post.same_waits(pre)
        &&& post.same_timers(pre)
    }

    /// `post` is `pre` with the live task `t` gone in state `st`, and its
    /// join waiters made ready in the order they asked.
    pub open spec fn reaped(pre: &Scheduler, post: &Scheduler, t: TaskId, st: TaskState) -> bool {
        &&& post.live() == pre.live().remove(t)
        &&& post.states() == pre.states().insert(t, st)
        &&& post.next_tid() == pre.next_tid()
        &&& post.ready_model() == after_wake_all(pre.ready_model(), post.live(), pre.joiners(t))
        &&& post.joiners(t) == Seq::<TaskId>::empty()
        &&& forall|u: TaskId| u != t ==> #[trigger] post.joiners(u) == pre.joiners(u)
        &&& forall|i: u64| #[trigger] post.io_waiters_of(i) == pre.io_waiters_of(i)
        &&& post.same_timers(pre)
    }

    /// The terminal state that `Done` from `tid` records, where `clean`
    /// tells whether its coroutine was joined without a panic.
    pub open spec fn done_state(&self, tid: TaskId, clean: bool) -> TaskState {
        if self.live().contains_key(tid) {
            if clean {
                TaskState::Finished
            } else {
                TaskState::Failed
            }
        } else if self.states().contains_key(tid) && self.states()[tid] == TaskState::Failed {
            TaskState::Failed
        } else {
            TaskState::Finished
        }
    }

    /// The work that [`Scheduler::reclaim_for`] asks for.
    pub open spec fn reclaim_spec(&self, tid: TaskId, call: SystemCall) -> Reclaim {
        match call {
            SystemCall::Done => if self.live().contains_key(tid) {
                Reclaim::Join(tid)
            } else {
                Reclaim::Nothing
            },
            SystemCall::Cancel(target) => if self.live().contains_key(target) {
                Reclaim::Cancel(target)
            } else {
                Reclaim::Nothing
            },
            _ => Reclaim::Nothing,
        }
    }

    /// `post` and `d1` are what applying `call` from task `tid` makes of
    /// `pre` and the done-order `d0`.
    pub open spec fn syscall_step(
        pre: &Scheduler,
        post: &Scheduler,
        tid: TaskId,
        call: SystemCall,
        clean: bool,
        d0: Seq<TaskId>,
        d1: Seq<TaskId>,
    ) -> bool {
        match call {
            SystemCall::Log(_) => Self::requeued(pre, post, tid) && d1 == d0,
            SystemCall::Yield => Self::requeued(pre, post, tid) && d1 == d0,
            SystemCall::Sleep(dur) => {
                &&& post.sleepers() == pre.sleepers().insert(
                    TimerEntry { wake_at: wake_instant(pre.now(), dur), tid, target: NO_TARGET },
                )
                &&& post.timeouts() == pre.timeouts()
                &&& post.now() == pre.now()
                &&& post.ready_model() == pre.ready_model()
                &&& post.same_tasks(pre)
                &&& post.same_waits(pre)
                &&& d1 == d0
            },
            SystemCall::Join(target) => d1 == d0 && if pre.live().contains_key(target) {
                &&& post.joiners(target) == pre.joiners(target).push(tid)
                &&& forall|u: TaskId| u != target ==> #[trigger] post.joiners(u) == pre.joiners(u)
                &&& forall|i: u64| #[trigger] post.io_waiters_of(i) == pre.io_waiters_of(i)
                &&& post.ready_model() == pre.ready_model()
                &&& post.same_tasks(pre)
                &&& post.same_timers(pre)
            } else {
                Self::requeued(pre, post, tid)
            },
            SystemCall::JoinTimeout { target, dur } => d1 == d0 && if pre.live().contains_key(
                target,
            ) {
                &&& post.joiners(target) == pre.joiners(target).push(tid)
                &&& forall|u: TaskId| u != target ==> #[trigger] post.joiners(u) == pre.joiners(u)
                &&& forall|i: u64| #[trigger] post.io_waiters_of(i) == pre.io_waiters_of(i)
                &&& post.timeouts() == pre.timeouts().insert(
                    TimerEntry { wake_at: wake_instant(pre.now(), dur), tid, target },
                )
                &&& post.sleepers() == pre.sleepers()
                &&& post.now() == pre.now()
                &&& post.ready_model() == pre.ready_model()
                &&& post.same_tasks(pre)
            } else {
                Self::requeued(pre, post, tid)
            },
            SystemCall::IoWait(io_id) => {
                &&& post.io_waiters_of(io_id) == pre.io_waiters_of(io_id).push(tid)
                &&& forall|i: u64| i != io_id ==> #[trigger] post.io_waiters_of(i)
                    == pre.io_waiters_of(i)
                &&& forall|u: TaskId| #[trigger] post.joiners(u) == pre.joiners(u)
                &&& post.ready_model() == pre.ready_model()
                &&& post.same_tasks(pre)
                &&& post.same_timers(pre)
                &&& d1 == d0
            },
            SystemCall::Done => {
                &&& Self::reaped(pre, post, tid, pre.done_state(tid, clean))
                &&& post.cancelled() == pre.cancelled()
                &&& d1 == d0.push(tid)
            },
            SystemCall::Cancel(target) => if pre.live().contains_key(target) {
                &&& post.live() == pre.live().remove(target)
                &&& post.states() == pre.states().insert(target, TaskState::Finished)
                &&& post.cancelled() == pre.cancelled().insert(target)
                &&& post.next_tid() == pre.next_tid()
                &&& post.ready_model() == after_push(
                    after_wake_all(pre.ready_model(), post.live(), pre.joiners(target)),
                    post.live(),
                    tid,
                )
                &&& post.joiners(target) == Seq::<TaskId>::empty()
                &&& forall|u: TaskId| u != target ==> #[trigger] post.joiners(u) == pre.joiners(u)
                &&& forall|i: u64| #[trigger] post.io_waiters_of(i) == pre.io_waiters_of(i)
                &&& post.same_timers(pre)
                &&& d1 == d0.push(target)
            } else {
                Self::requeued(pre, post, tid) && d1 == d0
            },
        }
    }

    /// Create a scheduler with no tasks, its clock at 0 and ids starting
    /// at 1.
    pub fn new() -> (r: Self)
        ensures
            r.wf(),
            r.live() == Map::<TaskId, u8>::empty(),
            r.states() == Map::<TaskId, TaskState>::empty(),
            r.cancelled() == Set::<TaskId>::empty(),
            r.next_tid() == 1,
            r.ready_model() == (Multiset::<ReadyEntry>::empty(), Set::<TaskId>::empty(), 0u64),
            forall|t: TaskId| #[trigger] r.joiners(t) == Seq::<TaskId>::empty(),
            forall|i: u64| #[trigger] r.io_waiters_of(i) == Seq::<TaskId>::empty(),
            r.sleepers() == Multiset::<TimerEntry>::empty(),
            r.timeouts() == Multiset::<TimerEntry>::empty(),
            r.now() == 0,
    {
        let r = Scheduler {
            next_id: 1,
            seq: 0,
            clock: TickClock::new(0),
            sleepers: TimerHeap::new(),
            timeout_waiters: TimerHeap::new(),
            tasks: HashMap::new(),
            ready: ReadyQueue::new(),
            wait_map: WaitMap::new(),
            cancelled: HashSet::new(),
            states: HashMap::new(),
        };
        proof {
            assert(r.tasks@ =~= Map::<TaskId, u8>::empty());
            assert(r.states@ =~= Map::<TaskId, TaskState>::empty());
            assert(r.cancelled@ =~= Set::<TaskId>::empty());
        }
        r
    }

    /// The virtual time.
    pub fn clock_now(&self) -> (r: u64)
        ensures
            r == self.now(),
    {
        self.clock.now()
    }

    /// The id the next spawned task gets.
    pub fn next_task_id(&self) -> (r: TaskId)
        ensures
            r == self.next_tid(),
    {
        self.next_id
    }

    /// Advances the arrival counter; it stops at `u64::MAX`.
    fn bump_seq(&mut self)
        ensures
            final(self).seq == next_seq(old(self).seq),
            final(self).next_id == old(self).next_id,
            final(self).clock == old(self).clock,
            final(self).sleepers == old(self).sleepers,
            final(self).timeout_waiters == old(self).timeout_waiters,
            final(self).tasks == old(self).tasks,
            final(self).ready == old(self).ready,
            final(self).wait_map == old(self).wait_map,
            final(self).cancelled == old(self).cancelled,
            final(self).states == old(self).states,
    {
        if self.seq < u64::MAX {
            self.seq = self.seq + 1;
        }
    }

    /// Registers a new live task of priority `pri` and makes it ready.
    /// Returns its id. Starting the task's body is the driver's part.
    pub fn spawn_with_priority(&mut self, pri: u8) -> (r: TaskId)
        requires
            old(self).wf(),
            old(self).next_tid() < u64::MAX,
        ensures
            final(self).wf(),
            r == old(self).next_tid(),
            !old(self).live().contains_key(r),
            final(self).next_tid() == r + 1,
            final(self).live() == old(self).live().insert(r, pri),
            final(self).states() == old(self).states().insert(r, TaskState::Running),
            final(self).cancelled() == old(self).cancelled(),
            r >= 1,
            !old(self).ready_model().1.contains(r),
            final(self).ready_model() == (
                old(self).ready_model().0.insert(
                    ReadyEntry { pri, seq: old(self).ready_model().2, tid: r },
                ),
                old(self).ready_model().1.insert(r),
                next_seq(old(self).ready_model().2),
            ),
            final(self).ready_model().0.len() == old(self).ready_model().0.len() + 1,
            final(self).same_waits(old(self)),
            final(self).same_timers(old(self)),
    {
        let tid = self.next_id;
        self.next_id = self.next_id + 1;
        self.states.insert(tid, TaskState::Running);
        self.tasks.insert(tid, pri);
        let entry = ReadyEntry { pri, seq: self.seq, tid };
        proof {
            assert(!self.ready_model().1.contains(tid));
            lemma_after_push_ok(old(self).ready_model(), self.tasks@, tid, self.next_id);
        }
        self.ready.push(entry);
        self.bump_seq();
        tid
    }

    /// [`Scheduler::spawn_with_priority`] at the default priority, 10.
    pub fn spawn(&mut self) -> (r: TaskId)
        requires
            old(self).wf(),
            old(self).next_tid() < u64::MAX,
        ensures
            final(self).wf(),
            r == old(self).next_tid(),
            final(self).next_tid() == r + 1,
            final(self).live() == old(self).live().insert(r, DEFAULT_PRIORITY),
            final(self).states() == old(self).states().insert(r, TaskState::Running),
            final(self).cancelled() == old(self).cancelled(),
            r >= 1,
            !old(self).ready_model().1.contains(r),
            final(self).ready_model() == (
                old(self).ready_model().0.insert(
                    ReadyEntry { pri: DEFAULT_PRIORITY, seq: old(self).ready_model().2, tid: r },
                ),
                old(self).ready_model().1.insert(r),
                next_seq(old(self).ready_model().2),
            ),
            final(self).ready_model().0.len() == old(self).ready_model().0.len() + 1,
            final(self).same_waits(old(self)),
            final(self).same_timers(old(self)),
    {
        self.spawn_with_priority(DEFAULT_PRIORITY)
    }

    /// Number of entries in the ready queue.
    pub fn ready_len(&self) -> (r: usize)
        ensures
            r == self.ready_model().0.len(),
    {
        self.ready.len()
    }

    /// Whether the ready queue is empty.
    pub fn ready_is_empty(&self) -> (r: bool)
        ensures
            r == (self.ready_model().0.len() == 0),
    {
        self.ready.is_empty()
    }

    /// Whether any task is live.
    pub fn has_live_tasks(&self) -> (r: bool)
        ensures
            r == (self.live().dom().len() > 0),
    {
        proof {
            vstd::std_specs::hash::axiom_hashmap_view_finite_dom(self.tasks);
        }
        self.tasks.len() > 0
    }

    /// Whether `tid` is live.
    pub fn is_live(&self, tid: TaskId) -> (r: bool)
        ensures
            r == self.live().contains_key(tid),
    {
        self.tasks.contains_key(&tid)
    }

    /// The recorded state of a task, if known.
    pub fn task_state(&self, tid: TaskId) -> (r: Option<TaskState>)
        ensures
            r == (if self.states().contains_key(tid) {
                Some(self.states()[tid])
            } else {
                None
            }),
    {
        match self.states.get(&tid) {
            Some(s) => Some(*s),
            None => None,
        }
    }

    /// Queue `tid` without duplicate suppression, at its priority if live
    /// and the default priority otherwise. For exercising stale ids.
    pub fn ready_push_duplicate_for_test(&mut self, tid: TaskId)
        ensures
            final(self).ready_model() == (
                old(self).ready_model().0.insert(
                    ReadyEntry {
                        pri: if old(self).live().contains_key(tid) {
                            old(self).live()[tid]
                        } else {
                            DEFAULT_PRIORITY
                        },
                        seq: old(self).ready_model().2,
                        tid,
                    },
                ),
                old(self).ready_model().1,
                next_seq(old(self).ready_model().2),
            ),
            final(self).same_tasks(old(self)),
            final(self).same_waits(old(self)),
            final(self).same_timers(old(self)),
            old(self).wf() ==> final(self).wf(),
    {
        let pri = match self.tasks.get(&tid) {
            Some(p) => *p,
            None => DEFAULT_PRIORITY,
        };
        let entry = ReadyEntry { pri, seq: self.seq, tid };
        proof {
            if old(self).wf() {
                lemma_force_push_ok(old(self).ready_model(), entry, self.next_id);
            }
        }
        self.ready.force_push(entry);
        self.bump_seq();
    }

    /// Make `tid` ready if it is live.
    fn push_ready(&mut self, tid: TaskId)
        ensures
            old(self).wf() ==> final(self).wf(),
            final(self).ready_model() == after_push(old(self).ready_model(), old(self).live(), tid),
            final(self).next_id == old(self).next_id,
            final(self).clock == old(self).clock,
            final(self).sleepers == old(self).sleepers,
            final(self).timeout_waiters == old(self).timeout_waiters,
            final(self).tasks == old(self).tasks,
            final(self).wait_map == old(self).wait_map,
            final(self).cancelled == old(self).cancelled,
            final(self).states == old(self).states,
    {
        match self.tasks.get(&tid) {
            Some(p) => {
                let entry = ReadyEntry { pri: *p, seq: self.seq, tid };
                self.ready.push(entry);
                self.bump_seq();
            },
            None => {},
        }
        proof {
            if old(self).wf() {
                lemma_after_push_ok(old(self).ready_model(), old(self).live(), tid, old(self).next_id);
            }
        }
    }

    /// Make each of `ws` ready, in order.
    fn wake_all(&mut self, ws: Vec<TaskId>)
        ensures
            old(self).wf() ==> final(self).wf(),
            final(self).ready_model() == after_wake_all(old(self).ready_model(), old(self).live(), ws@),
            final(self).next_id == old(self).next_id,
            final(self).clock == old(self).clock,
            final(self).sleepers == old(self).sleepers,
            final(self).timeout_waiters == old(self).timeout_waiters,
            final(self).tasks == old(self).tasks,
            final(self).wait_map == old(self).wait_map,
            final(self).cancelled == old(self).cancelled,
            final(self).states == old(self).states,
    {
        let n = ws.len();
        let mut i: usize = 0;
        while i < n
            invariant
                n == ws@.len(),
                i <= n,
                self.ready_model() == after_wake_all(old(self).ready_model(), old(self).live(), ws@.take(i as int)),
                old(self).wf() ==> self.wf(),
                self.next_id == old(self).next_id,
                self.clock == old(self).clock,
                self.sleepers == old(self).sleepers,
                self.timeout_waiters == old(self).timeout_waiters,
                self.tasks == old(self).tasks,
                self.wait_map == old(self).wait_map,
                self.cancelled == old(self).cancelled,
                self.states == old(self).states,
            decreases n - i,
        {
            proof {
                assert(ws@.take(i as int + 1).drop_last() =~= ws@.take(i as int));
                assert(ws@.take(i as int + 1).last() == ws@[i as int]);
            }
            self.push_ready(ws[i]);
            i = i + 1;
        }
        proof {
            assert(ws@.take(n as int) =~= ws@);
        }
    }

    /// The work on coroutines that applying `call` from `tid` needs first:
    /// a finishing live task is joined, a live cancel target is cancelled.
    pub fn reclaim_for(&self, tid: TaskId, call: &SystemCall) -> (r: Reclaim)
        ensures
            r == self.reclaim_spec(tid, *call),
    {
        match call {
            SystemCall::Done => if self.tasks.contains_key(&tid) {
                Reclaim::Join(tid)
            } else {
                Reclaim::Nothing
            },
            SystemCall::Cancel(target) => if self.tasks.contains_key(target) {
                Reclaim::Cancel(*target)
            } else {
                Reclaim::Nothing
            },
            _ => Reclaim::Nothing,
        }
    }

    /// Ends the live task `t` in state `st`, waking its join waiters.
    fn reap(&mut self, t: TaskId, st: TaskState)
        requires
            old(self).wf(),
            old(self).live().contains_key(t),
            st != TaskState::Running,
        ensures
            final(self).wf(),
            Self::reaped(old(self), final(self), t, st),
            final(self).cancelled() == old(self).cancelled(),
    {
        self.tasks.remove(&t);
        self.states.insert(t, st);
        let (waiters, _) = self.wait_map.complete(t, st);
        self.wake_all(waiters);
    }

    /// Apply the system call `call` sent by task `tid`, appending reaped
    /// ids to `done`. `clean` tells whether the coroutine that
    /// [`Scheduler::reclaim_for`] asked to join ended without a panic; it
    /// matters only for `Done` from a live task.
    pub fn handle_syscall(&mut self, tid: TaskId, call: SystemCall, clean: bool, done: &mut Vec<TaskId>)
        requires
            old(self).wf(),
        ensures
            final(self).wf(),
            Self::syscall_step(old(self), final(self), tid, call, clean, old(done)@, final(done)@),
            forall|t: TaskId|
                old(self).states().contains_key(t) && old(self).states()[t] == TaskState::Failed
                    ==> #[trigger] final(self).states().contains_key(t) && final(self).states()[t]
                    == TaskState::Failed,
    {
        let ghost pre = *self;
        match call {
            SystemCall::Log(_) => {
                self.push_ready(tid);
            },
            SystemCall::Yield => {
                self.push_ready(tid);
            },
            SystemCall::Sleep(dur) => {
                let wake_at = self.clock.now().saturating_add(dur);
                self.sleepers.push(TimerEntry { wake_at, tid, target: NO_TARGET });
            },
            SystemCall::Done => {
                if self.tasks.contains_key(&tid) {
                    let st = if clean {
                        TaskState::Finished
                    } else {
                        emit(TaskEvent::Failed(tid));
                        TaskState::Failed
                    };
                    self.reap(tid, st);
                } else {
                    let st = match self.states.get(&tid) {
                        Some(TaskState::Failed) => TaskState::Failed,
                        _ => TaskState::Finished,
                    };
                    self.states.insert(tid, st);
                    let (waiters, _) = self.wait_map.complete(tid, st);
                    self.wake_all(waiters);
                    proof {
                        assert(self.tasks@ =~= old(self).tasks@.remove(tid));
                    }
                }
                done.push(tid);
            },
            SystemCall::Join(target) => {
                if self.tasks.contains_key(&target) {
                    self.wait_map.wait_for(target, tid);
                } else {
                    self.push_ready(tid);
                }
            },
            SystemCall::JoinTimeout { target, dur } => {
                if self.tasks.contains_key(&target) {
                    self.wait_map.wait_for(target, tid);
                    let wake_at = self.clock.now().saturating_add(dur);
                    self.timeout_waiters.push(TimerEntry { wake_at, tid, target });
                } else {
                    self.push_ready(tid);
                }
            },
            SystemCall::Cancel(target) => {
                if self.tasks.contains_key(&target) {
                    self.reap(target, TaskState::Finished);
                    let ghost r1 = *self;
                    self.cancelled.insert(target);
                    done.push(target);
                    self.push_ready(tid);
                    proof {
                        assert forall|u: TaskId| u != target implies #[trigger] self.joiners(u)
                            == pre.joiners(u) by {
                            assert(r1.joiners(u) == pre.joiners(u));
                        }
                        assert forall|i: u64| #[trigger] self.io_waiters_of(i)
                            == pre.io_waiters_of(i) by {
                            assert(r1.io_waiters_of(i) == pre.io_waiters_of(i));
                        }
                    }
                } else {
                    self.push_ready(tid);
                }
            },
            SystemCall::IoWait(io_id) => {
                self.wait_map.wait_io(io_id, tid);
            },
        }
    }

    /// When the system call awaited for `picked` came from another task
    /// `call_tid`, `picked` is made ready again so that it keeps its turn.
    pub fn note_reply(&mut self, picked: TaskId, call_tid: TaskId)
        ensures
            call_tid != picked ==> Self::requeued(old(self), final(self), picked),
            call_tid == picked ==> *final(self) == *old(self),
            old(self).wf() ==> final(self).wf(),
    {
        if call_tid != picked {
            self.push_ready(picked);
        }
    }

    /// I/O readiness of `io_id`: its waiters become ready, in the order
    /// they asked.
    pub fn io_ready(&mut self, io_id: u64)
        requires
            old(self).wf(),
        ensures
            final(self).wf(),
            final(self).ready_model() == after_wake_all(
                old(self).ready_model(),
                old(self).live(),
                old(self).io_waiters_of(io_id),
            ),
            final(self).io_waiters_of(io_id) == Seq::<TaskId>::empty(),
            forall|i: u64| i != io_id ==> #[trigger] final(self).io_waiters_of(i) == old(
                self,
            ).io_waiters_of(i),
            forall|t: TaskId| #[trigger] final(self).joiners(t) == old(self).joiners(t),
            final(self).same_tasks(old(self)),
            final(self).same_timers(old(self)),
    {
        let waiters = self.wait_map.complete_io(io_id);
        self.wake_all(waiters);
    }

    /// `w` is the earliest wake-up instant among the pending timers.
    pub open spec fn is_next_wake(&self, w: u64) -> bool {
        &&& (exists|e: TimerEntry| #[trigger] self.sleepers().contains(e) && e.wake_at == w) || (
        exists|e: TimerEntry| #[trigger] self.timeouts().contains(e) && e.wake_at == w)
        &&& forall|e: TimerEntry| #[trigger] self.sleepers().contains(e) ==> w <= e.wake_at
        &&& forall|e: TimerEntry| #[trigger] self.timeouts().contains(e) ==> w <= e.wake_at
    }

    /// The earliest wake-up instant among the pending timers, if any.
    pub fn next_wake_instant(&self) -> (r: Option<u64>)
        ensures
            r is None <==> self.sleepers().len() == 0 && self.timeouts().len() == 0,
            r matches Some(w) ==> self.is_next_wake(w),
    {
        let sleep = self.sleepers.peek();
        let timeout = self.timeout_waiters.peek();
        match (sleep, timeout) {
            (Some(a), Some(b)) => {
                proof {
                    assert(self.sleepers().contains(a));
                    assert(self.timeouts().contains(b));
                }
                if a.wake_at <= b.wake_at {
                    Some(a.wake_at)
                } else {
                    Some(b.wake_at)
                }
            },
            (Some(a), None) => {
                proof {
                    assert(self.sleepers().contains(a));
                    assert(self.timeouts() =~= Multiset::empty());
                }
                Some(a.wake_at)
            },
            (None, Some(b)) => {
                proof {
                    assert(self.timeouts().contains(b));
                    assert(self.sleepers() =~= Multiset::empty());
                }
                Some(b.wake_at)
            },
            (None, None) => None,
        }
    }

    /// Picks what the dispatch loop does next. Pops the ready queue; a
    /// popped id that is no longer live is dropped. With nothing ready, the
    /// virtual clock jumps to the earliest pending timer, if there is one.
    pub fn pick_next(&mut self) -> (r: Pick)
        requires
            old(self).wf(),
        ensures
            final(self).wf(),
            final(self).same_tasks(old(self)),
            final(self).same_waits(old(self)),
            final(self).sleepers() == old(self).sleepers(),
            final(self).timeouts() == old(self).timeouts(),
            old(self).ready_model().0.len() > 0 ==> {
                &&& final(self).now() == old(self).now()
                &&& exists|e: ReadyEntry|
                    {
                        &&& #[trigger] is_next(old(self).ready_model().0, e)
                        &&& final(self).ready_model() == (
                            old(self).ready_model().0.remove(e),
                            old(self).ready_model().1.remove(e.tid),
                            old(self).ready_model().2,
                        )
                        &&& r == if old(self).live().contains_key(e.tid) {
                            Pick::Run(e.tid)
                        } else {
                            Pick::Again
                        }
                    }
            },
            forall|e: TimerEntry|
                (old(self).sleepers().contains(e) || old(self).timeouts().contains(e)) && old(
                    self,
                ).now() <= e.wake_at ==> final(self).now() <= #[trigger] e.wake_at,
            old(self).ready_model().0.len() == 0 ==> {
                &&& final(self).ready_model() == old(self).ready_model()
                &&& (old(self).sleepers().len() == 0 && old(self).timeouts().len() == 0) ==> r
                    == Pick::Idle && final(self).now() == old(self).now()
                &&& (old(self).sleepers().len() > 0 || old(self).timeouts().len() > 0) ==> {
                    &&& r == Pick::Again
                    &&& exists|w: u64|
                        #[trigger] old(self).is_next_wake(w) && final(self).now() == if w
                            > old(self).now() {
                            w as nat
                        } else {
                            old(self).now()
                        }
                }
            },
    {
        let ghost m0 = self.ready_model();
        match self.ready.pop() {
            Some(tid) => {
                proof {
                    let e = choose|e: ReadyEntry|
                        #[trigger] is_next(m0.0, e) && e.tid == tid && self.ready.entries()
                            == m0.0.remove(e) && self.ready.members() == m0.1.remove(tid);
                    lemma_pop_ok(m0, e, self.next_id);
                }
                if self.tasks.contains_key(&tid) {
                    Pick::Run(tid)
                } else {
                    Pick::Again
                }
            },
            None => {
                match self.next_wake_instant() {
                    Some(wake_at) => {
                        let now = self.clock.now();
                        if wake_at > now {
                            self.clock.tick(wake_at - now);
                        }
                        Pick::Again
                    },
                    None => Pick::Idle,
                }
            },
        }
    }

    /// Wakes every sleeper whose instant has come, earliest first.
    pub fn wake_due_sleepers(&mut self)
        requires
            old(self).wf(),
        ensures
            final(self).wf(),
            forall|e: TimerEntry| #[trigger]
                final(self).sleepers().count(e) == if e.wake_at <= old(self).now() {
                    0
                } else {
                    old(self).sleepers().count(e)
                },
            exists|due: Seq<TimerEntry>|
                {
                    &&& forall|e: TimerEntry| #[trigger]
                        due.to_multiset().count(e) == if e.wake_at <= old(self).now() {
                            old(self).sleepers().count(e)
                        } else {
                            0
                        }
                    &&& forall|i: int, j: int|
                        0 <= i < j < due.len() ==> !(#[trigger] due[j]).earlier(#[trigger] due[i])
                    &&& final(self).ready_model() == after_wake_all(
                        old(self).ready_model(),
                        old(self).live(),
                        #[trigger] tids_of(due),
                    )
                },
            final(self).same_tasks(old(self)),
            final(self).same_waits(old(self)),
            final(self).timeouts() == old(self).timeouts(),
            final(self).now() == old(self).now(),
    {
        let ghost due: Seq<TimerEntry> = Seq::empty();
        let now = self.clock.now();
        proof {
            assert(due.to_multiset().add(self.sleepers()) =~= self.sleepers());
        }
        loop
            invariant
                self.wf(),
                now == old(self).now(),
                self.clock == old(self).clock,
                self.tasks == old(self).tasks,
                self.states == old(self).states,
                self.cancelled == old(self).cancelled,
                self.next_id == old(self).next_id,
                self.wait_map == old(self).wait_map,
                self.timeout_waiters == old(self).timeout_waiters,
                due.to_multiset().add(self.sleepers()) == old(self).sleepers(),
                forall|i: int| 0 <= i < due.len() ==> (#[trigger] due[i]).wake_at <= now,
                forall|i: int, j: int|
                    0 <= i < j < due.len() ==> !(#[trigger] due[j]).earlier(#[trigger] due[i]),
                forall|x: TimerEntry, i: int|
                    #[trigger] self.sleepers().contains(x) && 0 <= i < due.len() ==> !x.earlier(
                        #[trigger] due[i],
                    ),
                self.ready_model() == after_wake_all(
                    old(self).ready_model(),
                    old(self).live(),
                    tids_of(due),
                ),
            ensures
                forall|x: TimerEntry| #[trigger] self.sleepers().contains(x) ==> x.wake_at > now,
            decreases self.sleepers().len(),
        {
            match self.sleepers.peek() {
                Some(e) => {
                    if e.wake_at <= now {
                        let ghost before = self.sleepers();
                        let popped = self.sleepers.pop();
                        proof {
                            crate::timer::lemma_earliest_unique(before, e, popped.unwrap());
                        }
                        self.push_ready(e.tid);
                        proof {
                            let due0 = due;
                            due = due.push(e);
                            assert(tids_of(due).drop_last() =~= tids_of(due0));
                            assert(due0.to_multiset().insert(e).add(before.remove(e)) =~= due0.to_multiset().add(before));
                            assert forall|x: TimerEntry, i: int|
                                #[trigger] self.sleepers().contains(x) && 0 <= i < due.len()
                                    implies !x.earlier(#[trigger] due[i]) by {
                                assert(before.contains(x));
                                if i < due0.len() {
                                    assert(due[i] == due0[i]);
                                }
                            }
                            assert forall|i: int, j: int|
                                0 <= i < j < due.len() implies !(#[trigger] due[j]).earlier(
                                    #[trigger] due[i],
                                ) by {
                                assert(due[i] == due0[i]);
                                if j < due0.len() {
                                    assert(due[j] == due0[j]);
                                }
                            }
                        }
                    } else {
                        break;
                    }
                },
                None => {
                    proof {
                        assert(self.sleepers() =~= Multiset::empty());
                    }
                    break;
                },
            }
        }
        proof {
            assert forall|x: TimerEntry| #[trigger]
                self.sleepers().count(x) == if x.wake_at <= now {
                    0
                } else {
                    old(self).sleepers().count(x)
                } by {
                if self.sleepers().count(x) > 0 {
                    assert(self.sleepers().contains(x));
                }
                if x.wake_at > now && due.to_multiset().count(x) > 0 {
                    assert(due.contains(x));
                }
            }
            assert forall|x: TimerEntry| #[trigger]
                due.to_multiset().count(x) == if x.wake_at <= now {
                    old(self).sleepers().count(x)
                } else {
                    0
                } by {
                if self.sleepers().count(x) > 0 {
                    assert(self.sleepers().contains(x));
                }
                if x.wake_at > now && due.to_multiset().count(x) > 0 {
                    assert(due.contains(x));
                }
            }
        }
    }

    /// Expires every timed join whose instant has come, earliest first: a
    /// waiter still registered on its target is taken off and made ready; a
    /// waiter that its target's end already woke is left alone.
    pub fn expire_due_timeouts(&mut self)
        requires
            old(self).wf(),
        ensures
            final(self).wf(),
            forall|e: TimerEntry| #[trigger]
                final(self).timeouts().count(e) == if e.wake_at <= old(self).now() {
                    0
                } else {
                    old(self).timeouts().count(e)
                },
            forall|e: TimerEntry| #[trigger]
                old(self).timeouts().contains(e) && e.wake_at <= old(self).now() && old(
                    self,
                ).live().contains_key(e.tid) && old(self).joiners(e.target).contains(e.tid)
                    ==> final(self).ready_model().1.contains(e.tid),
            exists|ws: Seq<TaskId>|
                {
                    &&& final(self).ready_model() == after_wake_all(
                        old(self).ready_model(),
                        old(self).live(),
                        ws,
                    )
                    &&& forall|i: int|
                        0 <= i < ws.len() ==> due_tid(
                            old(self).timeouts(),
                            old(self).now(),
                            #[trigger] ws[i],
                        )
                },
            forall|t: TaskId, w: TaskId| #[trigger]
                final(self).joiners(t).contains(w) ==> old(self).joiners(t).contains(w),
            forall|t: TaskId, w: TaskId|
                #[trigger] final(self).joiners(t).to_multiset().count(w) <= old(self).joiners(
                    t,
                ).to_multiset().count(w),
            forall|e: TimerEntry| #[trigger]
                old(self).timeouts().contains(e) && e.wake_at <= old(self).now() && old(
                    self,
                ).joiners(e.target).to_multiset().count(e.tid) <= 1 ==> !final(self).joiners(
                    e.target,
                ).contains(e.tid),
            forall|t: TaskId, w: TaskId|
                old(self).joiners(t).contains(w) && !#[trigger] final(self).joiners(t).contains(w)
                    ==> due_join(old(self).timeouts(), old(self).now(), w, t),
            forall|i: u64| #[trigger] final(self).io_waiters_of(i) == old(self).io_waiters_of(i),
            final(self).same_tasks(old(self)),
            final(self).sleepers() == old(self).sleepers(),
            final(self).now() == old(self).now(),
    {
        let ghost ws: Seq<TaskId> = Seq::empty();
        let now = self.clock.now();
        loop
            invariant
                self.wf(),
                now == old(self).now(),
                self.clock == old(self).clock,
                self.tasks == old(self).tasks,
                self.states == old(self).states,
                self.cancelled == old(self).cancelled,
                self.next_id == old(self).next_id,
                self.sleepers == old(self).sleepers,
                forall|i: u64| #[trigger] self.io_waiters_of(i) == old(self).io_waiters_of(i),
                forall|t: TaskId, w: TaskId| #[trigger]
                    self.joiners(t).contains(w) ==> old(self).joiners(t).contains(w),
                forall|t: TaskId, w: TaskId|
                    old(self).joiners(t).contains(w) && !#[trigger] self.joiners(t).contains(w)
                        && old(self).live().contains_key(w) ==> self.ready_model().1.contains(w),
                forall|t: TaskId, w: TaskId|
                    old(self).joiners(t).contains(w) && !#[trigger] self.joiners(t).contains(w)
                        ==> due_join(old(self).timeouts(), now as nat, w, t),
                forall|t: TaskId, w: TaskId|
                    #[trigger] self.joiners(t).to_multiset().count(w) <= old(self).joiners(
                        t,
                    ).to_multiset().count(w),
                forall|e: TimerEntry| #[trigger]
                    self.timeouts().count(e) < old(self).timeouts().count(e) && old(self).joiners(
                        e.target,
                    ).to_multiset().count(e.tid) <= 1 ==> !self.joiners(e.target).contains(e.tid),
                forall|e: TimerEntry| #[trigger]
                    self.timeouts().count(e) <= old(self).timeouts().count(e),
                forall|e: TimerEntry|
                    e.wake_at > now ==> #[trigger] self.timeouts().count(e) == old(
                        self,
                    ).timeouts().count(e),
                forall|e: TimerEntry| #[trigger]
                    old(self).timeouts().contains(e) && e.wake_at <= now && self.timeouts().count(e)
                        < old(self).timeouts().count(e) && old(self).live().contains_key(e.tid)
                        && old(self).joiners(e.target).contains(e.tid)
                        ==> self.ready_model().1.contains(e.tid),
                old(self).ready_model().1.subset_of(self.ready_model().1),
                self.ready_model() == after_wake_all(old(self).ready_model(), old(self).live(), ws),
                forall|i: int|
                    0 <= i < ws.len() ==> due_tid(old(self).timeouts(), now as nat, #[trigger] ws[i]),
            ensures
                forall|x: TimerEntry| #[trigger] self.timeouts().contains(x) ==> x.wake_at > now,
            decreases self.timeouts().len(),
        {
            match self.timeout_waiters.peek() {
                Some(e) => {
                    if e.wake_at <= now {
                        let ghost before = *self;
                        let popped = self.timeout_waiters.pop();
                        proof {
                            crate::timer::lemma_earliest_unique(before.timeouts(), e, popped.unwrap());
                        }
                        let ghost mid = *self;
                        let ghost ws0 = ws;
                        let was_waiting = self.wait_map.remove_waiter(e.target, e.tid);
                        if was_waiting {
                            self.push_ready(e.tid);
                            proof {
                                ws = ws.push(e.tid);
                                assert(ws.drop_last() =~= ws0);
                                lemma_without_first_keeps(mid.joiners(e.target), e.tid, self.joiners(e.target));
                                lemma_without_first_count(mid.joiners(e.target), e.tid, self.joiners(e.target));
                            }
                        }
                        proof {
                            assert forall|t: TaskId, w: TaskId|
                                #[trigger] self.joiners(t).to_multiset().count(w) <= mid.joiners(
                                    t,
                                ).to_multiset().count(w) by {
                                if t != e.target || !was_waiting {
                                    assert(self.joiners(t) == mid.joiners(t));
                                }
                            }
                            assert forall|t: TaskId, w: TaskId|
                                #[trigger] self.joiners(t).to_multiset().count(w) <= old(self).joiners(
                                    t,
                                ).to_multiset().count(w) by {
                                assert(self.joiners(t).to_multiset().count(w) <= mid.joiners(
                                    t,
                                ).to_multiset().count(w));
                                assert(mid.joiners(t) == before.joiners(t));
                                assert(before.joiners(t).to_multiset().count(w) <= old(self).joiners(
                                    t,
                                ).to_multiset().count(w));
                            }
                            assert forall|x: TimerEntry| #[trigger]
                                self.timeouts().count(x) < old(self).timeouts().count(x) && old(
                                    self,
                                ).joiners(x.target).to_multiset().count(x.tid) <= 1 implies !self.joiners(
                                x.target,
                            ).contains(x.tid) by {
                                assert(self.joiners(x.target).to_multiset().count(x.tid)
                                    <= mid.joiners(x.target).to_multiset().count(x.tid));
                                assert(mid.joiners(x.target) == before.joiners(x.target));
                                assert(before.joiners(x.target).to_multiset().count(x.tid)
                                    <= old(self).joiners(x.target).to_multiset().count(x.tid));
                                if x == e {
                                    if was_waiting {
                                        assert(self.joiners(x.target).to_multiset().count(x.tid) == 0);
                                    } else {
                                        assert(!mid.joiners(x.target).contains(x.tid));
                                        assert(mid.joiners(x.target).to_multiset().count(x.tid) == 0);
                                    }
                                } else {
                                    assert(self.timeouts().count(x) == before.timeouts().count(x));
                                    assert(!before.joiners(x.target).contains(x.tid));
                                    assert(before.joiners(x.target).to_multiset().count(x.tid) == 0);
                                }
                                assert(self.joiners(x.target).to_multiset().count(x.tid) == 0);
                            }
                            assert(before.timeouts().contains(e));
                            assert(old(self).timeouts().contains(e));
                            assert forall|i: u64| #[trigger] self.io_waiters_of(i) == old(self).io_waiters_of(i) by {
                                assert(mid.io_waiters_of(i) == before.io_waiters_of(i));
                                assert(self.wait_map.io_waiters_of(i) == mid.wait_map.io_waiters_of(i));
                            }
                            assert(due_tid(old(self).timeouts(), now as nat, e.tid));
                            assert forall|i: int| 0 <= i < ws.len() implies due_tid(
                                old(self).timeouts(),
                                now as nat,
                                #[trigger] ws[i],
                            ) by {
                                if i < ws0.len() {
                                    assert(ws[i] == ws0[i]);
                                }
                            }
                            assert forall|t: TaskId, w: TaskId| #[trigger]
                                self.joiners(t).contains(w) implies old(self).joiners(t).contains(w) by {
                                if t != e.target {
                                    assert(self.joiners(t) == mid.joiners(t));
                                }
                                assert(mid.joiners(t).contains(w));
                                assert(before.joiners(t).contains(w));
                            }
                            assert forall|t: TaskId, w: TaskId|
                                old(self).joiners(t).contains(w) && !#[trigger] self.joiners(t).contains(w)
                                    && old(self).live().contains_key(w) implies self.ready_model().1.contains(w) by {
                                if mid.joiners(t).contains(w) {
                                    if t != e.target {
                                        assert(self.joiners(t) == mid.joiners(t));
                                    }
                                    assert(t == e.target && w == e.tid);
                                } else {
                                    assert(!before.joiners(t).contains(w));
                                    assert(before.ready_model().1.contains(w));
                                    assert(mid.ready_model().1.contains(w));
                                }
                            }
                            assert forall|t: TaskId, w: TaskId|
                                old(self).joiners(t).contains(w) && !#[trigger] self.joiners(t).contains(w)
                                    implies due_join(old(self).timeouts(), now as nat, w, t) by {
                                if mid.joiners(t).contains(w) {
                                    if t != e.target {
                                        assert(self.joiners(t) == mid.joiners(t));
                                    }
                                    assert(t == e.target && w == e.tid);
                                } else {
                                    assert(!before.joiners(t).contains(w));
                                }
                            }
                            assert forall|x: TimerEntry| #[trigger]
                                old(self).timeouts().contains(x) && x.wake_at <= now && self.timeouts().count(x)
                                    < old(self).timeouts().count(x) && old(self).live().contains_key(x.tid)
                                    && old(self).joiners(x.target).contains(x.tid)
                                    implies self.ready_model().1.contains(x.tid) by {
                                if x != e {
                                    assert(self.timeouts().count(x) == before.timeouts().count(x));
                                    assert(before.ready_model().1.contains(x.tid));
                                    assert(mid.ready_model().1.contains(x.tid));
                                } else if mid.joiners(x.target).contains(x.tid) {
                                } else {
                                    assert(!before.joiners(x.target).contains(x.tid));
                                    assert(before.ready_model().1.contains(x.tid));
                                    assert(mid.ready_model().1.contains(x.tid));
                                }
                            }
                        }
                    } else {
                        break;
                    }
                },
                None => {
                    proof {
                        assert(self.timeouts() =~= Multiset::empty());
                    }
                    break;
                },
            }
        }
        proof {
            assert forall|x: TimerEntry| #[trigger]
                self.timeouts().count(x) == if x.wake_at <= now {
                    0
                } else {
                    old(self).timeouts().count(x)
                } by {
                if x.wake_at <= now && self.timeouts().count(x) > 0 {
                    assert(self.timeouts().contains(x));
                }
            }
            assert forall|x: TimerEntry| #[trigger]
                old(self).timeouts().contains(x) && x.wake_at <= now && old(self).live().contains_key(x.tid)
                    && old(self).joiners(x.target).contains(x.tid)
                    implies self.ready_model().1.contains(x.tid) by {
                if self.timeouts().count(x) > 0 {
                    assert(self.timeouts().contains(x));
                }
            }
        }
    }

    /// How long a readiness poll may block, in nanoseconds: not at all while
    /// an entry is ready, until the earliest timer while one is pending, and
    /// the idle timeout otherwise.
    pub fn poll_timeout(&self) -> (r: u64)
        ensures
            self.ready_model().0.len() > 0 ==> r == 0,
            self.ready_model().0.len() == 0 && self.sleepers().len() == 0 && self.timeouts().len()
                == 0 ==> r == IDLE_TIMEOUT_NANOS,
            self.ready_model().0.len() == 0 && (self.sleepers().len() > 0 || self.timeouts().len()
                > 0) ==> exists|w: u64|
                #[trigger] self.is_next_wake(w) && r == if w > self.now() {
                    w - self.now()
                } else {
                    0
                },
    {
        if !self.ready.is_empty() {
            0
        } else {
            match self.next_wake_instant() {
                Some(wake_at) => {
                    let now = self.clock.now();
                    if wake_at > now {
                        wake_at - now
                    } else {
                        0
                    }
                },
                None => IDLE_TIMEOUT_NANOS,
            }
        }
    }

    /// Accounts for a readiness poll that blocked for up to `waited`
    /// nanoseconds and brought I/O events or not. Returns whether the loop
    /// goes on: it stops when an idle-long poll brought nothing while
    /// nothing is ready and no timer is pending. When a poll brought nothing
    /// and nothing is ready, the virtual clock advances by `waited`
    /// (stopping at `u64::MAX`).
    pub fn after_poll(&mut self, had_events: bool, waited: u64) -> (r: bool)
        requires
            old(self).wf(),
        ensures
            final(self).wf(),
            r == !(!had_events && old(self).ready_model().0.len() == 0 && old(self).sleepers().len()
                == 0 && old(self).timeouts().len() == 0 && waited == IDLE_TIMEOUT_NANOS),
            final(self).now() == if r && !had_events && old(self).ready_model().0.len() == 0 {
                if old(self).now() + waited <= u64::MAX {
                    (old(self).now() + waited) as nat
                } else {
                    u64::MAX as nat
                }
            } else {
                old(self).now()
            },
            final(self).ready_model() == old(self).ready_model(),
            final(self).same_tasks(old(self)),
            final(self).same_waits(old(self)),
            final(self).sleepers() == old(self).sleepers(),
            final(self).timeouts() == old(self).timeouts(),
    {
        let idle = !had_events && self.ready.is_empty();
        if idle && self.sleepers.is_empty() && self.timeout_waiters.is_empty() && waited
            == IDLE_TIMEOUT_NANOS {
            return false;
        }
        if idle {
            let now = self.clock.now();
            let room = u64::MAX - now;
            let step = if waited <= room {
                waited
            } else {
                room
            };
            self.clock.tick(step);
        }
        true
    }

    /// Pops the ready queue without touching the clock: the popped id's
    /// turn if it is live, and otherwise (stale id, or nothing ready) the
    /// next turn at once.
    pub fn pick_ready(&mut self) -> (r: Pick)
        requires
            old(self).wf(),
        ensures
            final(self).wf(),
            final(self).same_tasks(old(self)),
            final(self).same_waits(old(self)),
            final(self).same_timers(old(self)),
            old(self).ready_model().0.len() == 0 ==> r == Pick::Again && final(self).ready_model()
                == old(self).ready_model(),
            old(self).ready_model().0.len() > 0 ==> exists|e: ReadyEntry|
                {
                    &&& #[trigger] is_next(old(self).ready_model().0, e)
                    &&& final(self).ready_model() == (
                        old(self).ready_model().0.remove(e),
                        old(self).ready_model().1.remove(e.tid),
                        old(self).ready_model().2,
                    )
                    &&& r == if old(self).live().contains_key(e.tid) {
                        Pick::Run(e.tid)
                    } else {
                        Pick::Again
                    }
                },
    {
        let ghost m0 = self.ready_model();
        match self.ready.pop() {
            Some(tid) => {
                proof {
                    let e = choose|e: ReadyEntry|
                        #[trigger] is_next(m0.0, e) && e.tid == tid && self.ready.entries()
                            == m0.0.remove(e) && self.ready.members() == m0.1.remove(tid);
                    lemma_pop_ok(m0, e, self.next_id);
                }
                if self.tasks.contains_key(&tid) {
                    Pick::Run(tid)
                } else {
                    Pick::Again
                }
            },
            None => Pick::Again,
        }
    }
}

/// What well-formedness says to callers: ids start at 1, live ids were
/// handed out, and the ready queue agrees with the id and arrival counters.
pub proof fn lemma_wf_facts(s: &Scheduler)
    requires
        s.wf(),
    ensures
        s.next_tid() >= 1,
        forall|t: TaskId| #[trigger] s.live().contains_key(t) ==> 1 <= t < s.next_tid(),
        ready_ok(s.ready_model(), s.next_tid()),
{
}

/// `Log` and `Yield` put a live task that is not queued at the tail of the
/// ready queue: its new entry arrives after every queued one.
pub proof fn lemma_requeue_at_tail(
    pre: &Scheduler,
    post: &Scheduler,
    tid: TaskId,
    call: SystemCall,
    d0: Seq<TaskId>,
    d1: Seq<TaskId>,
)
    requires
        pre.wf(),
        call == SystemCall::Yield || call is Log,
        pre.live().contains_key(tid),
        !pre.ready_model().1.contains(tid),
        pre.ready_model().2 < u64::MAX,
        Scheduler::syscall_step(pre, post, tid, call, true, d0, d1),
    ensures
        post.ready_model().0 == pre.ready_model().0.insert(
            ReadyEntry { pri: pre.live()[tid], seq: pre.ready_model().2, tid },
        ),
        post.ready_model().2 == pre.ready_model().2 + 1,
        forall|x: ReadyEntry| #[trigger]
            pre.ready_model().0.contains(x) ==> x.seq < pre.ready_model().2,
        d1 == d0,
{
}

/// A task that joined a live target is made ready when the target ends,
/// by its own `Done` or by a `Cancel` from another task, and waits on it no
/// more: it is woken once.
pub proof fn lemma_join_delivery(
    pre: &Scheduler,
    post: &Scheduler,
    sender: TaskId,
    call: SystemCall,
    clean: bool,
    d0: Seq<TaskId>,
    d1: Seq<TaskId>,
    child: TaskId,
    parent: TaskId,
)
    requires
        pre.live().contains_key(child),
        pre.live().contains_key(parent),
        parent != child,
        pre.joiners(child).contains(parent),
        (sender == child && call == SystemCall::Done) || call == SystemCall::Cancel(child),
        Scheduler::syscall_step(pre, post, sender, call, clean, d0, d1),
    ensures
        post.ready_model().1.contains(parent),
        !post.joiners(child).contains(parent),
        !post.live().contains_key(child),
        d1.last() == child,
{
    let live = pre.live().remove(child);
    lemma_wake_all_members(pre.ready_model(), live, pre.joiners(child));
    if call != SystemCall::Done {
        let mid = after_wake_all(pre.ready_model(), live, pre.joiners(child));
        assert(mid.1.contains(parent));
    }
}

/// When a task ends by `Done`, its join waiters that are distinct, live and
/// not queued are each queued exactly once, in the order they joined, and
/// none of them waits on it any more.
pub proof fn lemma_join_delivery_in_order(
    pre: &Scheduler,
    post: &Scheduler,
    child: TaskId,
    clean: bool,
    d0: Seq<TaskId>,
    d1: Seq<TaskId>,
)
    requires
        pre.live().contains_key(child),
        pre.joiners(child).no_duplicates(),
        forall|w: TaskId| #[trigger]
            pre.joiners(child).contains(w) ==> w != child && pre.live().contains_key(w)
                && !pre.ready_model().1.contains(w),
        pre.ready_model().2 + pre.joiners(child).len() <= u64::MAX,
        Scheduler::syscall_step(pre, post, child, SystemCall::Done, clean, d0, d1),
    ensures
        post.ready_model().0 == pre.ready_model().0.add(
            wake_entries(pre.joiners(child), post.live(), pre.ready_model().2 as nat).to_multiset(),
        ),
        post.ready_model().1 == pre.ready_model().1.union(pre.joiners(child).to_set()),
        post.joiners(child) == Seq::<TaskId>::empty(),
{
    lemma_wake_all_distinct(pre.ready_model(), pre.live().remove(child), pre.joiners(child));
}

/// A task whose coroutine panicked ends `Failed`; its join waiters are
/// still woken, and every other task stays as it was.
pub proof fn lemma_panic_isolation(
    pre: &Scheduler,
    post: &Scheduler,
    child: TaskId,
    d0: Seq<TaskId>,
    d1: Seq<TaskId>,
)
    requires
        pre.live().contains_key(child),
        Scheduler::syscall_step(pre, post, child, SystemCall::Done, false, d0, d1),
    ensures
        post.states().contains_key(child) && post.states()[child] == TaskState::Failed,
        forall|w: TaskId|
            pre.joiners(child).contains(w) && w != child && pre.live().contains_key(w)
                ==> #[trigger] post.ready_model().1.contains(w),
        forall|t: TaskId|
            t != child ==> (#[trigger] post.live().contains_key(t) == pre.live().contains_key(t)),
        d1 == d0.push(child),
{
    lemma_wake_all_members(pre.ready_model(), pre.live().remove(child), pre.joiners(child));
}

/// A timed join registers the waiter on its target and arms a timer at
/// the receipt time plus the duration (saturating at `u64::MAX`).
pub proof fn lemma_timeout_armed(
    pre: &Scheduler,
    post: &Scheduler,
    waiter: TaskId,
    target: TaskId,
    dur: u64,
    clean: bool,
    d0: Seq<TaskId>,
    d1: Seq<TaskId>,
)
    requires
        pre.live().contains_key(target),
        Scheduler::syscall_step(
            pre,
            post,
            waiter,
            SystemCall::JoinTimeout { target, dur },
            clean,
            d0,
            d1,
        ),
    ensures
        post.timeouts().contains(
            TimerEntry { wake_at: wake_instant(pre.now(), dur), tid: waiter, target },
        ),
        post.joiners(target).contains(waiter),
        wake_instant(pre.now(), dur) <= pre.now() + dur,
{
    let s = pre.joiners(target).push(waiter);
    assert(s[s.len() - 1] == waiter);
}

} // verus!
