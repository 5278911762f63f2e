use scheduler::{Pick, Reclaim, Scheduler, SystemCall, TaskId, TaskState};
use std::collections::{HashMap, VecDeque};
use std::time::{Duration, Instant};

const MS: u64 = 1_000_000;

/// A task body as the calls it makes, one per turn, and whether it panics
/// after its last call.
struct Script {
    calls: VecDeque<SystemCall>,
    panics: bool,
}

struct Sim {
    sched: Scheduler,
    scripts: HashMap<TaskId, Script>,
    io_events: VecDeque<u64>,
}

impl Sim {
    fn new() -> Self {
        Sim { sched: Scheduler::new(), scripts: HashMap::new(), io_events: VecDeque::new() }
    }

    fn spawn_with_priority(&mut self, pri: u8, calls: Vec<SystemCall>, panics: bool) -> TaskId {
        let tid = self.sched.spawn_with_priority(pri);
        self.scripts.insert(tid, Script { calls: calls.into(), panics });
        tid
    }

    fn spawn(&mut self, calls: Vec<SystemCall>) -> TaskId {
        let tid = self.sched.spawn();
        self.scripts.insert(tid, Script { calls: calls.into(), panics: false });
        tid
    }

    /// Runs the dispatch loop with each picked task making its next call.
    fn run(&mut self) -> Vec<TaskId> {
        let mut done = Vec::new();
        while self.sched.has_live_tasks() {
            self.sched.wake_due_sleepers();
            self.sched.expire_due_timeouts();
            match self.sched.pick_next() {
                Pick::Run(tid) => {
                    let call = match self.scripts.get_mut(&tid).and_then(|s| s.calls.pop_front()) {
                        Some(c) => c,
                        None => break,
                    };
                    let clean = match self.sched.reclaim_for(tid, &call) {
                        Reclaim::Join(t) => !self.scripts[&t].panics,
                        _ => true,
                    };
                    self.sched.handle_syscall(tid, call, clean, &mut done);
                }
                Pick::Again => {}
                Pick::Idle => match self.io_events.pop_front() {
                    Some(io) => self.sched.io_ready(io),
                    None => break,
                },
            }
        }
        done
    }
}

#[test]
fn basic_order_by_sleep() {
    let mut sim = Sim::new();
    let start = Instant::now();
    sim.spawn(vec![SystemCall::Sleep(50 * MS), SystemCall::Done]);
    sim.spawn(vec![SystemCall::Sleep(10 * MS), SystemCall::Done]);
    let order = sim.run();
    assert_eq!(order, vec![2, 1]);
    assert!(start.elapsed() < Duration::from_millis(50));
    assert_eq!(sim.sched.clock_now(), 50 * MS);
}

#[test]
fn test_join_wakes_waiter() {
    let mut sim = Sim::new();
    let child = sim.spawn(vec![SystemCall::Done]);
    let parent = sim.spawn(vec![SystemCall::Join(child), SystemCall::Done]);
    let order = sim.run();
    assert_eq!(order, vec![child, parent]);
}

#[test]
fn join_before_child_ends_wakes_parent() {
    let mut sim = Sim::new();
    let child = sim.spawn(vec![SystemCall::Yield, SystemCall::Done]);
    let parent = sim.spawn(vec![SystemCall::Join(child), SystemCall::Done]);
    let order = sim.run();
    assert_eq!(order, vec![child, parent]);
    assert_eq!(sim.sched.task_state(child), Some(TaskState::Finished));
    assert_eq!(sim.sched.task_state(parent), Some(TaskState::Finished));
}

#[test]
fn join_wake_before_next_ready() {
    let mut sim = Sim::new();
    let child = sim.spawn(vec![SystemCall::Done]);
    let parent = sim.spawn(vec![SystemCall::Join(child), SystemCall::Done]);
    let _third = sim.spawn(vec![SystemCall::Done]);
    let order = sim.run();
    let pos_child = order.iter().position(|&id| id == child).unwrap();
    let pos_parent = order.iter().position(|&id| id == parent).unwrap();
    assert!(pos_child < pos_parent, "child should complete before parent");
}

#[test]
fn priority_order() {
    let mut sim = Sim::new();
    let _high = sim.spawn_with_priority(5, vec![SystemCall::Done], false);
    let _low = sim.spawn_with_priority(20, vec![SystemCall::Sleep(MS), SystemCall::Done], false);
    let order = sim.run();
    assert_eq!(order.first().copied(), Some(1));
    assert_eq!(order.last().copied(), Some(2));
}

#[test]
fn high_priority_spawned_later_runs_first() {
    let mut sim = Sim::new();
    let low = sim.spawn_with_priority(20, vec![SystemCall::Done], false);
    let high = sim.spawn_with_priority(0, vec![SystemCall::Done], false);
    assert_eq!(sim.run(), vec![high, low]);
}

#[test]
fn join_timeout_wakes() {
    let mut sim = Sim::new();
    let start = Instant::now();
    let child = sim.spawn(vec![SystemCall::Sleep(100 * MS), SystemCall::Done]);
    let parent = sim.spawn(vec![
        SystemCall::JoinTimeout { target: child, dur: 10 * MS },
        SystemCall::Cancel(child),
        SystemCall::Done,
    ]);
    let order = sim.run();
    assert!(start.elapsed() < Duration::from_millis(50));
    assert_eq!(order.first().copied(), Some(child));
    assert!(order.contains(&parent));
    assert_eq!(sim.sched.clock_now(), 10 * MS);
}

#[test]
fn cancel_child() {
    let mut sim = Sim::new();
    let child = sim.spawn(vec![SystemCall::Sleep(100 * MS), SystemCall::Done]);
    let parent = sim.spawn(vec![SystemCall::Cancel(child), SystemCall::Join(child), SystemCall::Done]);
    let order = sim.run();
    assert_eq!(order.first().copied(), Some(child));
    assert!(order.contains(&parent));
    assert_eq!(sim.sched.task_state(child), Some(TaskState::Finished));
}

#[test]
fn panic_isolation() {
    let mut sim = Sim::new();
    let child = sim.spawn_with_priority(10, vec![SystemCall::Done], true);
    let parent = sim.spawn(vec![SystemCall::Join(child), SystemCall::Done]);
    let order = sim.run();
    assert!(order.contains(&parent));
    assert_eq!(sim.sched.task_state(child), Some(TaskState::Failed));
}

#[test]
fn failed_state_is_never_downgraded() {
    let mut sched = Scheduler::new();
    let t = sched.spawn();
    let mut done = Vec::new();
    sched.handle_syscall(t, SystemCall::Done, false, &mut done);
    assert_eq!(sched.task_state(t), Some(TaskState::Failed));
    sched.handle_syscall(t, SystemCall::Done, true, &mut done);
    assert_eq!(sched.task_state(t), Some(TaskState::Failed));
    assert_eq!(done, vec![t, t]);
}

#[test]
fn test_io_wait_wakes_task() {
    let mut sim = Sim::new();
    sim.spawn(vec![SystemCall::IoWait(1), SystemCall::Done]);
    sim.io_events.push_back(1);
    let order = sim.run();
    assert_eq!(order, vec![1]);
}

#[test]
fn io_wait_without_signal_ends_idle() {
    let mut sim = Sim::new();
    sim.spawn(vec![SystemCall::IoWait(3), SystemCall::Done]);
    let order = sim.run();
    assert!(order.is_empty());
    assert_eq!(sim.sched.task_state(1), Some(TaskState::Running));
}

#[test]
fn integration_join_and_io_wait() {
    let mut sim = Sim::new();
    let child = sim.spawn(vec![SystemCall::Done]);
    sim.spawn(vec![SystemCall::Join(child), SystemCall::Done]);
    sim.spawn(vec![SystemCall::IoWait(1), SystemCall::Done]);
    sim.io_events.push_back(1);
    let order = sim.run();
    assert_eq!(order.len(), 3);
    assert!(order.contains(&child));
    assert!(order.contains(&2));
    assert!(order.contains(&3));
}

#[test]
fn stale_ready_id_is_ignored() {
    let mut sim = Sim::new();
    let child = sim.spawn(vec![SystemCall::Done]);
    sim.sched.ready_push_duplicate_for_test(child);
    assert_eq!(sim.sched.ready_len(), 2);
    let order = sim.run();
    assert_eq!(order, vec![child]);
}

#[test]
fn stale_pick_is_skipped() {
    let mut sched = Scheduler::new();
    let t = sched.spawn();
    let mut done = Vec::new();
    sched.handle_syscall(t, SystemCall::Done, true, &mut done);
    assert_eq!(sched.pick_next(), Pick::Again);
    assert!(sched.ready_is_empty());
    assert_eq!(sched.pick_next(), Pick::Idle);
}

#[test]
fn sleep_virtual_runs_without_delay() {
    let mut sim = Sim::new();
    sim.spawn(vec![SystemCall::Sleep(10 * MS), SystemCall::Done]);
    let start = Instant::now();
    let order = sim.run();
    let elapsed = start.elapsed();
    assert!(elapsed < Duration::from_millis(5), "took {elapsed:?}");
    assert_eq!(order.len(), 1);
}

#[test]
fn test_basic_spawn() {
    let mut sim = Sim::new();
    sim.spawn(vec![SystemCall::Log("Hello from coroutine!".to_string()), SystemCall::Done]);
    assert_eq!(sim.run(), vec![1]);
}

#[test]
fn yield_order() {
    let mut sim = Sim::new();
    let a = sim.spawn(vec![SystemCall::Yield, SystemCall::Done]);
    let b = sim.spawn(vec![SystemCall::Done]);
    let order = sim.run();
    assert_eq!(order, vec![b, a]);
}

#[test]
fn syscall_yield_order() {
    let mut sim = Sim::new();
    sim.spawn(vec![SystemCall::Done]);
    sim.spawn(vec![SystemCall::Done]);
    assert_eq!(sim.run(), vec![1, 2]);
}

#[test]
fn spawn_assigns_fresh_ids_from_one() {
    let mut sched = Scheduler::new();
    assert_eq!(sched.next_task_id(), 1);
    assert_eq!(sched.spawn(), 1);
    assert_eq!(sched.spawn_with_priority(3), 2);
    assert_eq!(sched.next_task_id(), 3);
    assert_eq!(sched.ready_len(), 2);
    assert!(sched.is_live(1));
    assert!(!sched.is_live(3));
    assert_eq!(sched.task_state(2), Some(TaskState::Running));
    assert_eq!(sched.task_state(9), None);
}

#[test]
fn pick_with_timers_jumps_clock() {
    let mut sched = Scheduler::new();
    let t = sched.spawn();
    let mut done = Vec::new();
    assert_eq!(sched.pick_next(), Pick::Run(t));
    sched.handle_syscall(t, SystemCall::Sleep(7), true, &mut done);
    assert_eq!(sched.next_wake_instant(), Some(7));
    assert_eq!(sched.pick_next(), Pick::Again);
    assert_eq!(sched.clock_now(), 7);
    sched.wake_due_sleepers();
    assert_eq!(sched.next_wake_instant(), None);
    assert_eq!(sched.pick_next(), Pick::Run(t));
}

#[test]
fn sleep_saturates_at_end_of_time() {
    let mut sched = Scheduler::new();
    let t = sched.spawn();
    let mut done = Vec::new();
    sched.handle_syscall(t, SystemCall::Sleep(u64::MAX), true, &mut done);
    assert_eq!(sched.next_wake_instant(), Some(u64::MAX));
}

#[test]
fn timeout_after_natural_wake_is_suppressed() {
    let mut sched = Scheduler::new();
    let child = sched.spawn();
    let parent = sched.spawn();
    let mut done = Vec::new();
    assert_eq!(sched.pick_next(), Pick::Run(child));
    assert_eq!(sched.pick_next(), Pick::Run(parent));
    sched.handle_syscall(parent, SystemCall::JoinTimeout { target: child, dur: 5 }, true, &mut done);
    assert!(sched.ready_is_empty());
    sched.handle_syscall(child, SystemCall::Done, true, &mut done);
    assert_eq!(sched.ready_len(), 1);
    assert_eq!(sched.pick_next(), Pick::Run(parent));
    assert_eq!(sched.pick_next(), Pick::Again);
    assert_eq!(sched.clock_now(), 5);
    sched.expire_due_timeouts();
    assert!(sched.ready_is_empty());
    assert_eq!(sched.next_wake_instant(), None);
}

#[test]
fn reply_from_other_task_requeues_picked() {
    let mut sched = Scheduler::new();
    let a = sched.spawn();
    let b = sched.spawn();
    assert_eq!(sched.pick_next(), Pick::Run(a));
    sched.note_reply(a, b);
    assert_eq!(sched.ready_len(), 2);
    sched.note_reply(a, a);
    assert_eq!(sched.ready_len(), 2);
}

#[test]
fn reclaim_only_for_live_tasks() {
    let mut sched = Scheduler::new();
    let a = sched.spawn();
    assert_eq!(sched.reclaim_for(a, &SystemCall::Done), Reclaim::Join(a));
    assert_eq!(sched.reclaim_for(a, &SystemCall::Cancel(a)), Reclaim::Cancel(a));
    assert_eq!(sched.reclaim_for(a, &SystemCall::Cancel(9)), Reclaim::Nothing);
    assert_eq!(sched.reclaim_for(9, &SystemCall::Done), Reclaim::Nothing);
    assert_eq!(sched.reclaim_for(a, &SystemCall::Yield), Reclaim::Nothing);
}

#[test]
fn cancel_of_unknown_id_is_ignored() {
    let mut sched = Scheduler::new();
    let a = sched.spawn();
    let mut done = Vec::new();
    assert_eq!(sched.pick_next(), Pick::Run(a));
    sched.handle_syscall(a, SystemCall::Cancel(42), true, &mut done);
    assert!(done.is_empty());
    assert_eq!(sched.pick_next(), Pick::Run(a));
    assert_eq!(sched.task_state(42), None);
}

#[test]
fn test_task_log_and_sleep_with_may() {
    let mut sim = Sim::new();
    let a = sim.spawn(vec![
        SystemCall::Log("start task A".to_string()),
        SystemCall::Sleep(100 * MS),
        SystemCall::Log("resume task A".to_string()),
        SystemCall::Done,
    ]);
    let b = sim.spawn(vec![
        SystemCall::Log("start task B".to_string()),
        SystemCall::Sleep(100 * MS),
        SystemCall::Log("resume task B".to_string()),
        SystemCall::Done,
    ]);
    assert_eq!(sim.run(), vec![a, b]);
    assert_eq!(sim.sched.clock_now(), 100 * MS);
}

#[test]
fn compile() {
    let mut sim = Sim::new();
    assert!(sim.sched.ready_is_empty());
    let order = sim.run();
    assert!(order.is_empty());
}

#[test]
fn waiters_wake_in_insertion_order() {
    let mut sim = Sim::new();
    let child = sim.spawn(vec![SystemCall::Yield, SystemCall::Yield, SystemCall::Done]);
    let p1 = sim.spawn(vec![SystemCall::Join(child), SystemCall::Done]);
    let p2 = sim.spawn(vec![SystemCall::Join(child), SystemCall::Done]);
    assert_eq!(sim.run(), vec![child, p1, p2]);
}

#[test]
fn cancel_wakes_join_waiters() {
    let mut sim = Sim::new();
    let child = sim.spawn(vec![SystemCall::IoWait(9), SystemCall::Done]);
    let waiter = sim.spawn(vec![SystemCall::Join(child), SystemCall::Done]);
    let killer = sim.spawn(vec![SystemCall::Cancel(child), SystemCall::Done]);
    let order = sim.run();
    assert_eq!(order, vec![child, waiter, killer]);
    assert_eq!(sim.sched.task_state(child), Some(TaskState::Finished));
}

#[test]
fn poll_timeout_follows_ready_and_timers() {
    let mut sched = Scheduler::new();
    assert_eq!(sched.poll_timeout(), scheduler::scheduler::IDLE_TIMEOUT_NANOS);
    let t = sched.spawn();
    assert_eq!(sched.poll_timeout(), 0);
    let mut done = Vec::new();
    assert_eq!(sched.pick_ready(), Pick::Run(t));
    sched.handle_syscall(t, SystemCall::Sleep(30), true, &mut done);
    assert_eq!(sched.poll_timeout(), 30);
}

#[test]
fn after_poll_advances_clock_or_stops() {
    let mut sched = Scheduler::new();
    let t = sched.spawn();
    let mut done = Vec::new();
    assert_eq!(sched.pick_ready(), Pick::Run(t));
    sched.handle_syscall(t, SystemCall::IoWait(2), true, &mut done);
    assert!(sched.after_poll(false, 40));
    assert_eq!(sched.clock_now(), 40);
    assert!(sched.after_poll(true, scheduler::scheduler::IDLE_TIMEOUT_NANOS));
    assert_eq!(sched.clock_now(), 40);
    assert!(!sched.after_poll(false, scheduler::scheduler::IDLE_TIMEOUT_NANOS));
    assert_eq!(sched.clock_now(), 40);
}

#[test]
fn pick_ready_never_moves_clock() {
    let mut sched = Scheduler::new();
    let t = sched.spawn();
    let mut done = Vec::new();
    assert_eq!(sched.pick_ready(), Pick::Run(t));
    sched.handle_syscall(t, SystemCall::Sleep(9), true, &mut done);
    assert_eq!(sched.pick_ready(), Pick::Again);
    assert_eq!(sched.clock_now(), 0);
}

#[test]
fn spawn_queues_one_entry() {
    let mut sched = Scheduler::new();
    let t = sched.spawn();
    assert!(t >= 1);
    assert_eq!(sched.ready_len(), 1);
    let u = sched.spawn_with_priority(0);
    assert_eq!(sched.ready_len(), 2);
    assert_eq!(sched.pick_next(), Pick::Run(u));
}

#[test]
fn yield_requeues_at_tail_of_band() {
    let mut sched = Scheduler::new();
    let a = sched.spawn();
    let b = sched.spawn();
    let mut done = Vec::new();
    assert_eq!(sched.pick_next(), Pick::Run(a));
    sched.handle_syscall(a, SystemCall::Yield, true, &mut done);
    assert_eq!(sched.pick_next(), Pick::Run(b));
    assert_eq!(sched.pick_next(), Pick::Run(a));
}

#[test]
fn expired_waiter_leaves_join_list() {
    let mut sched = Scheduler::new();
    let child = sched.spawn();
    let parent = sched.spawn();
    let mut done = Vec::new();
    assert_eq!(sched.pick_next(), Pick::Run(child));
    assert_eq!(sched.pick_next(), Pick::Run(parent));
    sched.handle_syscall(child, SystemCall::IoWait(5), true, &mut done);
    sched.handle_syscall(parent, SystemCall::JoinTimeout { target: child, dur: 3 }, true, &mut done);
    assert_eq!(sched.pick_next(), Pick::Again);
    sched.expire_due_timeouts();
    assert_eq!(sched.pick_next(), Pick::Run(parent));
    sched.handle_syscall(parent, SystemCall::Yield, true, &mut done);
    assert_eq!(sched.pick_next(), Pick::Run(parent));
    sched.io_ready(5);
    assert_eq!(sched.pick_next(), Pick::Run(child));
    sched.handle_syscall(child, SystemCall::Done, true, &mut done);
    assert!(sched.ready_is_empty());
}
