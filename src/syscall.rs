//! The requests that tasks send to the scheduler.
use vstd::prelude::*;

use crate::task::TaskId;

verus! {

/// A system call sent by a task. Durations are in nanoseconds of virtual
/// time.
#[derive(Clone, Debug)]
pub enum SystemCall {
    /// Record a log message.
    Log(String),
    /// Sleep for the given duration.
    Sleep(u64),
    /// Wait for another task to finish.
    Join(TaskId),
    /// Signal that the task is complete.
    Done,
    /// Block until the given I/O resource is ready.
    IoWait(u64),
    /// Cooperatively yield control back to the scheduler.
    Yield,
    /// Cancel another task immediately.
    Cancel(TaskId),
    /// Wait for a task to finish, but resume after a timeout.
    JoinTimeout { target: TaskId, dur: u64 },
}

} // verus!
