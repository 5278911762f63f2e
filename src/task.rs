//! Task identifiers and lifecycle states.
use vstd::prelude::*;

verus! {

/// Identifier of a task. Ids start at 1 and are never reused; 0 names no task.
pub type TaskId = u64;

/// The lifecycle state of a task.
#[derive(Copy, Clone, Debug, PartialEq, Eq, Structural)]
pub enum TaskState {
    /// The task is live: running, ready or suspended.
    Running,
    /// The task terminated cleanly, or was cancelled.
    Finished,
    /// The task terminated by a panic.
    Failed,
}

} // verus!
