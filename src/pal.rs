//! Lifecycle events for the process activity log.
use vstd::prelude::*;

use crate::task::TaskId;

verus! {

/// Events emitted to the process activity log.
#[derive(Copy, Clone, Debug, PartialEq, Eq, Structural)]
pub enum TaskEvent {
    /// A task failed due to a panic.
    Failed(TaskId),
}

/// Emit an activity event. The log is best-effort: this sink keeps nothing.
pub fn emit(event: TaskEvent) {
    let _ = event;
}

} // verus!
