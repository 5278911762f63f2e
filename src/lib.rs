//! A cooperative task scheduler: the bookkeeping and dispatch decisions of a
//! runtime whose tasks talk to it through system calls.
pub mod cli;
pub mod clock;
pub mod config;
pub mod pal;
pub mod ready_queue;
pub mod scheduler;
pub mod syscall;
pub mod task;
pub mod timer;
pub mod wait_map;

pub use cli::{Cli, Commands, OutputFormat, StatusReply};
pub use clock::TickClock;
pub use config::Config;
pub use pal::{emit as pal_emit, TaskEvent};
pub use ready_queue::{ReadyEntry, ReadyQueue};
pub use scheduler::{Pick, Reclaim, Scheduler};
pub use syscall::SystemCall;
pub use task::{TaskId, TaskState};
pub use wait_map::WaitMap;
