//! Running workflows to their end on a durable store.
use vstd::prelude::*;

pub mod commits;
pub mod course;
pub mod drive;
pub mod handle;
pub mod ids;
pub mod laws;
pub mod plan;
pub mod registry;
pub mod types;
pub mod work;

pub use drive::{Answer, Ask, RunCompleted, Turn};
pub use handle::{
    outcome_to_result, pause_ms, Handle, NewExecution, Round, SignalError, StartOptions, Waited,
};
pub use registry::Engine;
pub use types::{
    ActivityLease, CreateOutcome, ExecStatus, ExecutionSummary, HistoryRecord, NewActivityTask,
    NewChild, NewTimer, ParentNotify, RunMeta, SignalOutcome, StoredEvent, TurnCommit,
};
pub use work::{Job, Report, Work};

verus! {

} // verus!
