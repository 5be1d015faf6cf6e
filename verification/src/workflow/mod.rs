//! Authoring workflows, and replaying them from recorded history.
//!
//! A workflow body acts on the world only through its [`Context`]. Every command
//! it emits and every outcome it reads is recorded in the run's history, so the
//! body can be driven again from that history: outcomes are applied one per turn,
//! in the order in which they were recorded, and the body is polled until it
//! parks. A body must be deterministic: what a poll does is a function of the
//! body's state and of its context ([`Definition`]).
use vstd::prelude::*;

pub mod agreement;
pub mod command;
pub mod context;
pub mod def;
pub mod error;
pub mod event;
pub mod future;
pub mod inbox;
pub mod info;
pub mod laws;
pub mod life;
pub mod markers;
pub mod moves;
pub mod poll;
pub mod record;
pub mod relay;
pub mod reroute;
pub mod replay;
pub mod result;
pub mod retry;
pub mod signal;
pub mod spawn;
pub mod state;

pub use crate::activity::Execution;
pub use command::Command;
pub use context::{duration_ms, Context};
pub use def::Definition;
pub use error::Error;
pub use event::Event;
pub use future::{ActivityFuture, ChildFuture, TimerFuture};
pub use info::Info;
pub use poll::Poll;
pub use relay::Relay;
pub use reroute::Reroute;
pub use replay::{cold_replay, Nondeterminism, ReplayOutcome};
pub use result::{ChildResult, CommandResult};
pub use retry::RetryPolicy;
pub use signal::{SignalChannel, SignalRecv};
pub use spawn::SpawnHandle;
pub use state::WorkflowState;

verus! {

} // verus!
