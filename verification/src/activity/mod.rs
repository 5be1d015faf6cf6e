//! What an activity sees of the run it works for, and how it reports failure.
use vstd::prelude::*;

pub mod context;
pub mod def;
pub mod error;
pub mod execution;
pub mod info;

pub use context::Context;
pub use error::Error;
pub use execution::Execution;
pub use info::Info;

verus! {

} // verus!
