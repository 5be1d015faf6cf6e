//! What the operations of a durable store write.
//!
//! A store keeps five tables: the runs, their histories, activity tasks, timers,
//! and the runs that have something new in their history. An operation reads what
//! it depends on, and then makes a list of writes, all of them in one transaction.
//! The lists are made here;
//! see [`model`] for what they come to, and [`reads`] for what is read.
use vstd::prelude::*;

pub mod contents;
pub mod history;
pub mod model;
pub mod queue;
pub mod reads;
pub mod write;

pub use write::Write;

verus! {

} // verus!
