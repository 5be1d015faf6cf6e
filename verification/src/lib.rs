//! Durable workflows.
//!
//! A workflow is code that outlives the process it runs in: whatever it does and
//! whatever it learns is kept in a history, and the code is run again from that
//! history whenever there is something new.
//!
//! - [`workflow`]: bodies, what they can do, and replaying them;
//! - [`activity`]: what a worker is told about the work that workflows schedule;
//! - [`engine`]: what one turn of a run commits, and what becomes of an activity task;
//! - [`store`]: what the operations of a durable store read and write;
//! - [`chat_service`], [`chat`], [`demo`]: services and workflows built on these;
//! - [`host`]: what a desktop shell shows of them.
//!
//! All of it computes. Storage, clocks and threads are left to the caller.
use vstd::prelude::*;

pub mod activity;
pub mod bytes;
pub mod chat;
pub mod chat_service;
pub mod demo;
pub mod engine;
pub mod host;
pub mod json;
pub mod store;
pub mod text;
pub mod workflow;

verus! {

} // verus!
