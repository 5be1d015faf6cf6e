//! Chat: a long-lived session that answers a user's messages.
use vstd::prelude::*;

pub mod activities;
pub mod session;
pub mod types;

pub use activities::RecordMessage;
pub use session::{ChatSession, SessionAction, SessionEvent};
pub use types::{
    ChatSessionParams, ChatSessionResult, LlmParams, LlmResult, RecordResult, StopSignal,
    UserMessage,
};

verus! {

} // verus!
