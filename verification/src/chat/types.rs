//! What the chat session and its activities take and give.
use vstd::prelude::*;

verus! {

/// What a session takes: its conversation.
#[derive(Debug, Clone, PartialEq, Eq)]
pub struct ChatSessionParams {
    pub conversation_id: String,
}

/// What a session gives: nothing, the chat service has the transcript.
#[derive(Debug, Clone, PartialEq, Eq)]
pub struct ChatSessionResult {}

/// A message to answer.
#[derive(Debug, Clone, PartialEq, Eq)]
pub struct UserMessage {
    pub message_id: String,
    pub text: String,
}

/// The end of a session.
#[derive(Debug, Clone, PartialEq, Eq)]
pub struct StopSignal {}

/// What recording a message gives.
#[derive(Debug, Clone, PartialEq, Eq)]
pub struct RecordResult {}

/// What asking for a reply takes.
#[derive(Debug, Clone, PartialEq, Eq)]
pub struct LlmParams {
    pub conversation_id: String,
}

/// What asking for a reply gives.
#[derive(Debug, Clone, PartialEq, Eq)]
pub struct LlmResult {
    pub reply: String,
}

} // verus!
