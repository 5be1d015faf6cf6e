//! What a chat session has done for it.
use crate::activity;
use crate::activity::error::ErrorView;
use crate::chat::types::RecordResult;
use vstd::prelude::*;
use vstd::string::*;

verus! {

/// Records one message in the chat service.
pub struct RecordMessage;

impl RecordMessage {
    /// What the activity gives for what the chat service said: a message that could
    /// not be recorded may be tried again.
    pub fn run(recorded: Result<(), String>) -> (result: Result<RecordResult, activity::Error>)
        ensures
            match recorded {
                Ok(_) => result is Ok,
                Err(reason) => result matches Err(e) && e@ == (ErrorView {
                    message: "record_message: "@ + reason@,
                    non_retryable: false,
                }),
            },
    {
        match recorded {
            Ok(_) => Ok(RecordResult {  }),
            Err(reason) => {
                let mut message = String::from_str("record_message: ");
                message.append(reason.as_str());
                Err(activity::Error::retryable(message.as_str()))
            },
        }
    }
}

} // verus!
