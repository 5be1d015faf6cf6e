//! Failure of an activity.
use vstd::prelude::*;
use vstd::string::*;

verus! {

/// Why an activity failed, and whether another attempt may be made.
#[derive(Debug, PartialEq, Eq)]
pub struct Error {
    pub message: String,
    pub non_retryable: bool,
}

/// The contents of an [`Error`].
#[verifier::ext_equal]
pub struct ErrorView {
    pub message: Seq<char>,
    pub non_retryable: bool,
}

impl View for Error {
    type V = ErrorView;

    open spec fn view(&self) -> ErrorView {
        ErrorView { message: self.message@, non_retryable: self.non_retryable }
    }
}

impl Clone for Error {
    fn clone(&self) -> (r: Self)
        ensures
            r@ == self@,
    {
        Error { message: self.message.clone(), non_retryable: self.non_retryable }
    }
}

/// The error that forbids another attempt.
pub open spec fn fatal_error(message: Seq<char>) -> ErrorView {
    ErrorView { message, non_retryable: true }
}

impl Error {
    /// A failure after which the activity may be attempted again.
    pub fn retryable(message: &str) -> (e: Self)
        ensures
            e@ == (ErrorView { message: message@, non_retryable: false }),
            e.message@ == message@,
            !e.non_retryable,
    {
        Error { message: String::from_str(message), non_retryable: false }
    }

    /// A failure after which the activity is not attempted again.
    pub fn fatal(message: &str) -> (e: Self)
        ensures
            e@ == fatal_error(message@),
            e.message@ == message@,
            e.non_retryable,
    {
        Error { message: String::from_str(message), non_retryable: true }
    }

    /// The text shown for the error: its message.
    pub fn to_string(&self) -> (s: String)
        ensures
            s@ == self@.message,
    {
        self.message.clone()
    }
}

} // verus!
