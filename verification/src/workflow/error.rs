//! Failure of a workflow.
use crate::activity;
use vstd::prelude::*;
use vstd::string::*;

verus! {

/// Why a workflow failed. Its view is its message.
#[derive(Debug, PartialEq, Eq)]
pub struct Error {
    pub message: String,
}

impl View for Error {
    type V = Seq<char>;

    open spec fn view(&self) -> Seq<char> {
        self.message@
    }
}

impl Clone for Error {
    fn clone(&self) -> (r: Self)
        ensures
            r@ == self@,
    {
        Error { message: self.message.clone() }
    }
}

impl Error {
    /// The failure with the given message.
    pub fn new(message: &str) -> (e: Self)
        ensures
            e@ == message@,
    {
        Error { message: String::from_str(message) }
    }

    /// The text shown for the error: its message.
    pub fn to_string(&self) -> (s: String)
        ensures
            s@ == self@,
    {
        self.message.clone()
    }
}

/// The failure of a workflow that gives up on a failed activity: it keeps the
/// activity's message.
impl From<activity::Error> for Error {
    fn from(error: activity::Error) -> (e: Self) {
        Error { message: error.message }
    }
}

impl vstd::std_specs::convert::FromSpecImpl<activity::Error> for Error {
    open spec fn obeys_from_spec() -> bool {
        true
    }

    open spec fn from_spec(error: activity::Error) -> Self {
        Error { message: error.message }
    }
}

} // verus!
