//! Recorded outcomes.
use crate::activity;
use crate::activity::error::ErrorView;
use crate::bytes::copy_bytes;
use crate::workflow::error::Error;
use vstd::prelude::*;

verus! {

/// Terminal outcome of a child workflow, as its parent's history records it.
#[derive(Debug, PartialEq, Eq)]
pub enum ChildResult {
    Completed(Vec<u8>),
    Failed(Error),
}

impl View for ChildResult {
    type V = Result<Seq<u8>, Seq<char>>;

    open spec fn view(&self) -> Result<Seq<u8>, Seq<char>> {
        match *self {
            ChildResult::Completed(output) => Ok(output@),
            ChildResult::Failed(error) => Err(error@),
        }
    }
}

impl Clone for ChildResult {
    fn clone(&self) -> (r: Self)
        ensures
            r@ == self@,
    {
        match self {
            ChildResult::Completed(output) => ChildResult::Completed(copy_bytes(output)),
            ChildResult::Failed(error) => ChildResult::Failed(error.clone()),
        }
    }
}

/// Terminal outcome of an activity.
#[derive(Debug, PartialEq, Eq)]
pub enum CommandResult {
    ActivityCompleted(Vec<u8>),
    ActivityFailed(activity::Error),
}

impl View for CommandResult {
    type V = Result<Seq<u8>, ErrorView>;

    open spec fn view(&self) -> Result<Seq<u8>, ErrorView> {
        match *self {
            CommandResult::ActivityCompleted(output) => Ok(output@),
            CommandResult::ActivityFailed(error) => Err(error@),
        }
    }
}

impl Clone for CommandResult {
    fn clone(&self) -> (r: Self)
        ensures
            r@ == self@,
    {
        match self {
            CommandResult::ActivityCompleted(output) => CommandResult::ActivityCompleted(
                copy_bytes(output),
            ),
            CommandResult::ActivityFailed(error) => CommandResult::ActivityFailed(error.clone()),
        }
    }
}

/// The contents of a workflow's result.
pub open spec fn result_view(r: Result<Vec<u8>, Error>) -> Result<Seq<u8>, Seq<char>> {
    match r {
        Ok(output) => Ok(output@),
        Err(error) => Err(error@),
    }
}

/// The contents of an activity's result.
pub open spec fn activity_result_view(r: Result<Vec<u8>, activity::Error>) -> Result<
    Seq<u8>,
    ErrorView,
> {
    match r {
        Ok(output) => Ok(output@),
        Err(error) => Err(error@),
    }
}

/// A copy of a workflow's result.
pub fn copy_result(r: &Result<Vec<u8>, Error>) -> (copy: Result<Vec<u8>, Error>)
    ensures
        result_view(copy) == result_view(*r),
{
    match r {
        Ok(output) => Ok(copy_bytes(output)),
        Err(error) => Err(error.clone()),
    }
}

/// The result that an awaiting parent gets.
impl From<ChildResult> for Result<Vec<u8>, Error> {
    fn from(r: ChildResult) -> (result: Self) {
        match r {
            ChildResult::Completed(output) => Ok(output),
            ChildResult::Failed(error) => Err(error),
        }
    }
}

impl vstd::std_specs::convert::FromSpecImpl<ChildResult> for Result<Vec<u8>, Error> {
    open spec fn obeys_from_spec() -> bool {
        true
    }

    open spec fn from_spec(r: ChildResult) -> Self {
        match r {
            ChildResult::Completed(output) => Ok(output),
            ChildResult::Failed(error) => Err(error),
        }
    }
}

/// The result that an awaiting workflow gets.
impl From<CommandResult> for Result<Vec<u8>, activity::Error> {
    fn from(r: CommandResult) -> (result: Self) {
        match r {
            CommandResult::ActivityCompleted(output) => Ok(output),
            CommandResult::ActivityFailed(error) => Err(error),
        }
    }
}

impl vstd::std_specs::convert::FromSpecImpl<CommandResult> for Result<Vec<u8>, activity::Error> {
    open spec fn obeys_from_spec() -> bool {
        true
    }

    open spec fn from_spec(r: CommandResult) -> Self {
        match r {
            CommandResult::ActivityCompleted(output) => Ok(output),
            CommandResult::ActivityFailed(error) => Err(error),
        }
    }
}

} // verus!
