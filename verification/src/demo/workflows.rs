//! The two workflows, step by step.
use crate::activity;
use crate::demo::types::{
    ParentParams, ParentResult, ParseParams, ParseResult, SumChildParams, SumChildResult,
    SumParams, SumResult,
};
use crate::workflow::error::Error;
use vstd::prelude::*;

verus! {

/// Sums integers by an activity.
pub struct SumChild;

impl SumChild {
    /// What the sum activity is given.
    pub fn begin(params: SumChildParams) -> (call: SumParams)
        ensures
            call.values@ == params.values@,
    {
        SumParams { values: params.values }
    }

    /// What the workflow gives when the activity gave that.
    pub fn summed(outcome: Result<SumResult, activity::Error>) -> (result: Result<
        SumChildResult,
        Error,
    >)
        ensures
            match outcome {
                Ok(sum) => result matches Ok(r) && r.total == sum.total,
                Err(error) => result matches Err(e) && e@ == error.message@,
            },
    {
        match outcome {
            Ok(sum) => Ok(SumChildResult { total: sum.total }),
            Err(error) => Err(Error::from(error)),
        }
    }
}

/// Parses a text by an activity, and has a child sum what it holds.
pub struct Parent;

impl Parent {
    /// What the parse activity is given.
    pub fn begin(params: ParentParams) -> (call: ParseParams)
        ensures
            call.text@ == params.text@,
    {
        ParseParams { text: params.text }
    }

    /// What the child is given when the activity gave that. A text that does not
    /// parse fails the workflow.
    pub fn parsed(outcome: Result<ParseResult, activity::Error>) -> (child: Result<
        SumChildParams,
        Error,
    >)
        ensures
            match outcome {
                Ok(parsed) => child matches Ok(c) && c.values@ == parsed.values@,
                Err(error) => child matches Err(e) && e@ == error.message@,
            },
    {
        match outcome {
            Ok(parsed) => Ok(SumChildParams { values: parsed.values }),
            Err(error) => Err(Error::from(error)),
        }
    }

    /// What the workflow gives when the child gave that.
    pub fn summed(outcome: Result<SumChildResult, Error>) -> (result: Result<ParentResult, Error>)
        ensures
            match outcome {
                Ok(sum) => result matches Ok(r) && r.total == sum.total,
                Err(error) => result matches Err(e) && e@ == error@,
            },
    {
        match outcome {
            Ok(sum) => Ok(ParentResult { total: sum.total }),
            Err(error) => Err(error),
        }
    }
}

} // verus!
