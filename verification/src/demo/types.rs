//! What the workflows and their activities take and give.
use vstd::prelude::*;

verus! {

/// A text to sum.
#[derive(Debug, Clone, PartialEq, Eq)]
pub struct ParentParams {
    pub text: String,
}

/// The sum of a text.
#[derive(Debug, Clone, PartialEq, Eq)]
pub struct ParentResult {
    pub total: i64,
}

/// A text to parse.
#[derive(Debug, Clone, PartialEq, Eq)]
pub struct ParseParams {
    pub text: String,
}

/// The integers of a text.
#[derive(Debug, Clone, PartialEq, Eq)]
pub struct ParseResult {
    pub values: Vec<i64>,
}

/// Integers to sum.
#[derive(Debug, Clone, PartialEq, Eq)]
pub struct SumParams {
    pub values: Vec<i64>,
}

/// A sum.
#[derive(Debug, Clone, PartialEq, Eq)]
pub struct SumResult {
    pub total: i64,
}

/// Integers to sum.
#[derive(Debug, Clone, PartialEq, Eq)]
pub struct SumChildParams {
    pub values: Vec<i64>,
}

/// A sum.
#[derive(Debug, Clone, PartialEq, Eq)]
pub struct SumChildResult {
    pub total: i64,
}

} // verus!
