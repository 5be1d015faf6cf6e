//! A small workflow: integers are parsed out of a text, and a child sums them.
use vstd::prelude::*;

pub mod activities;
pub mod laws;
pub mod types;
pub mod workflows;

pub use activities::{parse_ints, Parse, SumActivity};
pub use types::{
    ParentParams, ParentResult, ParseParams, ParseResult, SumChildParams, SumChildResult,
    SumParams, SumResult,
};
pub use workflows::{Parent, SumChild};

verus! {

} // verus!
