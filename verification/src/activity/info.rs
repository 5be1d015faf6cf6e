//! What an activity attempt is told about itself.
use crate::activity::execution::{Execution, ExecutionView};
use vstd::prelude::*;

verus! {

/// The run an activity attempt belongs to, its place in that run, and the
/// 1-based number of the attempt.
#[derive(Debug, PartialEq, Eq)]
pub struct Info {
    pub execution: Execution,
    pub activity_id: String,
    pub activity_type: String,
    pub attempt: u32,
}

/// The contents of an [`Info`].
#[verifier::ext_equal]
pub struct InfoView {
    pub execution: ExecutionView,
    pub activity_id: Seq<char>,
    pub activity_type: Seq<char>,
    pub attempt: u32,
}

impl View for Info {
    type V = InfoView;

    open spec fn view(&self) -> InfoView {
        InfoView {
            execution: self.execution@,
            activity_id: self.activity_id@,
            activity_type: self.activity_type@,
            attempt: self.attempt,
        }
    }
}

impl Clone for Info {
    fn clone(&self) -> (r: Self)
        ensures
            r@ == self@,
    {
        Info {
            execution: self.execution.clone(),
            activity_id: self.activity_id.clone(),
            activity_type: self.activity_type.clone(),
            attempt: self.attempt,
        }
    }
}

} // verus!
