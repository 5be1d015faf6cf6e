//! Identity of one run of a workflow.
use vstd::prelude::*;

verus! {

/// One run: the caller's workflow id and the engine's run id.
#[derive(Debug, PartialEq, Eq)]
pub struct Execution {
    pub workflow_id: String,
    pub run_id: String,
}

/// The two ids of an [`Execution`] as character sequences.
#[verifier::ext_equal]
pub struct ExecutionView {
    pub workflow_id: Seq<char>,
    pub run_id: Seq<char>,
}

impl View for Execution {
    type V = ExecutionView;

    open spec fn view(&self) -> ExecutionView {
        ExecutionView { workflow_id: self.workflow_id@, run_id: self.run_id@ }
    }
}

impl Clone for Execution {
    fn clone(&self) -> (r: Self)
        ensures
            r@ == self@,
    {
        Execution { workflow_id: self.workflow_id.clone(), run_id: self.run_id.clone() }
    }
}

} // verus!
