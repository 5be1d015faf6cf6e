//! What a workflow is told about its own run.
use crate::activity::execution::{Execution, ExecutionView};
use vstd::prelude::*;

verus! {

/// The run, the run that started it (none for a root), and its workflow type.
#[derive(Debug, PartialEq, Eq)]
pub struct Info {
    pub execution: Execution,
    pub parent: Option<Execution>,
    pub workflow_type: String,
}

/// The contents of an [`Info`].
#[verifier::ext_equal]
pub struct InfoView {
    pub execution: ExecutionView,
    pub parent: Option<ExecutionView>,
    pub workflow_type: Seq<char>,
}

/// The contents of an optional parent.
pub open spec fn parent_view(parent: Option<Execution>) -> Option<ExecutionView> {
    match parent {
        Some(p) => Some(p@),
        None => None,
    }
}

impl View for Info {
    type V = InfoView;

    open spec fn view(&self) -> InfoView {
        InfoView {
            execution: self.execution@,
            parent: parent_view(self.parent),
            workflow_type: self.workflow_type@,
        }
    }
}

impl Clone for Info {
    fn clone(&self) -> (r: Self)
        ensures
            r@ == self@,
    {
        Info {
            execution: self.execution.clone(),
            parent: match &self.parent {
                Some(p) => Some(p.clone()),
                None => None,
            },
            workflow_type: self.workflow_type.clone(),
        }
    }
}

} // verus!
