//! What an engine can run.
use vstd::hash_set::StringHashSet;
use vstd::prelude::*;
use vstd::string::*;

verus! {

/// The workflow types and activity types that an engine can run, and whether
/// somebody wants to hear of runs that are over.
pub struct Engine {
    workflows: StringHashSet,
    activities: StringHashSet,
    observed: bool,
}

/// The contents of an [`Engine`].
#[verifier::ext_equal]
pub struct EngineView {
    pub workflows: Set<Seq<char>>,
    pub activities: Set<Seq<char>>,
    pub observed: bool,
}

impl View for Engine {
    type V = EngineView;

    closed spec fn view(&self) -> EngineView {
        EngineView {
            workflows: self.workflows@,
            activities: self.activities@,
            observed: self.observed,
        }
    }
}

impl Engine {
    /// An engine that can run nothing yet.
    pub fn new() -> (engine: Self)
        ensures
            engine@ == (EngineView {
                workflows: Set::empty(),
                activities: Set::empty(),
                observed: false,
            }),
    {
        Engine {
            workflows: StringHashSet::new(),
            activities: StringHashSet::new(),
            observed: false,
        }
    }

    /// Adds a workflow type. A type that is there already stays.
    pub fn register_workflow(&mut self, workflow_type: &str)
        ensures
            final(self)@ == (EngineView {
                workflows: old(self)@.workflows.insert(workflow_type@),
                ..old(self)@
            }),
    {
        self.workflows.insert(String::from_str(workflow_type));
        assert(self@.workflows =~= old(self)@.workflows.insert(workflow_type@));
    }

    /// Adds an activity type. A type that is there already stays.
    pub fn register_activity(&mut self, activity_type: &str)
        ensures
            final(self)@ == (EngineView {
                activities: old(self)@.activities.insert(activity_type@),
                ..old(self)@
            }),
    {
        self.activities.insert(String::from_str(activity_type));
        assert(self@.activities =~= old(self)@.activities.insert(activity_type@));
    }

    /// From now on, runs that are over are announced.
    pub fn on_run_completed(&mut self)
        ensures
            final(self)@ == (EngineView { observed: true, ..old(self)@ }),
    {
        self.observed = true;
    }

    /// Whether the workflow type can be run.
    pub fn runs_workflow(&self, workflow_type: &str) -> (runs: bool)
        ensures
            runs == self@.workflows.contains(workflow_type@),
    {
        self.workflows.contains(workflow_type)
    }

    /// Whether the activity type can be run.
    pub fn runs_activity(&self, activity_type: &str) -> (runs: bool)
        ensures
            runs == self@.activities.contains(activity_type@),
    {
        self.activities.contains(activity_type)
    }

    /// Whether runs that are over are announced.
    pub fn is_observed(&self) -> (observed: bool)
        ensures
            observed == self@.observed,
    {
        self.observed
    }
}

} // verus!
