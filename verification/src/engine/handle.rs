//! Starting runs, signalling them and waiting for them.
use crate::engine::ids::{fresh_id, is_id};
use crate::engine::registry::Engine;
use crate::engine::types::{ExecStatus, SignalOutcome};
use crate::store::queue::LEASE_TTL_MS;
use vstd::prelude::*;
use vstd::string::*;

verus! {

/// How to start a workflow. Runs of one id are one run.
pub struct StartOptions {
    pub id: String,
}

impl Default for StartOptions {
    fn default() -> (options: Self)
        ensures
            options.id@ == Seq::<char>::empty(),
    {
        proof {
            reveal_strlit("");
        }
        let options = StartOptions { id: String::from_str("") };
        assert(options.id@ =~= Seq::<char>::empty());
        options
    }
}

/// What the store is asked to create: a run of a workflow, under a run id of its
/// own unless there is a run of that workflow id already.
pub struct NewExecution {
    pub candidate_run_id: String,
    pub workflow_id: String,
    pub workflow_type: String,
    pub input: Vec<u8>,
}

impl Engine {
    /// What the store is asked to create for a workflow on `input`.
    pub fn start_workflow(&self, workflow_type: &str, input: Vec<u8>, options: StartOptions) -> (new:
        NewExecution)
        ensures
            is_id(new.candidate_run_id@),
            new.workflow_id@ == options.id@,
            new.workflow_type@ == workflow_type@,
            new.input@ == input@,
    {
        NewExecution {
            candidate_run_id: fresh_id(),
            workflow_id: options.id,
            workflow_type: String::from_str(workflow_type),
            input,
        }
    }
}

/// A started run.
pub struct Handle {
    run_id: String,
    workflow_id: String,
}

/// What a wait for a result does next.
pub enum Waited {
    /// The output is there.
    Output(Vec<u8>),
    /// There will be none.
    Failed(String),
    /// The run goes on: look again after that many milliseconds.
    Again(u64),
}

impl Handle {
    /// The run's id.
    pub closed spec fn run_id_view(self) -> Seq<char> {
        self.run_id@
    }

    /// The id of the run's workflow.
    pub closed spec fn workflow_id_view(self) -> Seq<char> {
        self.workflow_id@
    }

    /// The handle of a run.
    pub fn new(run_id: String, workflow_id: String) -> (handle: Self)
        ensures
            handle.run_id_view() == run_id@,
            handle.workflow_id_view() == workflow_id@,
    {
        Handle { run_id, workflow_id }
    }

    /// The run's id.
    pub fn run_id(&self) -> (id: &str)
        ensures
            id@ == self.run_id_view(),
    {
        self.run_id.as_str()
    }

    /// The id of the run's workflow.
    pub fn workflow_id(&self) -> (id: &str)
        ensures
            id@ == self.workflow_id_view(),
    {
        self.workflow_id.as_str()
    }

    /// What to do about a run's result when the store has that standing and result
    /// for its workflow: hand the output on, give up, or look again.
    pub fn result(&self, found: Option<(ExecStatus, Option<Vec<u8>>)>) -> (waited: Waited)
        ensures
            match found {
                Some((ExecStatus::Completed, Some(output))) => waited matches Waited::Output(o)
                    && o@ == output@,
                Some((ExecStatus::Completed, None)) => waited matches Waited::Failed(m) && m@
                    == "completed without result"@,
                Some((ExecStatus::Failed, _)) => waited matches Waited::Failed(m) && m@
                    == "workflow failed"@,
                Some((ExecStatus::Running, _)) => waited == Waited::Again(5),
                None => waited matches Waited::Failed(m) && m@ == "no execution for workflow id "@
                    + self.workflow_id_view(),
            },
    {
        match found {
            Some((ExecStatus::Completed, Some(output))) => Waited::Output(output),
            Some((ExecStatus::Completed, None)) => Waited::Failed(
                String::from_str("completed without result"),
            ),
            Some((ExecStatus::Failed, _)) => Waited::Failed(String::from_str("workflow failed")),
            Some((ExecStatus::Running, _)) => Waited::Again(5),
            None => {
                let mut message = String::from_str("no execution for workflow id ");
                message.append(self.workflow_id.as_str());
                Waited::Failed(message)
            },
        }
    }
}

/// Why a signal was not delivered.
#[derive(Debug)]
pub enum SignalError {
    WorkflowNotFound,
    NotRunning,
    /// The store failed.
    Internal(String),
}

impl SignalError {
    /// The error as text.
    pub open spec fn text(self) -> Seq<char> {
        match self {
            SignalError::WorkflowNotFound => "no workflow with that id"@,
            SignalError::NotRunning => "workflow is not running"@,
            SignalError::Internal(reason) => reason@,
        }
    }

    /// The error as text.
    pub fn to_string(&self) -> (text: String)
        ensures
            text@ == self.text(),
            match *self {
                SignalError::WorkflowNotFound => text@ == "no workflow with that id"@,
                SignalError::NotRunning => text@ == "workflow is not running"@,
                SignalError::Internal(reason) => text@ == reason@,
            },
    {
        match self {
            SignalError::WorkflowNotFound => String::from_str("no workflow with that id"),
            SignalError::NotRunning => String::from_str("workflow is not running"),
            SignalError::Internal(reason) => reason.clone(),
        }
    }
}

/// What the sender of a signal is told.
pub fn outcome_to_result(outcome: SignalOutcome) -> (result: Result<(), SignalError>)
    ensures
        match outcome {
            SignalOutcome::Delivered => result is Ok,
            SignalOutcome::WorkflowNotFound => result == Err::<(), SignalError>(
                SignalError::WorkflowNotFound,
            ),
            SignalOutcome::NotRunning => result == Err::<(), SignalError>(SignalError::NotRunning),
        },
{
    match outcome {
        SignalOutcome::Delivered => Ok(()),
        SignalOutcome::WorkflowNotFound => Err(SignalError::WorkflowNotFound),
        SignalOutcome::NotRunning => Err(SignalError::NotRunning),
    }
}

/// How a round of a background loop went.
pub enum Round {
    /// There was something to do.
    Worked,
    /// There was nothing to do.
    Idle,
    /// It failed.
    Failed,
}

/// How many milliseconds a background loop waits before its next round.
pub fn pause_ms(round: Round) -> (ms: u64)
    ensures
        ms == match round {
            Round::Worked => 0u64,
            Round::Idle => 5,
            Round::Failed => 50,
        },
{
    match round {
        Round::Worked => 0,
        Round::Idle => 5,
        Round::Failed => 50,
    }
}

/// How many milliseconds pass between two sweeps for expired leases.
pub const SWEEP_MS: u64 = 15_000;


/// Expired leases are looked for every quarter of a minute: twice in the time of one
/// lease.
pub proof fn leases_are_swept_in_time()
    ensures
        SWEEP_MS == 15 * 1000,
        2 * SWEEP_MS == LEASE_TTL_MS,
{
}

} // verus!
