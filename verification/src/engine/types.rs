//! What passes between the engine and its store.
use crate::bytes::opt_bytes;
use crate::workflow::event::{event_views, Event, EventView};
use crate::workflow::retry::RetryPolicy;
use vstd::prelude::*;
use vstd::string::*;

verus! {

/// Where a run stands.
#[derive(Debug, Clone, Copy, PartialEq, Eq, Structural)]
pub enum ExecStatus {
    Running,
    Completed,
    Failed,
}

impl ExecStatus {
    /// The stored form of the status.
    pub open spec fn text(self) -> Seq<char> {
        match self {
            ExecStatus::Running => "running"@,
            ExecStatus::Completed => "completed"@,
            ExecStatus::Failed => "failed"@,
        }
    }

    /// Whether the run is over.
    pub open spec fn terminal(self) -> bool {
        self != ExecStatus::Running
    }

    /// The stored form of the status.
    pub fn as_str(&self) -> (text: &'static str)
        ensures
            text@ == self.text(),
    {
        match self {
            ExecStatus::Running => "running",
            ExecStatus::Completed => "completed",
            ExecStatus::Failed => "failed",
        }
    }

    /// The status of that stored form.
    pub fn from_str(s: &str) -> (status: Option<Self>)
        ensures
            match status {
                Some(status) => s@ == status.text(),
                None => forall|status: ExecStatus| s@ != #[trigger] status.text(),
            },
    {
        let s = String::from_str(s);
        if s == String::from_str("running") {
            Some(ExecStatus::Running)
        } else if s == String::from_str("completed") {
            Some(ExecStatus::Completed)
        } else if s == String::from_str("failed") {
            Some(ExecStatus::Failed)
        } else {
            None
        }
    }
}

/// Every status is read back as what it was written as.
pub proof fn status_text_is_unambiguous(a: ExecStatus, b: ExecStatus)
    requires
        a.text() == b.text(),
    ensures
        a == b,
{
    reveal_strlit("running");
    reveal_strlit("completed");
    reveal_strlit("failed");
    assert("running"@[0] != "completed"@[0]);
    assert("running"@[0] != "failed"@[0]);
    assert("completed"@[0] != "failed"@[0]);
}

/// An event with its place in the history.
#[derive(Debug, PartialEq, Eq)]
pub struct StoredEvent {
    pub event_id: i64,
    pub event: Event,
}

impl Clone for StoredEvent {
    fn clone(&self) -> (r: Self)
        ensures
            r.event_id == self.event_id,
            r.event@ == self.event@,
    {
        StoredEvent { event_id: self.event_id, event: self.event.clone() }
    }
}

/// The contents of a stored history, without the places.
pub open spec fn stored_event_views(events: Seq<StoredEvent>) -> Seq<EventView> {
    events.map_values(|e: StoredEvent| e.event@)
}

/// An activity to run. `next_run_at` is in milliseconds since the epoch.
#[derive(Debug, Clone, PartialEq, Eq)]
pub struct NewActivityTask {
    pub seq: i64,
    pub activity_type: String,
    pub input: Vec<u8>,
    pub next_run_at: i64,
}

/// The contents of a [`NewActivityTask`].
#[verifier::ext_equal]
pub struct NewActivityTaskView {
    pub seq: i64,
    pub activity_type: Seq<char>,
    pub input: Seq<u8>,
    pub next_run_at: i64,
}

impl View for NewActivityTask {
    type V = NewActivityTaskView;

    open spec fn view(&self) -> NewActivityTaskView {
        NewActivityTaskView {
            seq: self.seq,
            activity_type: self.activity_type@,
            input: self.input@,
            next_run_at: self.next_run_at,
        }
    }
}

/// A timer to start. `fire_at` is in milliseconds since the epoch.
#[derive(Debug, Clone, Copy, PartialEq, Eq, Structural)]
pub struct NewTimer {
    pub seq: i64,
    pub fire_at: i64,
}

/// A child workflow to create. `seq` is that of the parent's command.
#[derive(Debug, Clone, PartialEq, Eq)]
pub struct NewChild {
    pub seq: i64,
    pub child_run_id: String,
    pub child_workflow_id: String,
    pub workflow_type: String,
    pub input: Vec<u8>,
}

/// The contents of a [`NewChild`].
#[verifier::ext_equal]
pub struct NewChildView {
    pub seq: i64,
    pub child_run_id: Seq<char>,
    pub child_workflow_id: Seq<char>,
    pub workflow_type: Seq<char>,
    pub input: Seq<u8>,
}

impl View for NewChild {
    type V = NewChildView;

    open spec fn view(&self) -> NewChildView {
        NewChildView {
            seq: self.seq,
            child_run_id: self.child_run_id@,
            child_workflow_id: self.child_workflow_id@,
            workflow_type: self.workflow_type@,
            input: self.input@,
        }
    }
}

/// What a run that ends adds to the history of its parent.
#[derive(Debug, Clone, PartialEq, Eq)]
pub struct ParentNotify {
    pub parent_run_id: String,
    pub event: Event,
}

/// The contents of a [`ParentNotify`].
#[verifier::ext_equal]
pub struct ParentNotifyView {
    pub parent_run_id: Seq<char>,
    pub event: EventView,
}

impl View for ParentNotify {
    type V = ParentNotifyView;

    open spec fn view(&self) -> ParentNotifyView {
        ParentNotifyView { parent_run_id: self.parent_run_id@, event: self.event@ }
    }
}

/// Everything that one decision turn commits, in one transaction. A run that is
/// over has a result.
#[derive(Debug, Clone, PartialEq, Eq)]
pub struct TurnCommit {
    pub events: Vec<Event>,
    pub new_tasks: Vec<NewActivityTask>,
    pub new_timers: Vec<NewTimer>,
    pub new_children: Vec<NewChild>,
    pub parent_notify: Option<ParentNotify>,
    pub status: ExecStatus,
    pub result: Option<Vec<u8>>,
}

/// The contents of a [`TurnCommit`].
#[verifier::ext_equal]
pub struct TurnCommitView {
    pub events: Seq<EventView>,
    pub new_tasks: Seq<NewActivityTaskView>,
    pub new_timers: Seq<NewTimer>,
    pub new_children: Seq<NewChildView>,
    pub parent_notify: Option<ParentNotifyView>,
    pub status: ExecStatus,
    pub result: Option<Seq<u8>>,
}

/// The contents of an optional notification.
pub open spec fn notify_view(notify: Option<ParentNotify>) -> Option<ParentNotifyView> {
    match notify {
        Some(n) => Some(n@),
        None => None,
    }
}

/// The contents of a list of tasks.
pub open spec fn task_views(tasks: Seq<NewActivityTask>) -> Seq<NewActivityTaskView> {
    tasks.map_values(|t: NewActivityTask| t@)
}

/// The contents of a list of children.
pub open spec fn child_views(children: Seq<NewChild>) -> Seq<NewChildView> {
    children.map_values(|c: NewChild| c@)
}

impl View for TurnCommit {
    type V = TurnCommitView;

    open spec fn view(&self) -> TurnCommitView {
        TurnCommitView {
            events: event_views(self.events@),
            new_tasks: task_views(self.new_tasks@),
            new_timers: self.new_timers@,
            new_children: child_views(self.new_children@),
            parent_notify: notify_view(self.parent_notify),
            status: self.status,
            result: opt_bytes(self.result),
        }
    }
}

/// An activity task that a worker has taken. `attempt` counts from 1.
#[derive(Debug, Clone, PartialEq, Eq)]
pub struct ActivityLease {
    pub run_id: String,
    pub workflow_id: String,
    pub seq: i64,
    pub activity_type: String,
    pub input: Vec<u8>,
    pub attempt: u32,
    pub retry: RetryPolicy,
}

/// Whether a start made a new run.
#[derive(Debug, Clone, Copy, PartialEq, Eq, Structural)]
pub enum CreateOutcome {
    Created,
    AlreadyExists,
}

/// What became of a signal.
#[derive(Debug, Clone, Copy, PartialEq, Eq, Structural)]
pub enum SignalOutcome {
    Delivered,
    WorkflowNotFound,
    NotRunning,
}

/// What the store knows of one run.
#[derive(Debug, Clone, PartialEq, Eq)]
pub struct RunMeta {
    pub run_id: String,
    pub workflow_id: String,
    pub workflow_type: String,
    pub status: ExecStatus,
    pub parent_run_id: Option<String>,
    pub parent_seq: Option<i64>,
}

/// The contents of a [`RunMeta`].
#[verifier::ext_equal]
pub struct RunMetaView {
    pub run_id: Seq<char>,
    pub workflow_id: Seq<char>,
    pub workflow_type: Seq<char>,
    pub status: ExecStatus,
    pub parent_run_id: Option<Seq<char>>,
    pub parent_seq: Option<i64>,
}

impl View for RunMeta {
    type V = RunMetaView;

    open spec fn view(&self) -> RunMetaView {
        RunMetaView {
            run_id: self.run_id@,
            workflow_id: self.workflow_id@,
            workflow_type: self.workflow_type@,
            status: self.status,
            parent_run_id: opt_text(self.parent_run_id),
            parent_seq: self.parent_seq,
        }
    }
}

/// The contents of an optional text.
pub open spec fn opt_text(text: Option<String>) -> Option<Seq<char>> {
    match text {
        Some(t) => Some(t@),
        None => None,
    }
}

/// One line of the list of runs.
#[derive(Debug, Clone, PartialEq, Eq)]
pub struct ExecutionSummary {
    pub run_id: String,
    pub workflow_id: String,
    pub workflow_type: String,
    pub status: ExecStatus,
    pub started_at: i64,
    pub last_event_at: i64,
    pub event_count: i64,
}

/// One event as the history viewer shows it: with its time and, where it speaks of
/// a child, the child's run.
#[derive(Debug, Clone, PartialEq, Eq)]
pub struct HistoryRecord {
    pub event_id: i64,
    pub ts: i64,
    pub event: Event,
    pub child_run_id: Option<String>,
}

} // verus!
