//! Writes.
use crate::bytes::opt_bytes;
use crate::engine::types::{opt_text, status_text_is_unambiguous, ExecStatus};
use crate::workflow::event::{Event, EventView};
use vstd::prelude::*;
use vstd::string::*;

verus! {

/// One change to a table.
pub enum Write {
    /// A new run that is running and has no result.
    InsertExecution {
        run_id: String,
        workflow_id: String,
        workflow_type: String,
        parent_run_id: Option<String>,
        parent_seq: Option<i64>,
        input: Vec<u8>,
    },
    /// A new event at that place of a run's history.
    AppendEvent { run_id: String, event_id: i64, event: Event, ts: i64 },
    /// A task that has not been tried, in place of one with the same number.
    PutTask { run_id: String, seq: i64, activity_type: String, input: Vec<u8>, next_run_at: i64 },
    /// A timer, in place of one with the same number.
    PutTimer { run_id: String, seq: i64, fire_at: i64 },
    /// The run has something new in its history.
    MarkRunnable { run_id: String, since: i64 },
    /// Where the run stands.
    SetStatus { run_id: String, status: ExecStatus, result: Option<Vec<u8>> },
    /// What was new in the run's history has been dealt with.
    ClearRunnable { run_id: String },
    /// A worker has the task until the lease expires.
    LeaseTask { run_id: String, seq: i64, attempt: i64, lease_expires_at: i64 },
    /// The task is done.
    FinishTask { run_id: String, seq: i64 },
    /// The task waits for another attempt.
    RequeueTask { run_id: String, seq: i64, next_run_at: i64 },
    /// The task is taken from its worker and waits, from the same time on as before.
    ReleaseTask { run_id: String, seq: i64 },
    /// The timer is gone.
    DeleteTimer { run_id: String, seq: i64 },
}

/// The contents of a [`Write`].
#[verifier::ext_equal]
pub enum WriteView {
    InsertExecution {
        run_id: Seq<char>,
        workflow_id: Seq<char>,
        workflow_type: Seq<char>,
        parent_run_id: Option<Seq<char>>,
        parent_seq: Option<i64>,
        input: Seq<u8>,
    },
    AppendEvent { run_id: Seq<char>, event_id: i64, event: EventView, ts: i64 },
    PutTask {
        run_id: Seq<char>,
        seq: i64,
        activity_type: Seq<char>,
        input: Seq<u8>,
        next_run_at: i64,
    },
    PutTimer { run_id: Seq<char>, seq: i64, fire_at: i64 },
    MarkRunnable { run_id: Seq<char>, since: i64 },
    SetStatus { run_id: Seq<char>, status: ExecStatus, result: Option<Seq<u8>> },
    ClearRunnable { run_id: Seq<char> },
    LeaseTask { run_id: Seq<char>, seq: i64, attempt: i64, lease_expires_at: i64 },
    FinishTask { run_id: Seq<char>, seq: i64 },
    RequeueTask { run_id: Seq<char>, seq: i64, next_run_at: i64 },
    ReleaseTask { run_id: Seq<char>, seq: i64 },
    DeleteTimer { run_id: Seq<char>, seq: i64 },
}

impl View for Write {
    type V = WriteView;

    open spec fn view(&self) -> WriteView {
        match *self {
            Write::InsertExecution {
                run_id,
                workflow_id,
                workflow_type,
                parent_run_id,
                parent_seq,
                input,
            } => WriteView::InsertExecution {
                run_id: run_id@,
                workflow_id: workflow_id@,
                workflow_type: workflow_type@,
                parent_run_id: opt_text(parent_run_id),
                parent_seq,
                input: input@,
            },
            Write::AppendEvent { run_id, event_id, event, ts } => WriteView::AppendEvent {
                run_id: run_id@,
                event_id,
                event: event@,
                ts,
            },
            Write::PutTask { run_id, seq, activity_type, input, next_run_at } =>
                WriteView::PutTask {
                run_id: run_id@,
                seq,
                activity_type: activity_type@,
                input: input@,
                next_run_at,
            },
            Write::PutTimer { run_id, seq, fire_at } => WriteView::PutTimer {
                run_id: run_id@,
                seq,
                fire_at,
            },
            Write::MarkRunnable { run_id, since } => WriteView::MarkRunnable {
                run_id: run_id@,
                since,
            },
            Write::SetStatus { run_id, status, result } => WriteView::SetStatus {
                run_id: run_id@,
                status,
                result: opt_bytes(result),
            },
            Write::ClearRunnable { run_id } => WriteView::ClearRunnable { run_id: run_id@ },
            Write::LeaseTask { run_id, seq, attempt, lease_expires_at } => WriteView::LeaseTask {
                run_id: run_id@,
                seq,
                attempt,
                lease_expires_at,
            },
            Write::FinishTask { run_id, seq } => WriteView::FinishTask { run_id: run_id@, seq },
            Write::RequeueTask { run_id, seq, next_run_at } => WriteView::RequeueTask {
                run_id: run_id@,
                seq,
                next_run_at,
            },
            Write::ReleaseTask { run_id, seq } => WriteView::ReleaseTask { run_id: run_id@, seq },
            Write::DeleteTimer { run_id, seq } => WriteView::DeleteTimer { run_id: run_id@, seq },
        }
    }
}

/// The contents of a list of writes.
pub open spec fn write_views(writes: Seq<Write>) -> Seq<WriteView> {
    writes.map_values(|w: Write| w@)
}

/// What a list of writes holds with one more at its end.
pub proof fn lemma_write_pushed(writes: Seq<Write>, w: Write)
    ensures
        write_views(writes.push(w)) == write_views(writes).push(w@),
{
    assert(write_views(writes.push(w)) =~= write_views(writes).push(w@));
}

/// The number under which an event stands in its table; the start of a run, signals
/// and change markers have none.
pub open spec fn seq_column_of(event: EventView) -> Option<i64> {
    match event.seq() {
        Some(seq) => Some(seq as i64),
        None => None,
    }
}

/// The number and the kind under which an event stands in its table.
pub fn columns(event: &Event) -> (columns: (Option<i64>, &'static str))
    ensures
        columns.0 == seq_column_of(event@),
        columns.1@ == event@.kind(),
{
    let seq: Option<i64> = match event.seq() {
        Some(seq) => Some(seq as i64),
        None => None,
    };
    (seq, event.kind())
}

/// The status of that stored form; anything else is taken for running.
pub open spec fn status_of(text: Seq<char>) -> ExecStatus {
    if text == ExecStatus::Completed.text() {
        ExecStatus::Completed
    } else if text == ExecStatus::Failed.text() {
        ExecStatus::Failed
    } else {
        ExecStatus::Running
    }
}

/// The status of that stored form; anything else is taken for running.
pub fn read_status(text: &str) -> (status: ExecStatus)
    ensures
        status == status_of(text@),
{
    let status = match ExecStatus::from_str(text) {
        Some(status) => status,
        None => ExecStatus::Running,
    };
    proof {
        if text@ == ExecStatus::Completed.text() {
            status_text_is_unambiguous(status, ExecStatus::Completed);
        } else if text@ == ExecStatus::Failed.text() {
            status_text_is_unambiguous(status, ExecStatus::Failed);
        }
    }
    status
}

} // verus!
