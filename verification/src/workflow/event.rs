//! What a run's history holds.
use crate::activity;
use crate::activity::error::ErrorView;
use crate::bytes::copy_bytes;
use crate::workflow::result::ChildResult;
use crate::workflow::retry::RetryPolicy;
use vstd::prelude::*;

verus! {

/// One entry of a run's history.
///
/// `ActivityScheduled`, `TimerStarted`, `ChildScheduled` and `Patched` echo the
/// commands of the workflow. `ActivityCompleted`, `ActivityFailed`, `TimerFired`,
/// `ChildCompleted` and `SignalReceived` are outcomes and inbound payloads.
#[derive(Debug, PartialEq, Eq)]
pub enum Event {
    WorkflowStarted { input: Vec<u8> },
    ActivityScheduled { seq: u64, activity_type: String, input: Vec<u8>, retry: RetryPolicy },
    ActivityCompleted { seq: u64, output: Vec<u8> },
    ActivityFailed { seq: u64, error: activity::Error },
    TimerStarted { seq: u64, duration_ms: u64 },
    TimerFired { seq: u64 },
    SignalReceived { name: String, payload: Vec<u8> },
    ChildScheduled { seq: u64, workflow_type: String, input: Vec<u8> },
    ChildCompleted { seq: u64, result: ChildResult },
    Patched { change_id: String },
}

/// The contents of an [`Event`].
#[verifier::ext_equal]
pub enum EventView {
    WorkflowStarted { input: Seq<u8> },
    ActivityScheduled { seq: u64, activity_type: Seq<char>, input: Seq<u8>, retry: RetryPolicy },
    ActivityCompleted { seq: u64, output: Seq<u8> },
    ActivityFailed { seq: u64, error: ErrorView },
    TimerStarted { seq: u64, duration_ms: u64 },
    TimerFired { seq: u64 },
    SignalReceived { name: Seq<char>, payload: Seq<u8> },
    ChildScheduled { seq: u64, workflow_type: Seq<char>, input: Seq<u8> },
    ChildCompleted { seq: u64, result: Result<Seq<u8>, Seq<char>> },
    Patched { change_id: Seq<char> },
}

impl View for Event {
    type V = EventView;

    open spec fn view(&self) -> EventView {
        match *self {
            Event::WorkflowStarted { input } => EventView::WorkflowStarted { input: input@ },
            Event::ActivityScheduled { seq, activity_type, input, retry } =>
                EventView::ActivityScheduled {
                seq,
                activity_type: activity_type@,
                input: input@,
                retry,
            },
            Event::ActivityCompleted { seq, output } => EventView::ActivityCompleted {
                seq,
                output: output@,
            },
            Event::ActivityFailed { seq, error } => EventView::ActivityFailed {
                seq,
                error: error@,
            },
            Event::TimerStarted { seq, duration_ms } => EventView::TimerStarted {
                seq,
                duration_ms,
            },
            Event::TimerFired { seq } => EventView::TimerFired { seq },
            Event::SignalReceived { name, payload } => EventView::SignalReceived {
                name: name@,
                payload: payload@,
            },
            Event::ChildScheduled { seq, workflow_type, input } => EventView::ChildScheduled {
                seq,
                workflow_type: workflow_type@,
                input: input@,
            },
            Event::ChildCompleted { seq, result } => EventView::ChildCompleted {
                seq,
                result: result@,
            },
            Event::Patched { change_id } => EventView::Patched { change_id: change_id@ },
        }
    }
}

impl Clone for Event {
    fn clone(&self) -> (r: Self)
        ensures
            r@ == self@,
    {
        match self {
            Event::WorkflowStarted { input } => Event::WorkflowStarted { input: copy_bytes(input) },
            Event::ActivityScheduled { seq, activity_type, input, retry } =>
                Event::ActivityScheduled {
                seq: *seq,
                activity_type: activity_type.clone(),
                input: copy_bytes(input),
                retry: *retry,
            },
            Event::ActivityCompleted { seq, output } => Event::ActivityCompleted {
                seq: *seq,
                output: copy_bytes(output),
            },
            Event::ActivityFailed { seq, error } => Event::ActivityFailed {
                seq: *seq,
                error: error.clone(),
            },
            Event::TimerStarted { seq, duration_ms } => Event::TimerStarted {
                seq: *seq,
                duration_ms: *duration_ms,
            },
            Event::TimerFired { seq } => Event::TimerFired { seq: *seq },
            Event::SignalReceived { name, payload } => Event::SignalReceived {
                name: name.clone(),
                payload: copy_bytes(payload),
            },
            Event::ChildScheduled { seq, workflow_type, input } => Event::ChildScheduled {
                seq: *seq,
                workflow_type: workflow_type.clone(),
                input: copy_bytes(input),
            },
            Event::ChildCompleted { seq, result } => Event::ChildCompleted {
                seq: *seq,
                result: result.clone(),
            },
            Event::Patched { change_id } => Event::Patched { change_id: change_id.clone() },
        }
    }
}

/// The contents of a history.
pub open spec fn event_views(events: Seq<Event>) -> Seq<EventView> {
    events.map_values(|e: Event| e@)
}

impl EventView {
    /// The name of the event's kind.
    pub open spec fn kind(self) -> Seq<char> {
        match self {
            EventView::WorkflowStarted { .. } => "WorkflowStarted"@,
            EventView::ActivityScheduled { .. } => "ActivityScheduled"@,
            EventView::ActivityCompleted { .. } => "ActivityCompleted"@,
            EventView::ActivityFailed { .. } => "ActivityFailed"@,
            EventView::TimerStarted { .. } => "TimerStarted"@,
            EventView::TimerFired { .. } => "TimerFired"@,
            EventView::SignalReceived { .. } => "SignalReceived"@,
            EventView::ChildScheduled { .. } => "ChildScheduled"@,
            EventView::ChildCompleted { .. } => "ChildCompleted"@,
            EventView::Patched { .. } => "Patched"@,
        }
    }

    /// The sequence number that the event carries. The start of the run, inbound
    /// signals and change markers carry none.
    pub open spec fn seq(self) -> Option<u64> {
        match self {
            EventView::ActivityScheduled { seq, .. } => Some(seq),
            EventView::ActivityCompleted { seq, .. } => Some(seq),
            EventView::ActivityFailed { seq, .. } => Some(seq),
            EventView::TimerStarted { seq, .. } => Some(seq),
            EventView::TimerFired { seq } => Some(seq),
            EventView::ChildScheduled { seq, .. } => Some(seq),
            EventView::ChildCompleted { seq, .. } => Some(seq),
            EventView::WorkflowStarted { .. } => None,
            EventView::SignalReceived { .. } => None,
            EventView::Patched { .. } => None,
        }
    }
}

impl Event {
    /// The name of the event's kind.
    pub fn kind(&self) -> (kind: &'static str)
        ensures
            kind@ == self@.kind(),
    {
        match self {
            Event::WorkflowStarted { .. } => "WorkflowStarted",
            Event::ActivityScheduled { .. } => "ActivityScheduled",
            Event::ActivityCompleted { .. } => "ActivityCompleted",
            Event::ActivityFailed { .. } => "ActivityFailed",
            Event::TimerStarted { .. } => "TimerStarted",
            Event::TimerFired { .. } => "TimerFired",
            Event::SignalReceived { .. } => "SignalReceived",
            Event::ChildScheduled { .. } => "ChildScheduled",
            Event::ChildCompleted { .. } => "ChildCompleted",
            Event::Patched { .. } => "Patched",
        }
    }

    /// The sequence number that the event carries, if it carries one.
    pub fn seq(&self) -> (seq: Option<u64>)
        ensures
            seq == self@.seq(),
    {
        match self {
            Event::ActivityScheduled { seq, .. } => Some(*seq),
            Event::ActivityCompleted { seq, .. } => Some(*seq),
            Event::ActivityFailed { seq, .. } => Some(*seq),
            Event::TimerStarted { seq, .. } => Some(*seq),
            Event::TimerFired { seq } => Some(*seq),
            Event::ChildScheduled { seq, .. } => Some(*seq),
            Event::ChildCompleted { seq, .. } => Some(*seq),
            Event::WorkflowStarted { .. } => None,
            Event::SignalReceived { .. } => None,
            Event::Patched { .. } => None,
        }
    }
}

} // verus!
