//! What a workflow asks of the engine.
use crate::bytes::copy_bytes;
use crate::workflow::retry::RetryPolicy;
use vstd::prelude::*;

verus! {

/// One request of a workflow body. All but the change marker carry the sequence
/// number under which their outcome will be recorded.
#[derive(Debug, PartialEq, Eq)]
pub enum Command {
    ScheduleActivity { seq: u64, activity_type: String, input: Vec<u8>, retry: RetryPolicy },
    StartTimer { seq: u64, duration_ms: u64 },
    StartChild { seq: u64, workflow_type: String, input: Vec<u8> },
    RecordPatch { change_id: String },
}

/// The contents of a [`Command`].
#[verifier::ext_equal]
pub enum CommandView {
    ScheduleActivity { seq: u64, activity_type: Seq<char>, input: Seq<u8>, retry: RetryPolicy },
    StartTimer { seq: u64, duration_ms: u64 },
    StartChild { seq: u64, workflow_type: Seq<char>, input: Seq<u8> },
    RecordPatch { change_id: Seq<char> },
}

impl CommandView {
    /// The command's sequence number; the change marker has none.
    pub open spec fn seq(self) -> Option<u64> {
        match self {
            CommandView::ScheduleActivity { seq, .. } => Some(seq),
            CommandView::StartTimer { seq, .. } => Some(seq),
            CommandView::StartChild { seq, .. } => Some(seq),
            CommandView::RecordPatch { .. } => None,
        }
    }
}

impl View for Command {
    type V = CommandView;

    open spec fn view(&self) -> CommandView {
        match *self {
            Command::ScheduleActivity { seq, activity_type, input, retry } =>
                CommandView::ScheduleActivity {
                seq,
                activity_type: activity_type@,
                input: input@,
                retry,
            },
            Command::StartTimer { seq, duration_ms } => CommandView::StartTimer {
                seq,
                duration_ms,
            },
            Command::StartChild { seq, workflow_type, input } => CommandView::StartChild {
                seq,
                workflow_type: workflow_type@,
                input: input@,
            },
            Command::RecordPatch { change_id } => CommandView::RecordPatch {
                change_id: change_id@,
            },
        }
    }
}

impl Clone for Command {
    fn clone(&self) -> (r: Self)
        ensures
            r@ == self@,
    {
        match self {
            Command::ScheduleActivity { seq, activity_type, input, retry } =>
                Command::ScheduleActivity {
                seq: *seq,
                activity_type: activity_type.clone(),
                input: copy_bytes(input),
                retry: *retry,
            },
            Command::StartTimer { seq, duration_ms } => Command::StartTimer {
                seq: *seq,
                duration_ms: *duration_ms,
            },
            Command::StartChild { seq, workflow_type, input } => Command::StartChild {
                seq: *seq,
                workflow_type: workflow_type.clone(),
                input: copy_bytes(input),
            },
            Command::RecordPatch { change_id } => Command::RecordPatch {
                change_id: change_id.clone(),
            },
        }
    }
}

/// The contents of a list of commands.
pub open spec fn command_views(commands: Seq<Command>) -> Seq<CommandView> {
    commands.map_values(|c: Command| c@)
}

} // verus!
