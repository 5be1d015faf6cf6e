//! What a turn adds to the history.
use crate::workflow::command::CommandView;
use crate::workflow::event::EventView;
use crate::workflow::life::CommandKey;
use crate::workflow::replay::{markers, recorded};
use vstd::prelude::*;

verus! {

impl CommandView {
    /// The event that records the command.
    pub open spec fn echo(self) -> EventView {
        match self {
            CommandView::ScheduleActivity { seq, activity_type, input, retry } =>
                EventView::ActivityScheduled { seq, activity_type, input, retry },
            CommandView::StartTimer { seq, duration_ms } => EventView::TimerStarted {
                seq,
                duration_ms,
            },
            CommandView::StartChild { seq, workflow_type, input } => EventView::ChildScheduled {
                seq,
                workflow_type,
                input,
            },
            CommandView::RecordPatch { change_id } => EventView::Patched { change_id },
        }
    }
}

/// Whether the history holds a record under the command's key.
pub open spec fn is_recorded(history: Seq<EventView>, command: CommandView) -> bool {
    match command.key() {
        CommandKey::Number(seq) => recorded(history).contains_key(seq),
        CommandKey::Marker(change_id) => markers(history).contains(change_id),
    }
}

/// The commands that the history does not hold yet, in their order.
pub open spec fn unrecorded(history: Seq<EventView>, commands: Seq<CommandView>) -> Seq<
    CommandView,
>
    decreases commands.len(),
{
    if commands.len() == 0 {
        Seq::empty()
    } else {
        let before = unrecorded(history, commands.drop_last());
        if is_recorded(history, commands.last()) {
            before
        } else {
            before.push(commands.last())
        }
    }
}

/// The events that record commands, in their order.
pub open spec fn echoes(commands: Seq<CommandView>) -> Seq<EventView> {
    commands.map_values(|c: CommandView| c.echo())
}

} // verus!
