//! What a replay and its history agree on.
use crate::text::decimal;
use crate::workflow::command::CommandView;
use crate::workflow::context::ContextView;
use crate::workflow::def::Definition;
use crate::workflow::event::EventView;
use crate::workflow::info::InfoView;
use crate::workflow::replay::{
    divergence, drive, mismatch, outcomes, recorded, replay, replay_start, NondeterminismView,
    Recorded, ReplayOutcomeView,
};
use vstd::prelude::*;

verus! {

/// Whether an event says that a command went out under the number `seq`.
pub open spec fn notes(event: EventView, seq: u64) -> bool {
    match event {
        EventView::ActivityScheduled { seq: number, .. } => number == seq,
        EventView::TimerStarted { seq: number, .. } => number == seq,
        EventView::ChildScheduled { seq: number, .. } => number == seq,
        _ => false,
    }
}

/// Whether event `k` is the last of a history to say that a command went out under the
/// number `seq`.
pub open spec fn notes_last(history: Seq<EventView>, k: int, seq: u64) -> bool {
    &&& 0 <= k < history.len()
    &&& notes(history[k], seq)
    &&& forall|j: int| k < j < history.len() ==> !notes(#[trigger] history[j], seq)
}

/// Whether a command goes out under the number `seq`.
pub open spec fn goes_under(command: CommandView, seq: u64) -> bool {
    match command {
        CommandView::ScheduleActivity { seq: number, .. } => number == seq,
        CommandView::StartTimer { seq: number, .. } => number == seq,
        CommandView::StartChild { seq: number, .. } => number == seq,
        CommandView::RecordPatch { .. } => false,
    }
}

/// Whether a command and an event speak of the same thing: an activity of the same type
/// on the same input, a timer of the same duration, or a child of the same type on the
/// same input, under the same number. How often an activity is tried does not count.
pub open spec fn agrees(command: CommandView, event: EventView) -> bool {
    match (command, event) {
        (
            CommandView::ScheduleActivity { seq: s, activity_type: t, input: i, .. },
            EventView::ActivityScheduled { seq, activity_type, input, .. },
        ) => s == seq && t == activity_type && i == input,
        (
            CommandView::StartTimer { seq: s, duration_ms: d },
            EventView::TimerStarted { seq, duration_ms },
        ) => s == seq && d == duration_ms,
        (
            CommandView::StartChild { seq: s, workflow_type: t, input: i },
            EventView::ChildScheduled { seq, workflow_type, input },
        ) => s == seq && t == workflow_type && i == input,
        _ => false,
    }
}

/// Whether a command is another than the one that the history has last under its number.
pub open spec fn departs(history: Seq<EventView>, command: CommandView, seq: u64) -> bool {
    goes_under(command, seq) && exists|k: int|
        #[trigger] notes_last(history, k, seq) && !agrees(command, history[k])
}

/// What a workflow does when it is driven by a history from its start.
pub open spec fn deeds<W: Definition>(info: InfoView, history: Seq<EventView>) -> ReplayOutcomeView {
    drive::<W>(
        replay_start::<W>(info, history, W::started(history[0]->WorkflowStarted_input)->Ok_0),
        outcomes(history),
        0,
    )
}

/// A replay that goes through agrees with its history: a command that went out under a
/// number which the history has is the one that the history has there.
pub proof fn replays_agree_with_their_history<W: Definition>(
    info: InfoView,
    history: Seq<EventView>,
    i: int,
    seq: u64,
    k: int,
)
    requires
        replay::<W>(info, history) is Ok,
        0 <= i < replay::<W>(info, history)->Ok_0.commands.len(),
        goes_under(replay::<W>(info, history)->Ok_0.commands[i], seq),
        notes_last(history, k, seq),
    ensures
        agrees(replay::<W>(info, history)->Ok_0.commands[i], history[k]),
{
    let commands = replay::<W>(info, history)->Ok_0.commands;
    lemma_departure(history, commands[i], seq, k);
    lemma_first_departure(history, commands);
}

/// A workflow that does something else under a number than its history has there does
/// not replay: another kind of command, another type, another input or another duration
/// is an error, and so is nothing but that. The error has the number of the first such
/// command.
pub proof fn departures_are_noticed<W: Definition>(info: InfoView, history: Seq<EventView>)
    requires
        history.len() > 0,
        history[0] is WorkflowStarted,
        W::started(history[0]->WorkflowStarted_input) is Ok,
    ensures
        match replay::<W>(info, history) {
            Ok(outcome) => outcome == deeds::<W>(info, history) && forall|i: int, seq: u64|
                0 <= i < outcome.commands.len() ==> !#[trigger] departs(
                    history,
                    outcome.commands[i],
                    seq,
                ),
            Err(wrong) => exists|i: int|
                0 <= i < deeds::<W>(info, history).commands.len() && departs(
                    history,
                    #[trigger] deeds::<W>(info, history).commands[i],
                    wrong.seq,
                ) && forall|j: int, seq: u64|
                    0 <= j < i ==> !#[trigger] departs(
                        history,
                        deeds::<W>(info, history).commands[j],
                        seq,
                    ),
        },
{
    let commands = deeds::<W>(info, history).commands;
    lemma_first_departure(history, commands);
    match replay::<W>(info, history) {
        Ok(outcome) => {
            assert forall|i: int, seq: u64| 0 <= i < outcome.commands.len() implies !(
            #[trigger] departs(history, outcome.commands[i], seq)) by {
                if departs(history, commands[i], seq) {
                    let k = choose|k: int|
                        #[trigger] notes_last(history, k, seq) && !agrees(commands[i], history[k]);
                    lemma_departure(history, commands[i], seq, k);
                }
            }
        },
        Err(wrong) => {
            let i = choose|i: int|
                0 <= i < commands.len() && mismatch(recorded(history), #[trigger] commands[i])
                    == Some(wrong) && forall|j: int|
                    0 <= j < i ==> mismatch(recorded(history), #[trigger] commands[j]) is None;
            lemma_last_note(history, wrong.seq);
            let k = choose|k: int| #[trigger] notes_last(history, k, wrong.seq);
            lemma_departure(history, commands[i], wrong.seq, k);
            assert(departs(history, commands[i], wrong.seq));
            assert forall|j: int, seq: u64| 0 <= j < i implies !(#[trigger] departs(
                history,
                commands[j],
                seq,
            )) by {
                assert(mismatch(recorded(history), commands[j]) is None);
                if departs(history, commands[j], seq) {
                    let k = choose|k: int|
                        #[trigger] notes_last(history, k, seq) && !agrees(commands[j], history[k]);
                    lemma_departure(history, commands[j], seq, k);
                }
            }
        },
    }
}

/// A change in any command that the history has, be it in its kind, its type, its input
/// or its duration, makes the replay an error.
pub proof fn changed_commands_are_errors<W: Definition>(
    info: InfoView,
    history: Seq<EventView>,
    i: int,
    seq: u64,
    k: int,
)
    requires
        history.len() > 0,
        history[0] is WorkflowStarted,
        W::started(history[0]->WorkflowStarted_input) is Ok,
        0 <= i < deeds::<W>(info, history).commands.len(),
        goes_under(deeds::<W>(info, history).commands[i], seq),
        notes_last(history, k, seq),
        !agrees(deeds::<W>(info, history).commands[i], history[k]),
    ensures
        replay::<W>(info, history) is Err,
{
    departures_are_noticed::<W>(info, history);
    assert(departs(history, deeds::<W>(info, history).commands[i], seq));
}

/// The error names both sides: what the history has, under which number, and what the
/// workflow did.
pub proof fn errors_name_both_sides(history: Seq<EventView>, command: CommandView, seq: u64, k: int)
    requires
        goes_under(command, seq),
        notes_last(history, k, seq),
        !agrees(command, history[k]),
    ensures
        mismatch(recorded(history), command) == Some(
            NondeterminismView {
                seq,
                detail: "history recorded "@ + match history[k] {
                    EventView::ActivityScheduled { activity_type, .. } => "activity "@
                        + activity_type,
                    EventView::TimerStarted { duration_ms, .. } => "timer "@ + decimal(
                        duration_ms as nat,
                    ) + "ms"@,
                    EventView::ChildScheduled { workflow_type, .. } => "child "@ + workflow_type,
                    _ => Seq::empty(),
                } + " at seq "@ + decimal(seq as nat) + ", workflow emitted "@ + match command {
                    CommandView::ScheduleActivity { activity_type, .. } => "activity "@
                        + activity_type,
                    CommandView::StartTimer { duration_ms, .. } => "timer "@ + decimal(
                        duration_ms as nat,
                    ) + "ms"@,
                    CommandView::StartChild { workflow_type, .. } => "child "@ + workflow_type,
                    CommandView::RecordPatch { .. } => Seq::empty(),
                },
            },
        ),
{
    lemma_departure(history, command, seq, k);
    lemma_last_record(history, seq, k);
}

/// A history that does not tell of the start of the run, or whose input the workflow
/// cannot read, does not replay.
pub proof fn replays_need_a_start<W: Definition>(info: InfoView, history: Seq<EventView>)
    ensures
        history.len() == 0 || !(history[0] is WorkflowStarted) ==> replay::<W>(info, history)
            == Err::<ReplayOutcomeView, NondeterminismView>(
            NondeterminismView { seq: 0, detail: "history must start with WorkflowStarted"@ },
        ),
        history.len() > 0 && history[0] is WorkflowStarted ==> (W::started(
            history[0]->WorkflowStarted_input,
        ) matches Err(reason) ==> replay::<W>(info, history) == Err::<
            ReplayOutcomeView,
            NondeterminismView,
        >(NondeterminismView { seq: 0, detail: "input deserialize: "@ + reason })),
{
}

/// The outcomes of a history are its completed and failed activities, its fired timers,
/// its signals and its completed children, each once and in their order.
pub proof fn outcomes_are_what_came_in(history: Seq<EventView>, event: EventView)
    ensures
        outcomes(Seq::empty()) == Seq::<EventView>::empty(),
        event is ActivityCompleted || event is ActivityFailed || event is TimerFired
            || event is SignalReceived || event is ChildCompleted ==> outcomes(history.push(event))
            == outcomes(history).push(event),
        event is WorkflowStarted || event is ActivityScheduled || event is TimerStarted
            || event is ChildScheduled || event is Patched ==> outcomes(history.push(event))
            == outcomes(history),
{
    reveal(Seq::filter);
    assert(history.push(event).drop_last() =~= history);
}

/// An outcome is told to the workflow as it is recorded, under its number or its name,
/// and nothing else changes.
pub proof fn outcomes_are_told_as_recorded(ctx: ContextView, event: EventView, name: Seq<char>)
    ensures
        match event {
            EventView::ActivityCompleted { seq, output } => ctx.with_outcome(event) == (
            ContextView { results: ctx.results.insert(seq, Ok(output)), ..ctx }),
            EventView::ActivityFailed { seq, error } => ctx.with_outcome(event) == (
            ContextView { results: ctx.results.insert(seq, Err(error)), ..ctx }),
            EventView::TimerFired { seq } => ctx.with_outcome(event) == (ContextView {
                fired: ctx.fired.insert(seq),
                ..ctx
            }),
            EventView::ChildCompleted { seq, result } => ctx.with_outcome(event) == (ContextView {
                child_results: ctx.child_results.insert(seq, result),
                ..ctx
            }),
            EventView::SignalReceived { name: sent, payload } => {
                let told = ctx.with_outcome(event);
                let before = if ctx.signals.contains_key(name) {
                    ctx.signals[name]
                } else {
                    Seq::empty()
                };
                &&& told == (ContextView { signals: told.signals, ..ctx })
                &&& name == sent ==> told.signals.contains_key(name) && told.signals[name]
                    == before.push(payload)
                &&& name != sent ==> told.signals.contains_key(name) == ctx.signals.contains_key(
                    name,
                ) && told.signals[name] == ctx.signals[name]
            },
            _ => ctx.with_outcome(event) == ctx,
        },
{
}

/// What the history records under a number is what it says there last.
proof fn lemma_last_record(history: Seq<EventView>, seq: u64, k: int)
    requires
        notes_last(history, k, seq),
    ensures
        recorded(history).contains_key(seq),
        history[k].recorded() == Some(recorded(history)[seq]),
    decreases history.len(),
{
    let before = history.drop_last();
    if k < history.len() - 1 {
        assert forall|j: int| k < j < before.len() implies !notes(#[trigger] before[j], seq) by {
            assert(before[j] == history[j]);
        }
        lemma_last_record(before, seq, k);
        assert(!notes(history[history.len() - 1], seq));
    }
}

/// A number that the history records is noted somewhere for the last time.
proof fn lemma_last_note(history: Seq<EventView>, seq: u64)
    requires
        recorded(history).contains_key(seq),
    ensures
        exists|k: int| #[trigger] notes_last(history, k, seq),
    decreases history.len(),
{
    if history.len() > 0 {
        let last = history.len() - 1;
        if notes(history[last], seq) {
            assert(notes_last(history, last, seq));
        } else {
            let before = history.drop_last();
            lemma_last_note(before, seq);
            let k = choose|k: int| #[trigger] notes_last(before, k, seq);
            assert forall|j: int| k < j < history.len() implies !notes(
                #[trigger] history[j],
                seq,
            ) by {
                if j < last {
                    assert(before[j] == history[j]);
                }
            }
            assert(notes_last(history, k, seq));
        }
    }
}

/// A command is at odds with what the history records if it does not agree with it.
proof fn lemma_departure(history: Seq<EventView>, command: CommandView, seq: u64, k: int)
    requires
        goes_under(command, seq),
        notes_last(history, k, seq),
    ensures
        mismatch(recorded(history), command) is Some <==> !agrees(command, history[k]),
        mismatch(recorded(history), command) matches Some(wrong) ==> wrong.seq == seq,
{
    lemma_last_record(history, seq, k);
}

/// The first command that is at odds with a history decides.
proof fn lemma_first_departure(history: Seq<EventView>, commands: Seq<CommandView>)
    ensures
        match divergence(recorded(history), commands) {
            None => forall|i: int|
                0 <= i < commands.len() ==> mismatch(
                    recorded(history),
                    #[trigger] commands[i],
                ) is None,
            Some(wrong) => exists|i: int|
                0 <= i < commands.len() && mismatch(recorded(history), #[trigger] commands[i])
                    == Some(wrong) && recorded(history).contains_key(wrong.seq) && goes_under(
                    commands[i],
                    wrong.seq,
                ) && forall|j: int|
                    0 <= j < i ==> mismatch(recorded(history), #[trigger] commands[j]) is None,
        },
    decreases commands.len(),
{
    if commands.len() > 0 {
        let told = recorded(history);
        let before = commands.drop_last();
        let last = commands.len() - 1;
        lemma_first_departure(history, before);
        match divergence(told, before) {
            Some(wrong) => {
                let i = choose|i: int|
                    0 <= i < before.len() && mismatch(told, #[trigger] before[i]) == Some(wrong)
                        && told.contains_key(wrong.seq) && goes_under(before[i], wrong.seq)
                        && forall|j: int|
                        0 <= j < i ==> mismatch(told, #[trigger] before[j]) is None;
                assert(commands[i] == before[i]);
                assert forall|j: int| 0 <= j < i implies mismatch(
                    told,
                    #[trigger] commands[j],
                ) is None by {
                    assert(before[j] == commands[j]);
                }
            },
            None => {
                assert forall|j: int| 0 <= j < last implies mismatch(
                    told,
                    #[trigger] commands[j],
                ) is None by {
                    assert(before[j] == commands[j]);
                }
                assert(commands[last] == commands.last());
            },
        }
    }
}

} // verus!
