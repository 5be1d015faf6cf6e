//! Replaying a run from its history.
use crate::bytes::{copy_bytes, same_bytes};
use crate::text::{decimal, u64_text};
use crate::workflow::command::{command_views, Command, CommandView};
use crate::workflow::context::ContextView;
use crate::workflow::def::{comes_to_rest, Definition};
use crate::workflow::error::Error;
use crate::workflow::event::{event_views, Event, EventView};
use crate::workflow::info::{Info, InfoView};
use crate::workflow::poll::Poll;
use crate::workflow::result::{result_view, CommandResult};
use crate::workflow::state::{turn, RunView, WorkflowState};
use std::collections::HashMap;
use vstd::prelude::*;
use vstd::string::*;

verus! {

broadcast use vstd::std_specs::hash::group_hash_axioms;

/// What a replay gives: every command that the workflow emitted, and its result if
/// it got to its end. A workflow that ends with an error has a result; a history
/// that ends in mid-flight leaves none.
#[derive(Debug, PartialEq, Eq)]
pub struct ReplayOutcome {
    pub commands: Vec<Command>,
    pub completion: Option<Result<Vec<u8>, Error>>,
}

/// The contents of a [`ReplayOutcome`].
#[verifier::ext_equal]
pub struct ReplayOutcomeView {
    pub commands: Seq<CommandView>,
    pub completion: Option<Result<Seq<u8>, Seq<char>>>,
}

/// The contents of an optional workflow result.
pub open spec fn completion_view(completion: Option<Result<Vec<u8>, Error>>) -> Option<
    Result<Seq<u8>, Seq<char>>,
> {
    match completion {
        Some(result) => Some(result_view(result)),
        None => None,
    }
}

impl View for ReplayOutcome {
    type V = ReplayOutcomeView;

    open spec fn view(&self) -> ReplayOutcomeView {
        ReplayOutcomeView {
            commands: command_views(self.commands@),
            completion: completion_view(self.completion),
        }
    }
}

/// The workflow did something else than its history says.
#[derive(Debug, PartialEq, Eq)]
pub struct Nondeterminism {
    pub seq: u64,
    pub detail: String,
}

/// The contents of a [`Nondeterminism`].
#[verifier::ext_equal]
pub struct NondeterminismView {
    pub seq: u64,
    pub detail: Seq<char>,
}

impl View for Nondeterminism {
    type V = NondeterminismView;

    open spec fn view(&self) -> NondeterminismView {
        NondeterminismView { seq: self.seq, detail: self.detail@ }
    }
}

impl NondeterminismView {
    /// The error as text.
    pub open spec fn text(self) -> Seq<char> {
        "nondeterminism at seq "@ + decimal(self.seq as nat) + ": "@ + self.detail
    }
}

impl Nondeterminism {
    /// The error as text.
    pub fn to_string(&self) -> (text: String)
        ensures
            text@ == self@.text(),
    {
        let mut text = String::from_str("nondeterminism at seq ");
        text.append(u64_text(self.seq).as_str());
        text.append(": ");
        text.append(self.detail.as_str());
        text
    }
}

/// What a command is under its number: its kind and what it carries. The retry
/// policy is not part of it.
enum RecordedCmd {
    Activity { activity_type: String, input: Vec<u8> },
    Timer { duration_ms: u64 },
    Child { workflow_type: String, input: Vec<u8> },
}

/// What a command is under its number: its kind and what it carries. The retry
/// policy is not part of it.
#[verifier::ext_equal]
pub enum Recorded {
    Activity { activity_type: Seq<char>, input: Seq<u8> },
    Timer { duration_ms: u64 },
    Child { workflow_type: Seq<char>, input: Seq<u8> },
}

impl Recorded {
    /// A short description.
    pub open spec fn describe(self) -> Seq<char> {
        match self {
            Recorded::Activity { activity_type, .. } => "activity "@ + activity_type,
            Recorded::Timer { duration_ms } => "timer "@ + decimal(duration_ms as nat) + "ms"@,
            Recorded::Child { workflow_type, .. } => "child "@ + workflow_type,
        }
    }
}

impl View for RecordedCmd {
    type V = Recorded;

    closed spec fn view(&self) -> Recorded {
        match *self {
            RecordedCmd::Activity { activity_type, input } => Recorded::Activity {
                activity_type: activity_type@,
                input: input@,
            },
            RecordedCmd::Timer { duration_ms } => Recorded::Timer { duration_ms },
            RecordedCmd::Child { workflow_type, input } => Recorded::Child {
                workflow_type: workflow_type@,
                input: input@,
            },
        }
    }
}

impl RecordedCmd {
    fn describe(&self) -> (text: String)
        ensures
            text@ == self@.describe(),
    {
        match self {
            RecordedCmd::Activity { activity_type, .. } => {
                let mut text = String::from_str("activity ");
                text.append(activity_type.as_str());
                text
            },
            RecordedCmd::Timer { duration_ms } => {
                let mut text = String::from_str("timer ");
                text.append(u64_text(*duration_ms).as_str());
                text.append("ms");
                text
            },
            RecordedCmd::Child { workflow_type, .. } => {
                let mut text = String::from_str("child ");
                text.append(workflow_type.as_str());
                text
            },
        }
    }

    fn same(&self, other: &RecordedCmd) -> (same: bool)
        ensures
            same == (self@ == other@),
    {
        match (self, other) {
            (
                RecordedCmd::Activity { activity_type: a, input: i },
                RecordedCmd::Activity { activity_type: b, input: j },
            ) => *a == *b && same_bytes(i, j),
            (RecordedCmd::Timer { duration_ms: a }, RecordedCmd::Timer { duration_ms: b }) => *a
                == *b,
            (
                RecordedCmd::Child { workflow_type: a, input: i },
                RecordedCmd::Child { workflow_type: b, input: j },
            ) => *a == *b && same_bytes(i, j),
            _ => false,
        }
    }
}

impl CommandView {
    /// What the command is under its number. A change marker has no number.
    pub open spec fn recorded(self) -> Option<Recorded> {
        match self {
            CommandView::ScheduleActivity { activity_type, input, .. } => Some(
                Recorded::Activity { activity_type, input },
            ),
            CommandView::StartTimer { duration_ms, .. } => Some(Recorded::Timer { duration_ms }),
            CommandView::StartChild { workflow_type, input, .. } => Some(
                Recorded::Child { workflow_type, input },
            ),
            CommandView::RecordPatch { .. } => None,
        }
    }
}

fn as_recorded(command: &Command) -> (recorded: Option<(u64, RecordedCmd)>)
    ensures
        match recorded {
            Some((seq, r)) => command@.seq() == Some(seq) && command@.recorded() == Some(r@),
            None => command@.seq() is None && command@.recorded() is None,
        },
{
    match command {
        Command::ScheduleActivity { seq, activity_type, input, .. } => Some(
            (
                *seq,
                RecordedCmd::Activity {
                    activity_type: activity_type.clone(),
                    input: copy_bytes(input),
                },
            ),
        ),
        Command::StartTimer { seq, duration_ms } => Some(
            (*seq, RecordedCmd::Timer { duration_ms: *duration_ms }),
        ),
        Command::StartChild { seq, workflow_type, input } => Some(
            (
                *seq,
                RecordedCmd::Child {
                    workflow_type: workflow_type.clone(),
                    input: copy_bytes(input),
                },
            ),
        ),
        Command::RecordPatch { .. } => None,
    }
}

impl EventView {
    /// What the event records of a command. Outcomes, inbound events and change
    /// markers record none.
    pub open spec fn recorded(self) -> Option<Recorded> {
        match self {
            EventView::ActivityScheduled { activity_type, input, .. } => Some(
                Recorded::Activity { activity_type, input },
            ),
            EventView::TimerStarted { duration_ms, .. } => Some(Recorded::Timer { duration_ms }),
            EventView::ChildScheduled { workflow_type, input, .. } => Some(
                Recorded::Child { workflow_type, input },
            ),
            _ => None,
        }
    }

    /// Whether the event is an outcome or an inbound event: one that is applied in a
    /// turn of its own.
    pub open spec fn is_outcome(self) -> bool {
        match self {
            EventView::ActivityCompleted { .. } => true,
            EventView::ActivityFailed { .. } => true,
            EventView::TimerFired { .. } => true,
            EventView::SignalReceived { .. } => true,
            EventView::ChildCompleted { .. } => true,
            _ => false,
        }
    }
}

impl ContextView {
    /// With an outcome or an inbound event applied.
    pub open spec fn with_outcome(self, event: EventView) -> ContextView {
        match event {
            EventView::ActivityCompleted { seq, output } => self.with_result(seq, Ok(output)),
            EventView::ActivityFailed { seq, error } => self.with_result(seq, Err(error)),
            EventView::TimerFired { seq } => self.with_fired(seq),
            EventView::SignalReceived { name, payload } => self.with_signal(name, payload),
            EventView::ChildCompleted { seq, result } => self.with_child_result(seq, result),
            _ => self,
        }
    }
}

/// The commands that a history records, by number. The last record counts.
pub open spec fn recorded(history: Seq<EventView>) -> Map<u64, Recorded>
    decreases history.len(),
{
    if history.len() == 0 {
        Map::empty()
    } else {
        let before = recorded(history.drop_last());
        match history.last().recorded() {
            Some(r) => before.insert(history.last().seq()->0, r),
            None => before,
        }
    }
}

/// The outcomes and inbound events of a history, in their order.
pub open spec fn outcomes(history: Seq<EventView>) -> Seq<EventView> {
    history.filter(|e: EventView| e.is_outcome())
}

/// The changes whose marker a history holds.
pub open spec fn markers(history: Seq<EventView>) -> Set<Seq<char>> {
    Set::new(|id: Seq<char>| history.contains(EventView::Patched { change_id: id }))
}

/// What is wrong with a command that has gone out, if the history records another
/// one under its number.
pub open spec fn mismatch(recorded: Map<u64, Recorded>, command: CommandView) -> Option<
    NondeterminismView,
> {
    match (command.seq(), command.recorded()) {
        (Some(seq), Some(emitted)) => if recorded.contains_key(seq) && recorded[seq] != emitted {
            Some(
                NondeterminismView {
                    seq,
                    detail: "history recorded "@ + recorded[seq].describe() + " at seq "@ + decimal(
                        seq as nat,
                    ) + ", workflow emitted "@ + emitted.describe(),
                },
            )
        } else {
            None
        },
        _ => None,
    }
}

/// What is wrong with the first command that is at odds with the history.
pub open spec fn divergence(recorded: Map<u64, Recorded>, commands: Seq<CommandView>) -> Option<
    NondeterminismView,
>
    decreases commands.len(),
{
    if commands.len() == 0 {
        None
    } else {
        match divergence(recorded, commands.drop_last()) {
            Some(d) => Some(d),
            None => mismatch(recorded, commands.last()),
        }
    }
}

/// What the workflow does from the turn before which `cursor` outcomes have been
/// applied: the commands that it emits, and its result if it gets to its end. Each
/// turn runs it until it rests, and then applies the next outcome.
pub open spec fn drive<W: Definition>(
    run: RunView<W::State>,
    outcomes: Seq<EventView>,
    cursor: nat,
) -> ReplayOutcomeView
    decreases outcomes.len() - cursor,
{
    let (rested, output) = turn::<W>(
        run.with_ctx(run.ctx.with_replaying(cursor < outcomes.len())),
    );
    match output {
        Some(result) => ReplayOutcomeView {
            commands: rested.ctx.commands,
            completion: Some(result),
        },
        None => if cursor < outcomes.len() {
            let rest = drive::<W>(
                rested.with_ctx(rested.ctx.drained().with_outcome(outcomes[cursor as int])),
                outcomes,
                cursor + 1,
            );
            ReplayOutcomeView {
                commands: rested.ctx.commands + rest.commands,
                completion: rest.completion,
            }
        } else {
            ReplayOutcomeView { commands: rested.ctx.commands, completion: None }
        },
    }
}

/// The context that a replay of `history` starts with: the change markers are known
/// from the start.
pub open spec fn replay_context(info: InfoView, history: Seq<EventView>) -> ContextView {
    ContextView { patches: markers(history), ..ContextView::fresh(info) }
}

/// The run that a replay of `history` starts with.
pub open spec fn replay_start<W: Definition>(
    info: InfoView,
    history: Seq<EventView>,
    state: W::State,
) -> RunView<W::State> {
    RunView { state, ctx: replay_context(info, history), live: Seq::empty() }
}

/// What a replay of the workflow `W` from a whole history comes to: what the
/// workflow does when it is driven by the outcomes of the history, unless one of
/// its commands is at odds with the history.
pub open spec fn replay<W: Definition>(info: InfoView, history: Seq<EventView>) -> Result<
    ReplayOutcomeView,
    NondeterminismView,
> {
    if history.len() == 0 || !(history[0] is WorkflowStarted) {
        Err(
            NondeterminismView {
                seq: 0,
                detail: "history must start with WorkflowStarted"@,
            },
        )
    } else {
        match W::started(history[0]->WorkflowStarted_input) {
            Err(reason) => Err(
                NondeterminismView { seq: 0, detail: "input deserialize: "@ + reason },
            ),
            Ok(state) => {
                let outcome = drive::<W>(
                    replay_start::<W>(info, history, state),
                    outcomes(history),
                    0,
                );
                match divergence(recorded(history), outcome.commands) {
                    Some(d) => Err(d),
                    None => Ok(outcome),
                }
            },
        }
    }
}

/// The contents of a replay's result.
pub open spec fn replay_view(r: Result<ReplayOutcome, Nondeterminism>) -> Result<
    ReplayOutcomeView,
    NondeterminismView,
> {
    match r {
        Ok(outcome) => Ok(outcome@),
        Err(n) => Err(n@),
    }
}

/// The first of two lists that diverges decides.
pub proof fn lemma_divergence_of_both(
    recorded: Map<u64, Recorded>,
    first: Seq<CommandView>,
    second: Seq<CommandView>,
)
    ensures
        divergence(recorded, first + second) == match divergence(recorded, first) {
            Some(d) => Some(d),
            None => divergence(recorded, second),
        },
    decreases second.len(),
{
    if second.len() == 0 {
        assert(first + second =~= first);
    } else {
        assert((first + second).drop_last() =~= first + second.drop_last());
        lemma_divergence_of_both(recorded, first, second.drop_last());
    }
}

/// The index that a replay keeps: what the history records, by number.
struct Index {
    recorded: HashMap<u64, RecordedCmd>,
}

impl View for Index {
    type V = Map<u64, Recorded>;

    closed spec fn view(&self) -> Map<u64, Recorded> {
        self.recorded@.map_values(|r: RecordedCmd| r@)
    }
}

impl Index {
    fn insert(&mut self, seq: u64, cmd: RecordedCmd)
        ensures
            final(self)@ == old(self)@.insert(seq, cmd@),
    {
        self.recorded.insert(seq, cmd);
        assert(self@ =~= old(self)@.insert(seq, cmd@));
    }

    /// What is wrong with a command that has gone out.
    fn check(&self, command: &Command) -> (wrong: Option<Nondeterminism>)
        ensures
            match wrong {
                Some(n) => mismatch(self@, command@) == Some(n@),
                None => mismatch(self@, command@) is None,
            },
    {
        match as_recorded(command) {
            Some((seq, emitted)) => match self.recorded.get(&seq) {
                Some(rec) => {
                    if rec.same(&emitted) {
                        None
                    } else {
                        let mut detail = String::from_str("history recorded ");
                        detail.append(rec.describe().as_str());
                        detail.append(" at seq ");
                        detail.append(u64_text(seq).as_str());
                        detail.append(", workflow emitted ");
                        detail.append(emitted.describe().as_str());
                        Some(Nondeterminism { seq, detail })
                    }
                },
                None => None,
            },
            None => None,
        }
    }

    /// What is wrong with the first command that is at odds with the history.
    fn check_all(&self, commands: &Vec<Command>) -> (wrong: Option<Nondeterminism>)
        ensures
            match wrong {
                Some(n) => divergence(self@, command_views(commands@)) == Some(n@),
                None => divergence(self@, command_views(commands@)) is None,
            },
    {
        let ghost emitted = command_views(commands@);
        let mut k: usize = 0;
        while k < commands.len()
            invariant
                k <= commands.len(),
                emitted == command_views(commands@),
                divergence(self@, emitted.take(k as int)) is None,
            decreases commands.len() - k,
        {
            let ghost prefix = emitted.take(k + 1);
            assert(prefix.drop_last() =~= emitted.take(k as int));
            assert(prefix.last() == commands@[k as int]@);
            match self.check(&commands[k]) {
                Some(wrong) => {
                    proof {
                        lemma_divergence_of_both(self@, prefix, emitted.skip(k + 1));
                        assert(prefix + emitted.skip(k + 1) =~= emitted);
                    }
                    return Some(wrong);
                },
                None => {},
            }
            k = k + 1;
        }
        assert(emitted.take(k as int) =~= emitted);
        None
    }
}

/// Applies an outcome or an inbound event to a run.
fn apply<W: Definition>(state: &mut WorkflowState<W>, event: &Event)
    ensures
        final(state)@ == old(state)@.with_ctx(old(state)@.ctx.with_outcome(event@)),
{
    match event {
        Event::ActivityCompleted { seq, output } => {
            state.apply_result(*seq, CommandResult::ActivityCompleted(copy_bytes(output)))
        },
        Event::ActivityFailed { seq, error } => {
            state.apply_result(*seq, CommandResult::ActivityFailed(error.clone()))
        },
        Event::TimerFired { seq } => state.apply_timer_fired(*seq),
        Event::SignalReceived { name, payload } => {
            state.apply_signal(name.clone(), copy_bytes(payload))
        },
        Event::ChildCompleted { seq, result } => {
            state.apply_child_result(*seq, Result::from(result.clone()))
        },
        _ => {},
    }
}

/// Reads a history once: what it records by number, its outcomes in their order,
/// and its change markers, which are applied to the run at once.
fn scan<W: Definition>(state: &mut WorkflowState<W>, history: &[Event]) -> (found: (
    Index,
    Vec<Event>,
))
    requires
        old(state)@.ctx.patches == Set::<Seq<char>>::empty(),
    ensures
        found.0@ == recorded(event_views(history@)),
        event_views(found.1@) == outcomes(event_views(history@)),
        final(state)@ == old(state)@.with_ctx(
            (ContextView { patches: markers(event_views(history@)), ..old(state)@.ctx }),
        ),
{
    let ghost events = event_views(history@);
    let ghost start = state@;
    let mut index = Index { recorded: HashMap::new() };
    let mut applied: Vec<Event> = Vec::new();
    proof {
        assert(index@ =~= Map::<u64, Recorded>::empty());
        assert(events.take(0) =~= Seq::empty());
        reveal(Seq::filter);
        assert(event_views(applied@) =~= Seq::empty());
        assert(state@.ctx =~= (ContextView { patches: markers(events.take(0)), ..start.ctx }));
    }
    let mut i: usize = 0;
    while i < history.len()
        invariant
            i <= history.len(),
            events == event_views(history@),
            index@ == recorded(events.take(i as int)),
            event_views(applied@) == outcomes(events.take(i as int)),
            state@ == start.with_ctx(
                ContextView { patches: markers(events.take(i as int)), ..start.ctx },
            ),
        decreases history.len() - i,
    {
        let ghost seen = events.take(i as int);
        let ghost held = applied@;
        let event = &history[i];
        proof {
            let next = events.take(i + 1);
            assert(event@ == events[i as int]);
            assert(next.drop_last() =~= seen);
            assert(next.last() == event@);
            reveal(Seq::filter);
            assert forall|id: Seq<char>| #[trigger] markers(next).contains(id) == (markers(
                seen,
            ).contains(id) || event@ == (EventView::Patched { change_id: id })) by {
                let p = EventView::Patched { change_id: id };
                if seen.contains(p) {
                    let k = choose|k: int| 0 <= k < seen.len() && seen[k] == p;
                    assert(next[k] == p);
                }
                if next.contains(p) {
                    let k = choose|k: int| 0 <= k < next.len() && next[k] == p;
                    if k < seen.len() {
                        assert(seen[k] == p);
                    }
                }
                if event@ == p {
                    assert(next[i as int] == p);
                }
            }
        }
        match event {
            Event::ActivityScheduled { seq, activity_type, input, .. } => {
                index.insert(
                    *seq,
                    RecordedCmd::Activity {
                        activity_type: activity_type.clone(),
                        input: copy_bytes(input),
                    },
                );
            },
            Event::TimerStarted { seq, duration_ms } => {
                index.insert(*seq, RecordedCmd::Timer { duration_ms: *duration_ms });
            },
            Event::ChildScheduled { seq, workflow_type, input } => {
                index.insert(
                    *seq,
                    RecordedCmd::Child {
                        workflow_type: workflow_type.clone(),
                        input: copy_bytes(input),
                    },
                );
            },
            Event::Patched { change_id } => {
                state.apply_patch(change_id.clone());
            },
            Event::WorkflowStarted { .. } => {},
            _ => {
                applied.push(event.clone());
                assert(event_views(applied@) =~= event_views(held).push(event@));
            },
        }
        proof {
            let next = events.take(i + 1);
            assert(markers(next) =~= state@.ctx.patches);
            assert(state@.ctx =~= (ContextView { patches: markers(next), ..start.ctx }));
        }
        i = i + 1;
    }
    assert(events.take(i as int) =~= events);
    (index, applied)
}

/// Runs the workflow `W` again from `history`, applying what was recorded one event
/// per turn.
pub fn cold_replay<W: Definition>(info: Info, history: &[Event]) -> (result: Result<
    ReplayOutcome,
    Nondeterminism,
>)
    requires
        comes_to_rest::<W>(),
    ensures
        replay_view(result) == replay::<W>(info@, event_views(history@)),
{
    let ghost events = event_views(history@);
    let ghost info_view = info@;
    if history.len() == 0 {
        return Err(
            Nondeterminism {
                seq: 0,
                detail: String::from_str("history must start with WorkflowStarted"),
            },
        );
    }
    let input = match &history[0] {
        Event::WorkflowStarted { input } => copy_bytes(input),
        _ => {
            return Err(
                Nondeterminism {
                    seq: 0,
                    detail: String::from_str("history must start with WorkflowStarted"),
                },
            );
        },
    };
    assert(events[0] == (EventView::WorkflowStarted { input: input@ }));
    let body = match W::start(input) {
        Ok(body) => body,
        Err(reason) => {
            let mut detail = String::from_str("input deserialize: ");
            detail.append(reason.as_str());
            return Err(Nondeterminism { seq: 0, detail });
        },
    };

    let mut state = WorkflowState::start(info, body);
    let (index, applied) = scan(&mut state, history);
    let ghost told = recorded(events);
    let ghost stream = outcomes(events);
    let ghost whole = drive::<W>(state@, stream, 0);
    assert(state@.ctx =~= replay_context(info_view, events));

    let mut commands: Vec<Command> = Vec::new();
    let mut cursor: usize = 0;
    proof {
        assert(command_views(commands@) =~= Seq::empty());
        assert(command_views(commands@) + whole.commands =~= whole.commands);
    }
    loop
        invariant
            comes_to_rest::<W>(),
            replay::<W>(info@, event_views(history@)) == match divergence(told, whole.commands) {
                Some(d) => Err(d),
                None => Ok(whole),
            },
            cursor <= applied.len(),
            index@ == told,
            event_views(applied@) == stream,
            divergence(told, command_views(commands@)) is None,
            whole.commands == command_views(commands@) + drive::<W>(
                state@,
                stream,
                cursor as nat,
            ).commands,
            whole.completion == drive::<W>(state@, stream, cursor as nat).completion,
        decreases applied.len() - cursor,
    {
        let ghost rest = drive::<W>(state@, stream, cursor as nat).commands;
        let ghost earlier = command_views(commands@);
        state.set_replaying(cursor < applied.len());
        let poll = state.poll_turn();
        let mut emitted = state.drain_commands();
        let ghost now = command_views(emitted@);
        let ghost later = rest.skip(now.len() as int);
        proof {
            assert(rest =~= now + later);
            assert(whole.commands =~= (earlier + now) + later);
            lemma_divergence_of_both(told, earlier, now);
            lemma_divergence_of_both(told, earlier + now, later);
        }
        match index.check_all(&emitted) {
            Some(wrong) => {
                return Err(wrong);
            },
            None => {},
        }
        commands.append(&mut emitted);
        assert(command_views(commands@) =~= earlier + now);
        match poll {
            Poll::Ready(result) => {
                assert(later =~= Seq::empty());
                assert(whole.commands =~= command_views(commands@));
                return Ok(ReplayOutcome { commands, completion: Some(result) });
            },
            Poll::Pending => {
                if cursor < applied.len() {
                    apply(&mut state, &applied[cursor]);
                    assert(applied@[cursor as int]@ == stream[cursor as int]);
                    cursor = cursor + 1;
                    assert(later =~= drive::<W>(state@, stream, cursor as nat).commands);
                } else {
                    assert(later =~= Seq::empty());
                    assert(whole.commands =~= command_views(commands@));
                    return Ok(ReplayOutcome { commands, completion: None });
                }
            },
        }
    }
}

} // verus!
