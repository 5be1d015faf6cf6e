//! One decision turn: a run that has something new in its history is replayed, and
//! what it does is committed.
use crate::bytes::{copy_opt_bytes, opt_bytes};
use crate::engine::ids::{fresh_ids, is_id};
use crate::engine::plan::{
    bare_commit, child_count, count_children, dead_letter_commit, plan_dead_letter, plan_nothing,
    plan_turn, planned, text_views,
};
use crate::engine::registry::{Engine, EngineView};
use crate::engine::types::{
    opt_text, stored_event_views, ExecStatus, RunMeta, RunMetaView, StoredEvent, TurnCommit,
    TurnCommitView,
};
use crate::workflow::event::{event_views, Event, EventView};
use crate::workflow::info::{Info, InfoView};
use crate::workflow::record::unrecorded;
use crate::workflow::replay::{
    replay_view, Nondeterminism, NondeterminismView, ReplayOutcome, ReplayOutcomeView,
};
use crate::activity::execution::{Execution, ExecutionView};
use vstd::prelude::*;
use vstd::string::*;

verus! {

/// Tells of a run that is over.
#[derive(Debug, Clone, PartialEq, Eq)]
pub struct RunCompleted {
    pub run_id: String,
    pub workflow_id: String,
    pub status: ExecStatus,
    pub result: Option<Vec<u8>>,
}

/// The contents of a [`RunCompleted`].
#[verifier::ext_equal]
pub struct RunCompletedView {
    pub run_id: Seq<char>,
    pub workflow_id: Seq<char>,
    pub status: ExecStatus,
    pub result: Option<Seq<u8>>,
}

impl View for RunCompleted {
    type V = RunCompletedView;

    open spec fn view(&self) -> RunCompletedView {
        RunCompletedView {
            run_id: self.run_id@,
            workflow_id: self.workflow_id@,
            status: self.status,
            result: opt_bytes(self.result),
        }
    }
}

/// The contents of an optional announcement.
pub open spec fn announcement_view(announcement: Option<RunCompleted>) -> Option<
    RunCompletedView,
> {
    match announcement {
        Some(a) => Some(a@),
        None => None,
    }
}

/// How far a turn has come: what it has asked for last.
pub enum Turn {
    /// Nothing yet.
    Start,
    /// A run to work on.
    Picking,
    /// What the store knows of the run.
    Loading { run_id: String },
    /// The stored result of a run that is over.
    Settling { meta: RunMeta },
    /// The history of the run.
    Reading { meta: RunMeta },
    /// What the store knows of the run's parent.
    Tracing { meta: RunMeta, events: Vec<Event> },
    /// The replay of the history.
    Replaying { meta: RunMeta, events: Vec<Event> },
    /// The commit; then there may be something to announce.
    Committing { announcement: Option<RunCompleted> },
    /// The announcement.
    Announcing,
    /// Nothing more.
    Over,
}

/// The contents of a [`Turn`].
pub enum TurnView {
    Start,
    Picking,
    Loading { run_id: Seq<char> },
    Settling { meta: RunMetaView },
    Reading { meta: RunMetaView },
    Tracing { meta: RunMetaView, events: Seq<EventView> },
    Replaying { meta: RunMetaView, events: Seq<EventView> },
    Committing { announcement: Option<RunCompletedView> },
    Announcing,
    Over,
}

impl View for Turn {
    type V = TurnView;

    open spec fn view(&self) -> TurnView {
        match *self {
            Turn::Start => TurnView::Start,
            Turn::Picking => TurnView::Picking,
            Turn::Loading { run_id } => TurnView::Loading { run_id: run_id@ },
            Turn::Settling { meta } => TurnView::Settling { meta: meta@ },
            Turn::Reading { meta } => TurnView::Reading { meta: meta@ },
            Turn::Tracing { meta, events } => TurnView::Tracing {
                meta: meta@,
                events: event_views(events@),
            },
            Turn::Replaying { meta, events } => TurnView::Replaying {
                meta: meta@,
                events: event_views(events@),
            },
            Turn::Committing { announcement } => TurnView::Committing {
                announcement: announcement_view(announcement),
            },
            Turn::Announcing => TurnView::Announcing,
            Turn::Over => TurnView::Over,
        }
    }
}

/// What has come back.
pub enum Answer {
    /// Nothing was asked.
    Begin,
    /// A run that has something new, if there is one.
    Runnable(Option<String>),
    /// What the store knows of a run, if it knows it.
    Run(Option<RunMeta>),
    /// The stored standing and result of a workflow, if there is one.
    Execution(Option<(ExecStatus, Option<Vec<u8>>)>),
    /// A run's history.
    History(Vec<StoredEvent>),
    /// What the replay came to, and what time it is.
    Replayed { outcome: Result<ReplayOutcome, Nondeterminism>, now: i64 },
    /// It is done.
    Done,
}

/// The contents of an [`Answer`].
pub enum AnswerView {
    Begin,
    Runnable(Option<Seq<char>>),
    Run(Option<RunMetaView>),
    Execution(Option<(ExecStatus, Option<Seq<u8>>)>),
    History(Seq<EventView>),
    Replayed { outcome: Result<ReplayOutcomeView, NondeterminismView>, now: i64 },
    Done,
}

/// The contents of optional metadata.
pub open spec fn opt_meta(meta: Option<RunMeta>) -> Option<RunMetaView> {
    match meta {
        Some(m) => Some(m@),
        None => None,
    }
}

impl View for Answer {
    type V = AnswerView;

    open spec fn view(&self) -> AnswerView {
        match *self {
            Answer::Begin => AnswerView::Begin,
            Answer::Runnable(run_id) => AnswerView::Runnable(opt_text(run_id)),
            Answer::Run(meta) => AnswerView::Run(opt_meta(meta)),
            Answer::Execution(found) => AnswerView::Execution(
                match found {
                    Some((status, result)) => Some((status, opt_bytes(result))),
                    None => None,
                },
            ),
            Answer::History(events) => AnswerView::History(stored_event_views(events@)),
            Answer::Replayed { outcome, now } => AnswerView::Replayed {
                outcome: replay_view(outcome),
                now,
            },
            Answer::Done => AnswerView::Done,
        }
    }
}

/// What a turn asks for.
pub enum Ask {
    /// A run that has something new.
    NextRunnable,
    /// What the store knows of a run.
    LoadRun { run_id: String },
    /// The stored standing and result of a workflow.
    FindExecution { workflow_id: String },
    /// A run's history.
    ReadHistory { run_id: String },
    /// A replay by the workflow type that `info` names.
    Replay { info: Info, events: Vec<Event> },
    /// A commit, in one transaction.
    Commit { run_id: String, commit: TurnCommit },
    /// Telling of a run that is over.
    Announce { announcement: RunCompleted },
    /// Nothing more: whether there was a run to work on.
    Finish { worked: bool },
    /// Nothing more: the store is not as it should be.
    Fail { message: String },
}

/// The contents of an [`Ask`].
pub enum AskView {
    NextRunnable,
    LoadRun { run_id: Seq<char> },
    FindExecution { workflow_id: Seq<char> },
    ReadHistory { run_id: Seq<char> },
    Replay { info: InfoView, events: Seq<EventView> },
    Commit { run_id: Seq<char>, commit: TurnCommitView },
    Announce { announcement: RunCompletedView },
    Finish { worked: bool },
    Fail { message: Seq<char> },
}

impl View for Ask {
    type V = AskView;

    open spec fn view(&self) -> AskView {
        match *self {
            Ask::NextRunnable => AskView::NextRunnable,
            Ask::LoadRun { run_id } => AskView::LoadRun { run_id: run_id@ },
            Ask::FindExecution { workflow_id } => AskView::FindExecution {
                workflow_id: workflow_id@,
            },
            Ask::ReadHistory { run_id } => AskView::ReadHistory { run_id: run_id@ },
            Ask::Replay { info, events } => AskView::Replay {
                info: info@,
                events: event_views(events@),
            },
            Ask::Commit { run_id, commit } => AskView::Commit {
                run_id: run_id@,
                commit: commit@,
            },
            Ask::Announce { announcement } => AskView::Announce { announcement: announcement@ },
            Ask::Finish { worked } => AskView::Finish { worked },
            Ask::Fail { message } => AskView::Fail { message: message@ },
        }
    }
}

/// Whether a turn that has come that far can get that answer.
pub open spec fn fits(turn: TurnView, answer: AnswerView) -> bool {
    match (turn, answer) {
        (TurnView::Start, AnswerView::Begin) => true,
        (TurnView::Picking, AnswerView::Runnable(_)) => true,
        (TurnView::Loading { .. }, AnswerView::Run(_)) => true,
        (TurnView::Settling { .. }, AnswerView::Execution(_)) => true,
        (TurnView::Reading { .. }, AnswerView::History(_)) => true,
        (TurnView::Tracing { .. }, AnswerView::Run(_)) => true,
        (TurnView::Replaying { .. }, AnswerView::Replayed { .. }) => true,
        (TurnView::Committing { .. }, AnswerView::Done) => true,
        (TurnView::Announcing, AnswerView::Done) => true,
        _ => false,
    }
}

/// What a workflow is told about its run.
pub open spec fn info_of(meta: RunMetaView, parent: Option<ExecutionView>) -> InfoView {
    InfoView {
        execution: ExecutionView { workflow_id: meta.workflow_id, run_id: meta.run_id },
        parent,
        workflow_type: meta.workflow_type,
    }
}

/// The announcement of a commit: none while the run goes on, or where nobody wants
/// to hear of it.
pub open spec fn announced(engine: EngineView, meta: RunMetaView, commit: TurnCommitView) -> Option<
    RunCompletedView,
> {
    if commit.status.terminal() && engine.observed {
        Some(
            RunCompletedView {
                run_id: meta.run_id,
                workflow_id: meta.workflow_id,
                status: commit.status,
                result: commit.result,
            },
        )
    } else {
        None
    }
}

/// A turn commits, and then announces what there is to announce.
pub open spec fn committing(engine: EngineView, meta: RunMetaView, commit: TurnCommitView) -> (
    TurnView,
    AskView,
) {
    (
        TurnView::Committing { announcement: announced(engine, meta, commit) },
        AskView::Commit { run_id: meta.run_id, commit },
    )
}

/// A turn that has the history and the parent replays it. A workflow type that
/// cannot be run fails the run.
pub open spec fn replaying(
    engine: EngineView,
    meta: RunMetaView,
    parent: Option<ExecutionView>,
    events: Seq<EventView>,
) -> (TurnView, AskView) {
    if engine.workflows.contains(meta.workflow_type) {
        (
            TurnView::Replaying { meta, events },
            AskView::Replay { info: info_of(meta, parent), events },
        )
    } else {
        committing(
            engine,
            meta,
            dead_letter_commit(
                meta.parent_run_id,
                meta.parent_seq,
                "unregistered workflow "@ + meta.workflow_type,
            ),
        )
    }
}

/// What a turn does next. `ids` are run ids for the children that it starts.
pub open spec fn turned(
    engine: EngineView,
    turn: TurnView,
    answer: AnswerView,
    ids: Seq<Seq<char>>,
) -> (TurnView, AskView) {
    match (turn, answer) {
        (TurnView::Start, AnswerView::Begin) => (TurnView::Picking, AskView::NextRunnable),
        (TurnView::Picking, AnswerView::Runnable(None)) => (
            TurnView::Over,
            AskView::Finish { worked: false },
        ),
        (TurnView::Picking, AnswerView::Runnable(Some(run_id))) => (
            TurnView::Loading { run_id },
            AskView::LoadRun { run_id },
        ),
        (TurnView::Loading { run_id }, AnswerView::Run(None)) => (
            TurnView::Over,
            AskView::Fail { message: "runnable run "@ + run_id + " has no execution row"@ },
        ),
        (TurnView::Loading { run_id }, AnswerView::Run(Some(found))) => {
            let meta = RunMetaView { run_id, ..found };
            if meta.status.terminal() {
                (
                    TurnView::Settling { meta },
                    AskView::FindExecution { workflow_id: meta.workflow_id },
                )
            } else {
                (TurnView::Reading { meta }, AskView::ReadHistory { run_id })
            }
        },
        (TurnView::Settling { meta }, AnswerView::Execution(None)) => (
            TurnView::Over,
            AskView::Fail { message: "terminal run "@ + meta.run_id + " has no execution row"@ },
        ),
        (TurnView::Settling { meta }, AnswerView::Execution(Some((_, result)))) => (
            TurnView::Committing { announcement: None },
            AskView::Commit {
                run_id: meta.run_id,
                commit: bare_commit(None, meta.status, result),
            },
        ),
        (TurnView::Reading { meta }, AnswerView::History(events)) => match meta.parent_run_id {
            Some(parent_run_id) => (
                TurnView::Tracing { meta, events },
                AskView::LoadRun { run_id: parent_run_id },
            ),
            None => replaying(engine, meta, None, events),
        },
        (TurnView::Tracing { meta, events }, AnswerView::Run(parent)) => replaying(
            engine,
            meta,
            match (meta.parent_run_id, parent) {
                (Some(run_id), Some(parent)) => Some(
                    ExecutionView { workflow_id: parent.workflow_id, run_id },
                ),
                _ => None,
            },
            events,
        ),
        (TurnView::Replaying { meta, events }, AnswerView::Replayed { outcome, now }) => committing(
            engine,
            meta,
            match outcome {
                Ok(outcome) => planned(
                    meta.workflow_id,
                    meta.parent_run_id,
                    meta.parent_seq,
                    events,
                    outcome,
                    now,
                    ids,
                ),
                Err(wrong) => dead_letter_commit(
                    meta.parent_run_id,
                    meta.parent_seq,
                    "nondeterminism in "@ + meta.workflow_type + ": "@ + wrong.text(),
                ),
            },
        ),
        (TurnView::Committing { announcement }, AnswerView::Done) => match announcement {
            Some(announcement) => (TurnView::Announcing, AskView::Announce { announcement }),
            None => (TurnView::Over, AskView::Finish { worked: true }),
        },
        (TurnView::Announcing, AnswerView::Done) => (
            TurnView::Over,
            AskView::Finish { worked: true },
        ),
        _ => (TurnView::Over, AskView::Finish { worked: false }),
    }
}

/// How many run ids a turn needs for its next step.
pub open spec fn ids_needed(turn: TurnView, answer: AnswerView) -> nat {
    match (turn, answer) {
        (TurnView::Replaying { events, .. }, AnswerView::Replayed { outcome: Ok(outcome), .. }) =>
            child_count(unrecorded(events, outcome.commands)),
        _ => 0,
    }
}

/// The events of a stored history.
fn events_of(stored: Vec<StoredEvent>) -> (events: Vec<Event>)
    ensures
        event_views(events@) == stored_event_views(stored@),
{
    let mut events: Vec<Event> = Vec::new();
    let mut i: usize = 0;
    while i < stored.len()
        invariant
            i <= stored.len(),
            events.len() == i,
            forall|j: int| 0 <= j < i ==> (#[trigger] events@[j])@ == stored@[j].event@,
        decreases stored.len() - i,
    {
        events.push(stored[i].event.clone());
        i = i + 1;
    }
    assert(event_views(events@) =~= stored_event_views(stored@));
    events
}

impl Engine {
    /// Commits, and then announces what there is to announce.
    fn commit(&self, meta: &RunMeta, commit: TurnCommit) -> (next: (Turn, Ask))
        ensures
            (next.0@, next.1@) == committing(self@, meta@, commit@),
    {
        let over = match commit.status {
            ExecStatus::Running => false,
            _ => true,
        };
        let announcement = if over && self.is_observed() {
            Some(
                RunCompleted {
                    run_id: meta.run_id.clone(),
                    workflow_id: meta.workflow_id.clone(),
                    status: commit.status,
                    result: copy_opt_bytes(&commit.result),
                },
            )
        } else {
            None
        };
        (Turn::Committing { announcement }, Ask::Commit { run_id: meta.run_id.clone(), commit })
    }

    /// Fails a run that cannot go on.
    fn dead_letter(&self, meta: &RunMeta, message: &str) -> (next: (Turn, Ask))
        ensures
            (next.0@, next.1@) == committing(
                self@,
                meta@,
                dead_letter_commit(meta@.parent_run_id, meta.parent_seq, message@),
            ),
    {
        let commit = plan_dead_letter(&meta.parent_run_id, meta.parent_seq, message);
        self.commit(meta, commit)
    }

    fn replay(&self, meta: RunMeta, parent: Option<Execution>, events: Vec<Event>) -> (next: (
        Turn,
        Ask,
    ))
        ensures
            (next.0@, next.1@) == replaying(
                self@,
                meta@,
                crate::workflow::info::parent_view(parent),
                event_views(events@),
            ),
    {
        if self.runs_workflow(meta.workflow_type.as_str()) {
            let info = Info {
                execution: Execution {
                    workflow_id: meta.workflow_id.clone(),
                    run_id: meta.run_id.clone(),
                },
                parent,
                workflow_type: meta.workflow_type.clone(),
            };
            let copy = copy_events(&events);
            (Turn::Replaying { meta, events }, Ask::Replay { info, events: copy })
        } else {
            let mut message = String::from_str("unregistered workflow ");
            message.append(meta.workflow_type.as_str());
            self.dead_letter(&meta, message.as_str())
        }
    }

    /// Takes a turn one step further, with run ids for the children that the step
    /// starts.
    pub fn process_one_runnable_with(&self, turn: Turn, answer: Answer, ids: Vec<String>) -> (next:
        (Turn, Ask))
        requires
            fits(turn@, answer@),
            ids@.len() == ids_needed(turn@, answer@),
        ensures
            (next.0@, next.1@) == turned(self@, turn@, answer@, text_views(ids@)),
    {
        match (turn, answer) {
            (Turn::Start, Answer::Begin) => (Turn::Picking, Ask::NextRunnable),
            (Turn::Picking, Answer::Runnable(None)) => (Turn::Over, Ask::Finish { worked: false }),
            (Turn::Picking, Answer::Runnable(Some(run_id))) => (
                Turn::Loading { run_id: run_id.clone() },
                Ask::LoadRun { run_id },
            ),
            (Turn::Loading { run_id }, Answer::Run(None)) => {
                let mut message = String::from_str("runnable run ");
                message.append(run_id.as_str());
                message.append(" has no execution row");
                (Turn::Over, Ask::Fail { message })
            },
            (Turn::Loading { run_id }, Answer::Run(Some(found))) => {
                let meta = RunMeta { run_id: run_id.clone(), ..found };
                match meta.status {
                    ExecStatus::Running => (Turn::Reading { meta }, Ask::ReadHistory { run_id }),
                    _ => {
                        let workflow_id = meta.workflow_id.clone();
                        (Turn::Settling { meta }, Ask::FindExecution { workflow_id })
                    },
                }
            },
            (Turn::Settling { meta }, Answer::Execution(None)) => {
                let mut message = String::from_str("terminal run ");
                message.append(meta.run_id.as_str());
                message.append(" has no execution row");
                (Turn::Over, Ask::Fail { message })
            },
            (Turn::Settling { meta }, Answer::Execution(Some((_, result)))) => (
                Turn::Committing { announcement: None },
                Ask::Commit {
                    run_id: meta.run_id,
                    commit: plan_nothing(meta.status, result),
                },
            ),
            (Turn::Reading { meta }, Answer::History(stored)) => {
                let events = events_of(stored);
                match &meta.parent_run_id {
                    Some(parent_run_id) => {
                        let run_id = parent_run_id.clone();
                        (Turn::Tracing { meta, events }, Ask::LoadRun { run_id })
                    },
                    None => self.replay(meta, None, events),
                }
            },
            (Turn::Tracing { meta, events }, Answer::Run(parent)) => {
                let parent = match (&meta.parent_run_id, parent) {
                    (Some(run_id), Some(parent)) => Some(
                        Execution { workflow_id: parent.workflow_id, run_id: run_id.clone() },
                    ),
                    _ => None,
                };
                self.replay(meta, parent, events)
            },
            (Turn::Replaying { meta, events }, Answer::Replayed { outcome, now }) => match outcome {
                Ok(outcome) => {
                    let commit = plan_turn(
                        meta.workflow_id.as_str(),
                        &meta.parent_run_id,
                        meta.parent_seq,
                        events.as_slice(),
                        &outcome,
                        now,
                        ids,
                    );
                    self.commit(&meta, commit)
                },
                Err(wrong) => {
                    let mut message = String::from_str("nondeterminism in ");
                    message.append(meta.workflow_type.as_str());
                    message.append(": ");
                    message.append(wrong.to_string().as_str());
                    self.dead_letter(&meta, message.as_str())
                },
            },
            (Turn::Committing { announcement }, Answer::Done) => match announcement {
                Some(announcement) => (Turn::Announcing, Ask::Announce { announcement }),
                None => (Turn::Over, Ask::Finish { worked: true }),
            },
            (Turn::Announcing, Answer::Done) => (Turn::Over, Ask::Finish { worked: true }),
            _ => (Turn::Over, Ask::Finish { worked: false }),
        }
    }

    /// Takes a turn one step further: works on one run that has something new in its
    /// history. Children get new run ids.
    pub fn process_one_runnable(&self, turn: Turn, answer: Answer) -> (next: (Turn, Ask))
        requires
            fits(turn@, answer@),
        ensures
            exists|ids: Seq<Seq<char>>|
                {
                    &&& ids.len() == ids_needed(turn@, answer@)
                    &&& forall|i: int| 0 <= i < ids.len() ==> is_id(#[trigger] ids[i])
                    &&& (next.0@, next.1@) == #[trigger] turned(self@, turn@, answer@, ids)
                },
    {
        let count: usize = match (&turn, &answer) {
            (Turn::Replaying { events, .. }, Answer::Replayed { outcome: Ok(outcome), .. }) =>
                count_children(events.as_slice(), &outcome.commands),
            _ => 0,
        };
        let ids = fresh_ids(count);
        let ghost texts = text_views(ids@);
        assert forall|i: int| 0 <= i < texts.len() implies is_id(#[trigger] texts[i]) by {
            assert(is_id(ids@[i]@));
        }
        self.process_one_runnable_with(turn, answer, ids)
    }
}

/// A copy of a list of events.
fn copy_events(events: &Vec<Event>) -> (copy: Vec<Event>)
    ensures
        event_views(copy@) == event_views(events@),
{
    let mut copy: Vec<Event> = Vec::new();
    let mut i: usize = 0;
    while i < events.len()
        invariant
            i <= events.len(),
            copy.len() == i,
            forall|j: int| 0 <= j < i ==> (#[trigger] copy@[j])@ == events@[j]@,
        decreases events.len() - i,
    {
        copy.push(events[i].clone());
        i = i + 1;
    }
    assert(event_views(copy@) =~= event_views(events@));
    copy
}

} // verus!
