//! What one decision turn commits.
use crate::bytes::{copy_bytes, opt_bytes};
use crate::engine::types::{
    child_views, notify_view, opt_text, task_views, ExecStatus, NewActivityTask, NewActivityTaskView,
    NewChild, NewChildView, NewTimer, ParentNotify, ParentNotifyView, TurnCommit, TurnCommitView,
};
use crate::json::{encode_failure, failure_bytes};
use crate::text::{decimal, u64_text};
use crate::workflow::command::{command_views, Command, CommandView};
use crate::workflow::error::Error;
use crate::workflow::event::{event_views, Event, EventView};
use crate::workflow::record::{echoes, is_recorded, unrecorded};
use crate::workflow::replay::{completion_view, markers, recorded, ReplayOutcome, ReplayOutcomeView};
use crate::workflow::result::ChildResult;
use std::collections::HashSet;
use vstd::hash_set::StringHashSet;
use vstd::prelude::*;
use vstd::string::*;

verus! {

broadcast use vstd::std_specs::hash::group_hash_axioms;

/// The tasks that commands ask for, in their order. They are due at once.
pub open spec fn tasks(commands: Seq<CommandView>) -> Seq<NewActivityTaskView>
    decreases commands.len(),
{
    if commands.len() == 0 {
        Seq::empty()
    } else {
        let before = tasks(commands.drop_last());
        match commands.last() {
            CommandView::ScheduleActivity { seq, activity_type, input, .. } => before.push(
                NewActivityTaskView { seq: seq as i64, activity_type, input, next_run_at: 0 },
            ),
            _ => before,
        }
    }
}

/// When a timer that is started at `now` fires.
pub open spec fn deadline(now: i64, duration_ms: u64) -> i64 {
    now.wrapping_add(duration_ms as i64)
}

/// The timers that commands start at `now`, in their order.
pub open spec fn timers(commands: Seq<CommandView>, now: i64) -> Seq<NewTimer>
    decreases commands.len(),
{
    if commands.len() == 0 {
        Seq::empty()
    } else {
        let before = timers(commands.drop_last(), now);
        match commands.last() {
            CommandView::StartTimer { seq, duration_ms } => before.push(
                NewTimer { seq: seq as i64, fire_at: deadline(now, duration_ms) },
            ),
            _ => before,
        }
    }
}

/// The workflow id of the child that the run `workflow_id` starts under `seq`.
pub open spec fn child_id(workflow_id: Seq<char>, seq: u64) -> Seq<char> {
    workflow_id + "::child::"@ + decimal(seq as nat)
}

/// The children that commands start, in their order, with the run ids that they get.
pub open spec fn children(
    commands: Seq<CommandView>,
    workflow_id: Seq<char>,
    ids: Seq<Seq<char>>,
) -> Seq<NewChildView>
    decreases commands.len(),
{
    if commands.len() == 0 {
        Seq::empty()
    } else {
        let before = children(commands.drop_last(), workflow_id, ids);
        match commands.last() {
            CommandView::StartChild { seq, workflow_type, input } => before.push(
                NewChildView {
                    seq: seq as i64,
                    child_run_id: ids[before.len() as int],
                    child_workflow_id: child_id(workflow_id, seq),
                    workflow_type,
                    input,
                },
            ),
            _ => before,
        }
    }
}

/// How many children commands start.
pub open spec fn child_count(commands: Seq<CommandView>) -> nat
    decreases commands.len(),
{
    if commands.len() == 0 {
        0
    } else {
        child_count(commands.drop_last()) + if commands.last() is StartChild {
            1nat
        } else {
            0nat
        }
    }
}

/// Where a run stands after a turn, and its stored result.
pub open spec fn verdict(completion: Option<Result<Seq<u8>, Seq<char>>>) -> (
    ExecStatus,
    Option<Seq<u8>>,
) {
    match completion {
        Some(Ok(output)) => (ExecStatus::Completed, Some(output)),
        Some(Err(message)) => (ExecStatus::Failed, Some(failure_bytes(message))),
        None => (ExecStatus::Running, None),
    }
}

/// What the end of a child adds to the history of its parent. A run without a
/// parent, and a run that goes on, adds nothing.
pub open spec fn notification(
    parent_run_id: Option<Seq<char>>,
    parent_seq: Option<i64>,
    completion: Option<Result<Seq<u8>, Seq<char>>>,
) -> Option<ParentNotifyView> {
    match (parent_run_id, parent_seq, completion) {
        (Some(parent_run_id), Some(seq), Some(result)) => Some(
            ParentNotifyView {
                parent_run_id,
                event: EventView::ChildCompleted { seq: seq as u64, result },
            },
        ),
        _ => None,
    }
}

/// What a turn commits when the replay of `history` comes to `outcome`: what the
/// history does not hold yet, and where the run stands.
pub open spec fn planned(
    workflow_id: Seq<char>,
    parent_run_id: Option<Seq<char>>,
    parent_seq: Option<i64>,
    history: Seq<EventView>,
    outcome: ReplayOutcomeView,
    now: i64,
    ids: Seq<Seq<char>>,
) -> TurnCommitView {
    let new = unrecorded(history, outcome.commands);
    TurnCommitView {
        events: echoes(new),
        new_tasks: tasks(new),
        new_timers: timers(new, now),
        new_children: children(new, workflow_id, ids),
        parent_notify: notification(parent_run_id, parent_seq, outcome.completion),
        status: verdict(outcome.completion).0,
        result: verdict(outcome.completion).1,
    }
}

/// What a turn commits that changes nothing but the run's standing.
pub open spec fn bare_commit(
    parent_notify: Option<ParentNotifyView>,
    status: ExecStatus,
    result: Option<Seq<u8>>,
) -> TurnCommitView {
    TurnCommitView {
        events: Seq::empty(),
        new_tasks: Seq::empty(),
        new_timers: Seq::empty(),
        new_children: Seq::empty(),
        parent_notify,
        status,
        result,
    }
}

/// What is committed for a run that cannot go on: it fails with `message`, and its
/// parent is told.
pub open spec fn dead_letter_commit(
    parent_run_id: Option<Seq<char>>,
    parent_seq: Option<i64>,
    message: Seq<char>,
) -> TurnCommitView {
    bare_commit(
        notification(parent_run_id, parent_seq, Some(Err(message))),
        ExecStatus::Failed,
        Some(failure_bytes(message)),
    )
}

/// What a history records: the numbers of its commands, and its change markers.
struct Ledger {
    numbers: HashSet<u64>,
    markers: StringHashSet,
}

impl Ledger {
    spec fn of(self, history: Seq<EventView>) -> bool {
        &&& self.numbers@ == recorded(history).dom()
        &&& self.markers@ == markers(history)
    }

    fn read(history: &[Event]) -> (ledger: Ledger)
        ensures
            ledger.of(event_views(history@)),
    {
        let ghost events = event_views(history@);
        let mut ledger = Ledger { numbers: HashSet::new(), markers: StringHashSet::new() };
        proof {
            assert(events.take(0) =~= Seq::empty());
            assert(ledger.numbers@ =~= recorded(events.take(0)).dom());
            assert(ledger.markers@ =~= markers(events.take(0)));
        }
        let mut i: usize = 0;
        while i < history.len()
            invariant
                i <= history.len(),
                events == event_views(history@),
                ledger.of(events.take(i as int)),
            decreases history.len() - i,
        {
            let event = &history[i];
            let ghost seen = events.take(i as int);
            let ghost next = events.take(i + 1);
            proof {
                assert(event@ == events[i as int]);
                assert(next.drop_last() =~= seen);
                assert(next.last() == event@);
                lemma_markers_grow(next);
            }
            match event {
                Event::ActivityScheduled { seq, .. } => {
                    ledger.numbers.insert(*seq);
                },
                Event::TimerStarted { seq, .. } => {
                    ledger.numbers.insert(*seq);
                },
                Event::ChildScheduled { seq, .. } => {
                    ledger.numbers.insert(*seq);
                },
                Event::Patched { change_id } => {
                    ledger.markers.insert(change_id.clone());
                },
                _ => {},
            }
            assert(ledger.numbers@ =~= recorded(next).dom());
            assert(ledger.markers@ =~= markers(next));
            i = i + 1;
        }
        assert(events.take(i as int) =~= events);
        ledger
    }

    fn holds(&self, command: &Command, Ghost(history): Ghost<Seq<EventView>>) -> (held: bool)
        requires
            self.of(history),
        ensures
            held == is_recorded(history, command@),
    {
        match command {
            Command::ScheduleActivity { seq, .. } => self.numbers.contains(seq),
            Command::StartTimer { seq, .. } => self.numbers.contains(seq),
            Command::StartChild { seq, .. } => self.numbers.contains(seq),
            Command::RecordPatch { change_id } => self.markers.contains(change_id.as_str()),
        }
    }
}

proof fn lemma_markers_grow(history: Seq<EventView>)
    requires
        history.len() > 0,
    ensures
        markers(history) == match history.last() {
            EventView::Patched { change_id } => markers(history.drop_last()).insert(change_id),
            _ => markers(history.drop_last()),
        },
{
    let seen = history.drop_last();
    let last = history.last();
    assert forall|id: Seq<char>| #[trigger] markers(history).contains(id) == (markers(
        seen,
    ).contains(id) || last == (EventView::Patched { change_id: id })) by {
        let p = EventView::Patched { change_id: id };
        if seen.contains(p) {
            let k = choose|k: int| 0 <= k < seen.len() && seen[k] == p;
            assert(history[k] == p);
        }
        if history.contains(p) {
            let k = choose|k: int| 0 <= k < history.len() && history[k] == p;
            if k < seen.len() {
                assert(seen[k] == p);
            }
        }
        if last == p {
            assert(history[history.len() - 1] == p);
        }
    }
    assert(markers(history) =~= match last {
        EventView::Patched { change_id } => markers(seen).insert(change_id),
        _ => markers(seen),
    });
}

/// How many children a turn starts: the replay starts them, and the history does
/// not hold them yet.
pub fn count_children(history: &[Event], commands: &Vec<Command>) -> (count: usize)
    ensures
        count == child_count(unrecorded(event_views(history@), command_views(commands@))),
{
    let ghost events = event_views(history@);
    let ghost all = command_views(commands@);
    let ledger = Ledger::read(history);
    let mut count: usize = 0;
    let mut i: usize = 0;
    assert(all.take(0) =~= Seq::empty());
    while i < commands.len()
        invariant
            i <= commands.len(),
            count <= i,
            all == command_views(commands@),
            ledger.of(events),
            count == child_count(unrecorded(events, all.take(i as int))),
        decreases commands.len() - i,
    {
        let command = &commands[i];
        proof {
            let next = all.take(i + 1);
            assert(next.drop_last() =~= all.take(i as int));
            assert(next.last() == command@);
            let before = unrecorded(events, all.take(i as int));
            assert(before.push(command@).drop_last() =~= before);
        }
        if !ledger.holds(command, Ghost(events)) {
            match command {
                Command::StartChild { .. } => {
                    count = count + 1;
                },
                _ => {},
            }
        }
        i = i + 1;
    }
    assert(all.take(i as int) =~= all);
    count
}

/// The contents of a list of texts.
pub open spec fn text_views(texts: Seq<String>) -> Seq<Seq<char>> {
    texts.map_values(|t: String| t@)
}

/// Where a run stands after a turn, and its stored result.
pub fn judge(completion: &Option<Result<Vec<u8>, Error>>) -> (judged: (
    ExecStatus,
    Option<Vec<u8>>,
))
    ensures
        (judged.0, opt_bytes(judged.1)) == verdict(completion_view(*completion)),
{
    match completion {
        Some(Ok(output)) => (ExecStatus::Completed, Some(copy_bytes(output))),
        Some(Err(error)) => (ExecStatus::Failed, Some(encode_failure(error.message.as_str()))),
        None => (ExecStatus::Running, None),
    }
}

/// What the end of a child adds to the history of its parent.
pub fn notify_parent(
    parent_run_id: &Option<String>,
    parent_seq: Option<i64>,
    completion: &Option<Result<Vec<u8>, Error>>,
) -> (notify: Option<ParentNotify>)
    ensures
        notify_view(notify) == notification(
            opt_text(*parent_run_id),
            parent_seq,
            completion_view(*completion),
        ),
{
    match (parent_run_id, parent_seq, completion) {
        (Some(run_id), Some(seq), Some(result)) => {
            let outcome = match result {
                Ok(output) => ChildResult::Completed(copy_bytes(output)),
                Err(error) => ChildResult::Failed(error.clone()),
            };
            Some(
                ParentNotify {
                    parent_run_id: run_id.clone(),
                    event: Event::ChildCompleted { seq: seq as u64, result: outcome },
                },
            )
        },
        _ => None,
    }
}

/// What a turn commits when the replay of `history` comes to `outcome`. `ids` are
/// the run ids for the children that the turn starts, `now` is the time from which
/// its timers count.
pub fn plan_turn(
    workflow_id: &str,
    parent_run_id: &Option<String>,
    parent_seq: Option<i64>,
    history: &[Event],
    outcome: &ReplayOutcome,
    now: i64,
    ids: Vec<String>,
) -> (commit: TurnCommit)
    requires
        ids@.len() == child_count(unrecorded(event_views(history@), outcome@.commands)),
    ensures
        commit@ == planned(
            workflow_id@,
            opt_text(*parent_run_id),
            parent_seq,
            event_views(history@),
            outcome@,
            now,
            text_views(ids@),
        ),
{
    let ghost recorded_events = event_views(history@);
    let ghost all = outcome@.commands;
    let ghost id_texts = text_views(ids@);
    let ledger = Ledger::read(history);
    let mut events: Vec<Event> = Vec::new();
    let mut new_tasks: Vec<NewActivityTask> = Vec::new();
    let mut new_timers: Vec<NewTimer> = Vec::new();
    let mut new_children: Vec<NewChild> = Vec::new();
    let mut i: usize = 0;
    proof {
        assert(all.take(0) =~= Seq::empty());
        assert(event_views(events@) =~= Seq::empty());
        assert(task_views(new_tasks@) =~= Seq::empty());
        assert(child_views(new_children@) =~= Seq::empty());
        assert(echoes(Seq::<CommandView>::empty()) =~= Seq::empty());
        lemma_counts_add_up(recorded_events, all);
    }
    while i < outcome.commands.len()
        invariant
            i <= outcome.commands.len(),
            all == command_views(outcome.commands@),
            id_texts == text_views(ids@),
            ledger.of(recorded_events),
            event_views(events@) == echoes(unrecorded(recorded_events, all.take(i as int))),
            task_views(new_tasks@) == tasks(unrecorded(recorded_events, all.take(i as int))),
            new_timers@ == timers(unrecorded(recorded_events, all.take(i as int)), now),
            child_views(new_children@) == children(
                unrecorded(recorded_events, all.take(i as int)),
                workflow_id@,
                id_texts,
            ),
            new_children@.len() == child_count(unrecorded(recorded_events, all.take(i as int))),
            forall|k: int|
                0 <= k <= all.len() ==> child_count(
                    #[trigger] unrecorded(recorded_events, all.take(k)),
                ) <= ids@.len(),
        decreases outcome.commands.len() - i,
    {
        let command = &outcome.commands[i];
        let ghost before = unrecorded(recorded_events, all.take(i as int));
        let ghost held_events = events@;
        let ghost held_tasks = new_tasks@;
        let ghost held_children = new_children@;
        proof {
            let next = all.take(i + 1);
            assert(next.drop_last() =~= all.take(i as int));
            assert(next.last() == command@);
            assert(before.push(command@).drop_last() =~= before);
            assert(echoes(before.push(command@)) =~= echoes(before).push(command@.echo()));
            assert(child_count(unrecorded(recorded_events, next)) <= ids@.len());
        }
        if !ledger.holds(command, Ghost(recorded_events)) {
            match command {
                Command::ScheduleActivity { seq, activity_type, input, retry } => {
                    events.push(
                        Event::ActivityScheduled {
                            seq: *seq,
                            activity_type: activity_type.clone(),
                            input: copy_bytes(input),
                            retry: *retry,
                        },
                    );
                    new_tasks.push(
                        NewActivityTask {
                            seq: *seq as i64,
                            activity_type: activity_type.clone(),
                            input: copy_bytes(input),
                            next_run_at: 0,
                        },
                    );
                    assert(task_views(new_tasks@) =~= task_views(held_tasks).push(
                        new_tasks@.last()@,
                    ));
                },
                Command::StartTimer { seq, duration_ms } => {
                    events.push(
                        Event::TimerStarted { seq: *seq, duration_ms: *duration_ms },
                    );
                    let fire_at: i64 = now.wrapping_add(*duration_ms as i64);
                    new_timers.push(NewTimer { seq: *seq as i64, fire_at });
                },
                Command::StartChild { seq, workflow_type, input } => {
                    events.push(
                        Event::ChildScheduled {
                            seq: *seq,
                            workflow_type: workflow_type.clone(),
                            input: copy_bytes(input),
                        },
                    );
                    let mut child_workflow_id = String::from_str(workflow_id);
                    child_workflow_id.append("::child::");
                    child_workflow_id.append(u64_text(*seq).as_str());
                    let child_run_id = ids[new_children.len()].clone();
                    new_children.push(
                        NewChild {
                            seq: *seq as i64,
                            child_run_id,
                            child_workflow_id,
                            workflow_type: workflow_type.clone(),
                            input: copy_bytes(input),
                        },
                    );
                    assert(child_views(new_children@) =~= child_views(held_children).push(
                        new_children@.last()@,
                    ));
                },
                Command::RecordPatch { change_id } => {
                    events.push(Event::Patched { change_id: change_id.clone() });
                },
            }
            assert(event_views(events@) =~= event_views(held_events).push(command@.echo()));
        }
        i = i + 1;
    }
    assert(all.take(i as int) =~= all);
    let (status, result) = judge(&outcome.completion);
    let parent_notify = notify_parent(parent_run_id, parent_seq, &outcome.completion);
    TurnCommit { events, new_tasks, new_timers, new_children, parent_notify, status, result }
}

/// No part of a list of commands starts more children than the whole.
proof fn lemma_counts_add_up(history: Seq<EventView>, commands: Seq<CommandView>)
    ensures
        forall|k: int|
            0 <= k <= commands.len() ==> child_count(
                #[trigger] unrecorded(history, commands.take(k)),
            ) <= child_count(unrecorded(history, commands)),
    decreases commands.len(),
{
    if commands.len() > 0 {
        let before = commands.drop_last();
        lemma_counts_add_up(history, before);
        let a = unrecorded(history, before);
        assert(a.push(commands.last()).drop_last() =~= a);
        assert(before.take(before.len() as int) =~= before);
        assert forall|k: int| 0 <= k <= commands.len() implies child_count(
            #[trigger] unrecorded(history, commands.take(k)),
        ) <= child_count(unrecorded(history, commands)) by {
            if k < commands.len() {
                assert(before.take(k) =~= commands.take(k));
                assert(child_count(unrecorded(history, before.take(k))) <= child_count(a));
            } else {
                assert(commands.take(k) =~= commands);
            }
        }
    } else {
        assert forall|k: int| 0 <= k <= commands.len() implies child_count(
            #[trigger] unrecorded(history, commands.take(k)),
        ) <= child_count(unrecorded(history, commands)) by {
            assert(commands.take(k) =~= commands);
        }
    }
}

/// What is committed for a run that cannot go on.
pub fn plan_dead_letter(
    parent_run_id: &Option<String>,
    parent_seq: Option<i64>,
    message: &str,
) -> (commit: TurnCommit)
    ensures
        commit@ == dead_letter_commit(opt_text(*parent_run_id), parent_seq, message@),
{
    let completion: Option<Result<Vec<u8>, Error>> = Some(Err(Error::new(message)));
    let (status, result) = judge(&completion);
    let parent_notify = notify_parent(parent_run_id, parent_seq, &completion);
    let commit = TurnCommit {
        events: Vec::new(),
        new_tasks: Vec::new(),
        new_timers: Vec::new(),
        new_children: Vec::new(),
        parent_notify,
        status,
        result,
    };
    assert(commit@ =~= dead_letter_commit(opt_text(*parent_run_id), parent_seq, message@));
    commit
}

/// What is committed for a run that was over before: it keeps its standing and its
/// result.
pub fn plan_nothing(status: ExecStatus, result: Option<Vec<u8>>) -> (commit: TurnCommit)
    ensures
        commit@ == bare_commit(None, status, opt_bytes(result)),
{
    let commit = TurnCommit {
        events: Vec::new(),
        new_tasks: Vec::new(),
        new_timers: Vec::new(),
        new_children: Vec::new(),
        parent_notify: None,
        status,
        result,
    };
    assert(commit@ =~= bare_commit(None, status, opt_bytes(result)));
    commit
}

} // verus!
