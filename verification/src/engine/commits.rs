//! What the commit of a turn holds.
use crate::engine::laws::commands_get_their_work;
use crate::engine::plan::{
    child_count, child_id, children, dead_letter_commit, deadline, planned, tasks, timers,
};
use crate::engine::types::{
    ExecStatus, NewActivityTaskView, NewTimer, RunMetaView, TurnCommitView,
};
use crate::json::quoted;
use crate::store::history::turn_writes;
use crate::store::model::{
    ids_are_new, is_born, is_last_task, is_last_timer, turn_commits_at_once, Db,
};
use crate::text::{decimal, numbers_keep_their_bits};
use crate::workflow::agreement::{goes_under, notes};
use crate::workflow::command::CommandView;
use crate::workflow::event::EventView;
use crate::workflow::record::{echoes, is_recorded, unrecorded};
use crate::workflow::replay::{recorded, ReplayOutcomeView};
use vstd::prelude::*;
use vstd::utf8::encode_utf8;

verus! {

/// Whether a history tells of a command already: of one under the same number, or of
/// the same change marker.
pub open spec fn tells_of(history: Seq<EventView>, command: CommandView) -> bool {
    exists|k: int|
        0 <= k < history.len() && match command {
            CommandView::ScheduleActivity { seq, .. } => notes(#[trigger] history[k], seq),
            CommandView::StartTimer { seq, .. } => notes(history[k], seq),
            CommandView::StartChild { seq, .. } => notes(history[k], seq),
            CommandView::RecordPatch { change_id } => history[k] == (EventView::Patched {
                change_id,
            }),
        }
}

proof fn lemma_noted(history: Seq<EventView>, seq: u64)
    ensures
        recorded(history).contains_key(seq) <==> exists|k: int|
            0 <= k < history.len() && notes(#[trigger] history[k], seq),
    decreases history.len(),
{
    if history.len() > 0 {
        let before = history.drop_last();
        let last = history.len() - 1;
        lemma_noted(before, seq);
        if recorded(before).contains_key(seq) {
            let k = choose|k: int| 0 <= k < before.len() && notes(#[trigger] before[k], seq);
            assert(notes(history[k], seq));
        }
        if notes(history[last], seq) {
            assert(recorded(history).contains_key(seq));
        }
        if exists|k: int| 0 <= k < history.len() && notes(#[trigger] history[k], seq) {
            let k = choose|k: int| 0 <= k < history.len() && notes(#[trigger] history[k], seq);
            if k < last {
                assert(notes(before[k], seq));
            }
        }
    }
}

proof fn lemma_told(history: Seq<EventView>, command: CommandView)
    ensures
        is_recorded(history, command) <==> tells_of(history, command),
{
    match command {
        CommandView::ScheduleActivity { seq, .. } => {
            lemma_noted(history, seq);
        },
        CommandView::StartTimer { seq, .. } => {
            lemma_noted(history, seq);
        },
        CommandView::StartChild { seq, .. } => {
            lemma_noted(history, seq);
        },
        CommandView::RecordPatch { change_id } => {
            let marker = EventView::Patched { change_id };
            if history.contains(marker) {
                let k = choose|k: int| 0 <= k < history.len() && history[k] == marker;
                assert(history[k] == marker);
            }
            if tells_of(history, command) {
                let k = choose|k: int| 0 <= k < history.len() && #[trigger] history[k] == marker;
                assert(history.contains(marker));
            }
        },
    }
}

/// A timer that is started at `now` fires as many milliseconds later as it lasts,
/// wherever 64 bits hold that time; past that the times start over.
pub proof fn timers_fire_when_they_are_due(now: i64, duration_ms: u64)
    ensures
        now + duration_ms <= i64::MAX ==> deadline(now, duration_ms) == now + duration_ms,
        now + duration_ms > i64::MAX ==> deadline(now, duration_ms) == now + duration_ms
            - 0x1_0000_0000_0000_0000,
{
    numbers_keep_their_bits(duration_ms, 0);
}

/// One more command changes the commit of a turn by what it asks for, and by nothing
/// else. A command that the history tells of asks for nothing. Any other is recorded as
/// an event with what it carries; besides, an activity becomes a task that is due at
/// once, a timer is set for the time at which it is due, and a child gets the next run
/// id and a workflow id made from that of its parent and its number.
pub proof fn commands_are_committed_one_by_one(
    workflow_id: Seq<char>,
    parent_run_id: Option<Seq<char>>,
    parent_seq: Option<i64>,
    history: Seq<EventView>,
    outcome: ReplayOutcomeView,
    command: CommandView,
    now: i64,
    ids: Seq<Seq<char>>,
)
    ensures
        ({
            let more = ReplayOutcomeView { commands: outcome.commands.push(command), ..outcome };
            let none = ReplayOutcomeView { commands: Seq::empty(), ..outcome };
            let empty = planned(workflow_id, parent_run_id, parent_seq, history, none, now, ids);
            let before = planned(
                workflow_id,
                parent_run_id,
                parent_seq,
                history,
                outcome,
                now,
                ids,
            );
            let after = planned(workflow_id, parent_run_id, parent_seq, history, more, now, ids);
            &&& empty.events.len() == 0
            &&& empty.new_tasks.len() == 0
            &&& empty.new_timers.len() == 0
            &&& empty.new_children.len() == 0
            &&& tells_of(history, command) ==> after == before
            &&& !tells_of(history, command) ==> match command {
                CommandView::ScheduleActivity { seq, activity_type, input, retry } => {
                    &&& after == (TurnCommitView {
                        events: before.events.push(
                            EventView::ActivityScheduled { seq, activity_type, input, retry },
                        ),
                        new_tasks: after.new_tasks,
                        ..before
                    })
                    &&& after.new_tasks.len() == before.new_tasks.len() + 1
                    &&& after.new_tasks.drop_last() == before.new_tasks
                    &&& seq <= i64::MAX ==> after.new_tasks.last().seq == seq
                    &&& seq > i64::MAX ==> after.new_tasks.last().seq == seq
                        - 0x1_0000_0000_0000_0000
                    &&& after.new_tasks.last().activity_type == activity_type
                    &&& after.new_tasks.last().input == input
                    &&& after.new_tasks.last().next_run_at == 0
                },
                CommandView::StartTimer { seq, duration_ms } => {
                    &&& after == (TurnCommitView {
                        events: before.events.push(EventView::TimerStarted { seq, duration_ms }),
                        new_timers: after.new_timers,
                        ..before
                    })
                    &&& after.new_timers.len() == before.new_timers.len() + 1
                    &&& after.new_timers.drop_last() == before.new_timers
                    &&& seq <= i64::MAX ==> after.new_timers.last().seq == seq
                    &&& seq > i64::MAX ==> after.new_timers.last().seq == seq
                        - 0x1_0000_0000_0000_0000
                    &&& now + duration_ms <= i64::MAX ==> after.new_timers.last().fire_at == now
                        + duration_ms
                    &&& now + duration_ms > i64::MAX ==> after.new_timers.last().fire_at == now
                        + duration_ms - 0x1_0000_0000_0000_0000
                },
                CommandView::StartChild { seq, workflow_type, input } => {
                    &&& after == (TurnCommitView {
                        events: before.events.push(
                            EventView::ChildScheduled { seq, workflow_type, input },
                        ),
                        new_children: after.new_children,
                        ..before
                    })
                    &&& after.new_children.len() == before.new_children.len() + 1
                    &&& after.new_children.drop_last() == before.new_children
                    &&& seq <= i64::MAX ==> after.new_children.last().seq == seq
                    &&& seq > i64::MAX ==> after.new_children.last().seq == seq
                        - 0x1_0000_0000_0000_0000
                    &&& after.new_children.last().child_run_id
                        == ids[before.new_children.len() as int]
                    &&& after.new_children.last().child_workflow_id == workflow_id + "::child::"@
                        + decimal(seq as nat)
                    &&& after.new_children.last().workflow_type == workflow_type
                    &&& after.new_children.last().input == input
                },
                CommandView::RecordPatch { change_id } => after == (TurnCommitView {
                    events: before.events.push(EventView::Patched { change_id }),
                    ..before
                }),
            }
        }),
{
    let commands = outcome.commands;
    let old_ones = unrecorded(history, commands);
    let more = commands.push(command);
    assert(more.drop_last() =~= commands);
    assert(old_ones.push(command).drop_last() =~= old_ones);
    assert(echoes(old_ones.push(command)) =~= echoes(old_ones).push(command.echo()));
    assert(unrecorded(history, Seq::empty()) =~= Seq::empty());
    lemma_told(history, command);
    let t = tasks(old_ones.push(command));
    let m = timers(old_ones.push(command), now);
    let c = children(old_ones.push(command), workflow_id, ids);
    match command {
        CommandView::ScheduleActivity { seq, .. } => {
            assert(t.drop_last() =~= tasks(old_ones));
            numbers_keep_their_bits(seq, 0);
        },
        CommandView::StartTimer { seq, duration_ms } => {
            assert(m.drop_last() =~= timers(old_ones, now));
            numbers_keep_their_bits(seq, 0);
            timers_fire_when_they_are_due(now, duration_ms);
        },
        CommandView::StartChild { seq, .. } => {
            assert(c.drop_last() =~= children(old_ones, workflow_id, ids));
            numbers_keep_their_bits(seq, 0);
        },
        CommandView::RecordPatch { .. } => {},
    }
}

/// Every timer that a workflow starts, and that its history does not tell of, is in the
/// commit of the turn, set for the time of the turn and its duration.
pub proof fn started_timers_are_set(
    workflow_id: Seq<char>,
    parent_run_id: Option<Seq<char>>,
    parent_seq: Option<i64>,
    history: Seq<EventView>,
    outcome: ReplayOutcomeView,
    now: i64,
    ids: Seq<Seq<char>>,
    i: int,
)
    requires
        0 <= i < outcome.commands.len(),
        outcome.commands[i] is StartTimer,
        !tells_of(history, outcome.commands[i]),
        outcome.commands[i]->StartTimer_seq <= i64::MAX,
        now + outcome.commands[i]->StartTimer_duration_ms <= i64::MAX,
    ensures
        ({
            let set = planned(
                workflow_id,
                parent_run_id,
                parent_seq,
                history,
                outcome,
                now,
                ids,
            ).new_timers;
            exists|j: int|
                0 <= j < set.len() && (#[trigger] set[j]).seq
                    == outcome.commands[i]->StartTimer_seq && set[j].fire_at == now
                    + outcome.commands[i]->StartTimer_duration_ms
        }),
    decreases outcome.commands.len(),
{
    let last = outcome.commands.len() - 1;
    let before = ReplayOutcomeView { commands: outcome.commands.drop_last(), ..outcome };
    let command = outcome.commands[i];
    let set = planned(
        workflow_id,
        parent_run_id,
        parent_seq,
        history,
        outcome,
        now,
        ids,
    ).new_timers;
    commands_are_committed_one_by_one(
        workflow_id,
        parent_run_id,
        parent_seq,
        history,
        before,
        outcome.commands[last],
        now,
        ids,
    );
    assert(before.commands.push(outcome.commands[last]) =~= outcome.commands);
    if i == last {
        assert(set[set.len() - 1] == set.last());
    } else {
        assert(before.commands[i] == command);
        started_timers_are_set(
            workflow_id,
            parent_run_id,
            parent_seq,
            history,
            before,
            now,
            ids,
            i,
        );
        let fewer = planned(
            workflow_id,
            parent_run_id,
            parent_seq,
            history,
            before,
            now,
            ids,
        ).new_timers;
        let j = choose|j: int|
            0 <= j < fewer.len() && (#[trigger] fewer[j]).seq == command->StartTimer_seq
                && fewer[j].fire_at == now + command->StartTimer_duration_ms;
        assert(set[j] == fewer[j]);
    }
}

/// Where a run stands after a turn is what its workflow came to: it goes on without a
/// result, it is completed with the output, or it has failed with the message.
pub proof fn runs_stand_where_their_workflow_came_to(
    workflow_id: Seq<char>,
    parent_run_id: Option<Seq<char>>,
    parent_seq: Option<i64>,
    history: Seq<EventView>,
    outcome: ReplayOutcomeView,
    now: i64,
    ids: Seq<Seq<char>>,
)
    ensures
        ({
            let commit = planned(
                workflow_id,
                parent_run_id,
                parent_seq,
                history,
                outcome,
                now,
                ids,
            );
            &&& match outcome.completion {
                None => commit.status == ExecStatus::Running && commit.result is None,
                Some(Ok(output)) => commit.status == ExecStatus::Completed && commit.result
                    == Some(output),
                Some(Err(message)) => commit.status == ExecStatus::Failed && commit.result == Some(
                    encode_utf8("{\"message\":"@ + quoted(message) + "}"@),
                ),
            }
            &&& match (parent_run_id, parent_seq, outcome.completion) {
                (Some(run_id), Some(seq), Some(result)) => {
                    &&& commit.parent_notify is Some
                    &&& commit.parent_notify->0.parent_run_id == run_id
                    &&& commit.parent_notify->0.event is ChildCompleted
                    &&& seq >= 0 ==> commit.parent_notify->0.event->ChildCompleted_seq == seq
                    &&& seq < 0 ==> commit.parent_notify->0.event->ChildCompleted_seq == seq
                        + 0x1_0000_0000_0000_0000
                    &&& commit.parent_notify->0.event->ChildCompleted_result == result
                },
                _ => commit.parent_notify is None,
            }
        }),
{
    if let Some(seq) = parent_seq {
        numbers_keep_their_bits(0, seq);
    }
}

/// A run that cannot go on fails with the message: the message is its result and what
/// its parent is told, and nothing else is committed.
pub proof fn dead_letters_carry_the_message(
    parent_run_id: Option<Seq<char>>,
    parent_seq: Option<i64>,
    message: Seq<char>,
)
    ensures
        ({
            let commit = dead_letter_commit(parent_run_id, parent_seq, message);
            &&& commit.status == ExecStatus::Failed
            &&& commit.result == Some(encode_utf8("{\"message\":"@ + quoted(message) + "}"@))
            &&& commit.events.len() == 0
            &&& commit.new_tasks.len() == 0
            &&& commit.new_timers.len() == 0
            &&& commit.new_children.len() == 0
            &&& match (parent_run_id, parent_seq) {
                (Some(run_id), Some(seq)) => {
                    &&& commit.parent_notify is Some
                    &&& commit.parent_notify->0.parent_run_id == run_id
                    &&& commit.parent_notify->0.event is ChildCompleted
                    &&& seq >= 0 ==> commit.parent_notify->0.event->ChildCompleted_seq == seq
                    &&& commit.parent_notify->0.event->ChildCompleted_result == Err::<
                        Seq<u8>,
                        Seq<char>,
                    >(message)
                },
                _ => commit.parent_notify is None,
            }
        }),
{
}

/// A turn needs as many run ids as it starts children.
pub proof fn each_child_takes_an_id(
    workflow_id: Seq<char>,
    parent_run_id: Option<Seq<char>>,
    parent_seq: Option<i64>,
    history: Seq<EventView>,
    outcome: ReplayOutcomeView,
    now: i64,
    ids: Seq<Seq<char>>,
)
    ensures
        planned(
            workflow_id,
            parent_run_id,
            parent_seq,
            history,
            outcome,
            now,
            ids,
        ).new_children.len() == child_count(unrecorded(history, outcome.commands)),
{
    lemma_children_are_counted(unrecorded(history, outcome.commands), workflow_id, ids);
}

proof fn lemma_children_are_counted(
    commands: Seq<CommandView>,
    workflow_id: Seq<char>,
    ids: Seq<Seq<char>>,
)
    ensures
        children(commands, workflow_id, ids).len() == child_count(commands),
    decreases commands.len(),
{
    if commands.len() > 0 {
        lemma_children_are_counted(commands.drop_last(), workflow_id, ids);
    }
}

/// Whether no two commands go out under one number, and no number is out of range.
pub open spec fn numbers_differ(commands: Seq<CommandView>) -> bool {
    &&& forall|a: int, b: int, seq: u64|
        0 <= a < b < commands.len() && #[trigger] goes_under(commands[a], seq) ==> !(
        #[trigger] goes_under(commands[b], seq))
    &&& forall|a: int, seq: u64|
        0 <= a < commands.len() && #[trigger] goes_under(commands[a], seq) ==> seq <= i64::MAX
}

proof fn lemma_new_ones(history: Seq<EventView>, commands: Seq<CommandView>)
    ensures
        forall|k: int|
            0 <= k < unrecorded(history, commands).len() ==> commands.contains(
                #[trigger] unrecorded(history, commands)[k],
            ),
        forall|i: int|
            0 <= i < commands.len() && !is_recorded(history, #[trigger] commands[i])
                ==> unrecorded(history, commands).contains(commands[i]),
        numbers_differ(commands) ==> numbers_differ(unrecorded(history, commands)),
    decreases commands.len(),
{
    if commands.len() > 0 {
        let before = commands.drop_last();
        let last = commands.len() - 1;
        let old_ones = unrecorded(history, before);
        let new = unrecorded(history, commands);
        lemma_new_ones(history, before);
        assert forall|k: int| 0 <= k < new.len() implies commands.contains(#[trigger] new[k]) by {
            if k < old_ones.len() {
                assert(new[k] == old_ones[k]);
                let m = choose|m: int| 0 <= m < before.len() && before[m] == old_ones[k];
                assert(commands[m] == new[k]);
            } else {
                assert(commands[last] == new[k]);
            }
        }
        assert forall|i: int|
            0 <= i < commands.len() && !is_recorded(history, #[trigger] commands[i]) implies
            new.contains(commands[i]) by {
            if i < last {
                assert(before[i] == commands[i]);
                let k = choose|k: int| 0 <= k < old_ones.len() && old_ones[k] == before[i];
                assert(new[k] == commands[i]);
            } else {
                assert(new[old_ones.len() as int] == commands[i]);
            }
        }
        if numbers_differ(commands) {
            assert forall|a: int, b: int, seq: u64|
                0 <= a < b < before.len() && #[trigger] goes_under(before[a], seq) implies !(
            #[trigger] goes_under(before[b], seq)) by {
                assert(goes_under(commands[a], seq));
                assert(!goes_under(commands[b], seq));
            }
            assert forall|a: int, seq: u64|
                0 <= a < before.len() && #[trigger] goes_under(before[a], seq) implies seq
                <= i64::MAX by {
                assert(goes_under(commands[a], seq));
            }
            assert(numbers_differ(before));
            assert forall|a: int, b: int, seq: u64|
                0 <= a < b < new.len() && #[trigger] goes_under(new[a], seq) implies !(
            #[trigger] goes_under(new[b], seq)) by {
                assert(new[a] == old_ones[a]);
                if b < old_ones.len() {
                    assert(goes_under(old_ones[a], seq));
                    assert(!goes_under(old_ones[b], seq));
                } else {
                    let m = choose|m: int| 0 <= m < before.len() && before[m] == old_ones[a];
                    assert(goes_under(commands[m], seq));
                    assert(!goes_under(commands[last], seq));
                }
            }
            assert forall|a: int, seq: u64|
                0 <= a < new.len() && #[trigger] goes_under(new[a], seq) implies seq
                <= i64::MAX by {
                let m = choose|m: int| 0 <= m < commands.len() && commands[m] == new[a];
                assert(goes_under(commands[m], seq));
            }
        }
    }
}

proof fn lemma_shorter_differ(commands: Seq<CommandView>)
    requires
        numbers_differ(commands),
        commands.len() > 0,
    ensures
        numbers_differ(commands.drop_last()),
{
    let before = commands.drop_last();
    assert forall|a: int, b: int, seq: u64|
        0 <= a < b < before.len() && #[trigger] goes_under(before[a], seq) implies !(
    #[trigger] goes_under(before[b], seq)) by {
        assert(goes_under(commands[a], seq));
        assert(!goes_under(commands[b], seq));
    }
    assert forall|a: int, seq: u64|
        0 <= a < before.len() && #[trigger] goes_under(before[a], seq) implies seq <= i64::MAX by {
        assert(goes_under(commands[a], seq));
    }
}

/// Whether one of the commands goes out under that number.
spec fn some_under(commands: Seq<CommandView>, seq: int) -> bool {
    exists|m: int|
        0 <= m < commands.len() && 0 <= seq <= i64::MAX && #[trigger] goes_under(
            commands[m],
            seq as u64,
        )
}

proof fn lemma_some_under_more(commands: Seq<CommandView>, seq: int)
    requires
        commands.len() > 0,
        some_under(commands.drop_last(), seq),
    ensures
        some_under(commands, seq),
{
    let before = commands.drop_last();
    let m = choose|m: int|
        0 <= m < before.len() && 0 <= seq <= i64::MAX && #[trigger] goes_under(
            before[m],
            seq as u64,
        );
    assert(goes_under(commands[m], seq as u64));
}

proof fn lemma_not_under_last(commands: Seq<CommandView>, seq: int)
    requires
        commands.len() > 0,
        numbers_differ(commands),
        some_under(commands.drop_last(), seq),
    ensures
        !goes_under(commands.last(), seq as u64),
{
    let before = commands.drop_last();
    let m = choose|m: int|
        0 <= m < before.len() && 0 <= seq <= i64::MAX && #[trigger] goes_under(
            before[m],
            seq as u64,
        );
    assert(goes_under(commands[m], seq as u64));
    assert(!goes_under(commands[commands.len() - 1], seq as u64));
}

proof fn lemma_tasks_differ(commands: Seq<CommandView>)
    requires
        numbers_differ(commands),
    ensures
        forall|j: int|
            0 <= j < tasks(commands).len() ==> some_under(
                commands,
                (#[trigger] tasks(commands)[j]).seq as int,
            ),
        forall|j: int| 0 <= j < tasks(commands).len() ==> #[trigger] is_last_task(tasks(commands), j),
    decreases commands.len(),
{
    if commands.len() > 0 {
        let before = commands.drop_last();
        let all = tasks(commands);
        let fewer = tasks(before);
        lemma_shorter_differ(commands);
        lemma_tasks_differ(before);
        if commands.last() is ScheduleActivity {
            let seq = commands.last()->ScheduleActivity_seq;
            assert(goes_under(commands[commands.len() - 1], seq));
            assert(seq as i64 as int == seq);
        }
        assert forall|j: int| 0 <= j < all.len() implies some_under(
            commands,
            (#[trigger] all[j]).seq as int,
        ) by {
            if j < fewer.len() {
                assert(all[j] == fewer[j]);
                lemma_some_under_more(commands, all[j].seq as int);
            } else {
                let seq = all[j].seq as int;
                assert(goes_under(commands[commands.len() - 1], seq as u64));
            }
        }
        assert forall|j: int| 0 <= j < all.len() implies #[trigger] is_last_task(all, j) by {
            assert forall|k: int| j < k < all.len() implies (#[trigger] all[k]).seq
                != all[j].seq by {
                assert(all[j] == fewer[j]);
                if k < fewer.len() {
                    assert(all[k] == fewer[k]);
                    assert(is_last_task(fewer, j));
                } else {
                    lemma_not_under_last(commands, fewer[j].seq as int);
                }
            }
        }
    }
}

proof fn lemma_timers_differ(commands: Seq<CommandView>, now: i64)
    requires
        numbers_differ(commands),
    ensures
        forall|j: int|
            0 <= j < timers(commands, now).len() ==> some_under(
                commands,
                (#[trigger] timers(commands, now)[j]).seq as int,
            ),
        forall|j: int|
            0 <= j < timers(commands, now).len() ==> #[trigger] is_last_timer(
                timers(commands, now),
                j,
            ),
    decreases commands.len(),
{
    if commands.len() > 0 {
        let before = commands.drop_last();
        let all = timers(commands, now);
        let fewer = timers(before, now);
        lemma_shorter_differ(commands);
        lemma_timers_differ(before, now);
        if commands.last() is StartTimer {
            let seq = commands.last()->StartTimer_seq;
            assert(goes_under(commands[commands.len() - 1], seq));
            assert(seq as i64 as int == seq);
        }
        assert forall|j: int| 0 <= j < all.len() implies some_under(
            commands,
            (#[trigger] all[j]).seq as int,
        ) by {
            if j < fewer.len() {
                assert(all[j] == fewer[j]);
                lemma_some_under_more(commands, all[j].seq as int);
            } else {
                let seq = all[j].seq as int;
                assert(goes_under(commands[commands.len() - 1], seq as u64));
            }
        }
        assert forall|j: int| 0 <= j < all.len() implies #[trigger] is_last_timer(all, j) by {
            assert forall|k: int| j < k < all.len() implies (#[trigger] all[k]).seq
                != all[j].seq by {
                assert(all[j] == fewer[j]);
                if k < fewer.len() {
                    assert(all[k] == fewer[k]);
                    assert(is_last_timer(fewer, j));
                } else {
                    lemma_not_under_last(commands, fewer[j].seq as int);
                }
            }
        }
    }
}

/// What a workflow asks for is in the store once its turn is committed: a task of that
/// type on that input, not tried yet and due at once; a timer set for the time of the
/// turn and its duration; a child that runs, of that type, on that input and with the run
/// as its parent.
///
/// The numbers of the commands are taken to differ and to be in range, and the ids of
/// new children to be new to the store.
pub proof fn what_is_asked_for_is_stored(
    db: Db,
    run_id: Seq<char>,
    meta: RunMetaView,
    history: Seq<EventView>,
    outcome: ReplayOutcomeView,
    parent_last_event_id: i64,
    now: i64,
    ids: Seq<Seq<char>>,
    i: int,
)
    requires
        numbers_differ(outcome.commands),
        0 <= i < outcome.commands.len(),
        !tells_of(history, outcome.commands[i]),
        db.executions.contains_key(run_id),
        ({
            let commit = planned(
                meta.workflow_id,
                meta.parent_run_id,
                meta.parent_seq,
                history,
                outcome,
                now,
                ids,
            );
            &&& db.history(run_id).len() + commit.events.len() < i64::MAX
            &&& ids_are_new(db, commit.new_children)
            &&& commit.parent_notify matches Some(notify) ==> {
                &&& db.last_event_id(notify.parent_run_id) == parent_last_event_id
                &&& parent_last_event_id < i64::MAX
            }
        }),
    ensures
        ({
            let commit = planned(
                meta.workflow_id,
                meta.parent_run_id,
                meta.parent_seq,
                history,
                outcome,
                now,
                ids,
            );
            let after = db.after_all(
                turn_writes(
                    run_id,
                    commit,
                    db.last_event_id(run_id) as i64,
                    parent_last_event_id,
                    now,
                ),
            );
            match outcome.commands[i] {
                CommandView::ScheduleActivity { seq, activity_type, input, .. } => {
                    let key = (run_id, seq as i64);
                    &&& after.tasks.contains_key(key)
                    &&& after.tasks[key].activity_type == activity_type
                    &&& after.tasks[key].input == input
                    &&& after.tasks[key].attempt == 0
                    &&& after.tasks[key].next_run_at == 0
                    &&& after.tasks[key].status is Pending
                },
                CommandView::StartTimer { seq, duration_ms } => {
                    let key = (run_id, seq as i64);
                    &&& after.timers.contains_key(key)
                    &&& now + duration_ms <= i64::MAX ==> after.timers[key] == now + duration_ms
                },
                CommandView::StartChild { seq, workflow_type, input } => exists|child: Seq<char>|
                    {
                        &&& #[trigger] after.executions.contains_key(child)
                        &&& after.executions[child].workflow_type == workflow_type
                        &&& after.executions[child].input == input
                        &&& after.executions[child].parent_run_id == Some(run_id)
                        &&& after.executions[child].parent_seq == Some(seq as i64)
                        &&& after.executions[child].status == ExecStatus::Running
                        &&& after.executions[child].workflow_id == meta.workflow_id + "::child::"@
                            + decimal(seq as nat)
                    },
                CommandView::RecordPatch { .. } => true,
            }
        }),
{
    let commit = planned(
        meta.workflow_id,
        meta.parent_run_id,
        meta.parent_seq,
        history,
        outcome,
        now,
        ids,
    );
    let place = db.last_event_id(run_id) as i64;
    let after = db.after_all(turn_writes(run_id, commit, place, parent_last_event_id, now));
    let new = unrecorded(history, outcome.commands);
    let command = outcome.commands[i];
    turn_commits_at_once(db, run_id, commit, place, parent_last_event_id, now);
    lemma_told(history, command);
    lemma_new_ones(history, outcome.commands);
    let k = choose|k: int| 0 <= k < new.len() && new[k] == command;
    commands_get_their_work(new, meta.workflow_id, now, ids);
    assert(new[k] == command);
    match command {
        CommandView::ScheduleActivity { seq, activity_type, input, .. } => {
            lemma_tasks_differ(new);
            let task = NewActivityTaskView {
                seq: seq as i64,
                activity_type,
                input,
                next_run_at: 0,
            };
            assert(commit.new_tasks.contains(task));
            let j = choose|j: int| 0 <= j < commit.new_tasks.len() && commit.new_tasks[j] == task;
            assert(is_last_task(commit.new_tasks, j));
        },
        CommandView::StartTimer { seq, duration_ms } => {
            lemma_timers_differ(new, now);
            timers_fire_when_they_are_due(now, duration_ms);
            let timer = NewTimer { seq: seq as i64, fire_at: deadline(now, duration_ms) };
            assert(commit.new_timers.contains(timer));
            let j = choose|j: int|
                0 <= j < commit.new_timers.len() && commit.new_timers[j] == timer;
            assert(is_last_timer(commit.new_timers, j));
        },
        CommandView::StartChild { seq, workflow_type, input } => {
            let j = choose|j: int|
                0 <= j < commit.new_children.len() && {
                    let child = #[trigger] commit.new_children[j];
                    &&& child.seq == seq as i64
                    &&& child.child_run_id == ids[j]
                    &&& child.child_workflow_id == child_id(meta.workflow_id, seq)
                    &&& child.workflow_type == workflow_type
                    &&& child.input == input
                };
            assert(is_born(after, run_id, commit.new_children[j]));
            assert(after.executions.contains_key(commit.new_children[j].child_run_id));
        },
        CommandView::RecordPatch { .. } => {},
    }
}

} // verus!
