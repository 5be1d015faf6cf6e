//! What is written and read, row by row.
use crate::activity::error::ErrorView;
use crate::engine::types::{status_text_is_unambiguous, ExecStatus, NewChildView, TurnCommitView};
use crate::store::history::{
    arrival, birth, child_writes, closing_writes, creation_writes, event_writes, notify_writes,
    place_before_notice, started_run, task_writes, timer_writes, turn_writes,
};
use crate::store::queue::{
    completion_writes, firing_writes, policy_of, reclaim_writes, LeasedTask, LEASE_TTL_MS,
};
use crate::store::reads::{
    child_shown, child_under, first_time, is_earliest, is_next_due, last_time, newest_first,
    summaries, summary_of, times, ChildRow, StoredRun, SummaryView, Waiting,
};
use crate::store::write::{seq_column_of, status_of, WriteView};
use crate::text::numbers_keep_their_bits;
use crate::workflow::event::EventView;
use vstd::prelude::*;

verus! {

/// A run starts with three rows: itself, with what it was started with; the first event
/// of its history, which is its start on its input; and the note that it has something
/// new since then.
pub proof fn runs_start_with_three_rows(
    run_id: Seq<char>,
    workflow_id: Seq<char>,
    workflow_type: Seq<char>,
    parent_run_id: Option<Seq<char>>,
    parent_seq: Option<i64>,
    input: Seq<u8>,
    now: i64,
)
    ensures
        ({
            let rows = birth(
                run_id,
                workflow_id,
                workflow_type,
                parent_run_id,
                parent_seq,
                input,
                now,
            );
            &&& rows.len() == 3
            &&& rows[0] is InsertExecution
            &&& rows[0]->InsertExecution_run_id == run_id
            &&& rows[0]->InsertExecution_workflow_id == workflow_id
            &&& rows[0]->InsertExecution_workflow_type == workflow_type
            &&& rows[0]->InsertExecution_parent_run_id == parent_run_id
            &&& rows[0]->InsertExecution_parent_seq == parent_seq
            &&& rows[0]->InsertExecution_input == input
            &&& rows[1] is AppendEvent
            &&& rows[1]->AppendEvent_run_id == run_id
            &&& rows[1]->AppendEvent_event_id == 1
            &&& rows[1]->AppendEvent_event is WorkflowStarted
            &&& rows[1]->AppendEvent_event->WorkflowStarted_input == input
            &&& rows[1]->AppendEvent_ts == now
            &&& rows[2] is MarkRunnable
            &&& rows[2]->MarkRunnable_run_id == run_id
            &&& rows[2]->MarkRunnable_since == now
        }),
{
}

/// A run is started only for a workflow id that has none: under the candidate id,
/// without a parent. Otherwise nothing is written, and the run that there is counts.
pub proof fn existing_runs_count(
    candidate_run_id: Seq<char>,
    workflow_id: Seq<char>,
    workflow_type: Seq<char>,
    input: Seq<u8>,
    existing: Seq<char>,
    now: i64,
)
    ensures
        creation_writes(
            candidate_run_id,
            workflow_id,
            workflow_type,
            input,
            Some(existing),
            now,
        ).len() == 0,
        started_run(candidate_run_id, Some(existing)) == existing,
        started_run(candidate_run_id, None) == candidate_run_id,
        ({
            let rows = creation_writes(
                candidate_run_id,
                workflow_id,
                workflow_type,
                input,
                None,
                now,
            );
            &&& rows.len() == 3
            &&& rows[0] is InsertExecution
            &&& rows[0]->InsertExecution_run_id == candidate_run_id
            &&& rows[0]->InsertExecution_workflow_id == workflow_id
            &&& rows[0]->InsertExecution_workflow_type == workflow_type
            &&& rows[0]->InsertExecution_parent_run_id is None
            &&& rows[0]->InsertExecution_parent_seq is None
            &&& rows[0]->InsertExecution_input == input
        }),
{
}

/// What comes in for a run takes the place after the last of its history, at the time
/// at which it comes in, and the run has something new since then.
pub proof fn arrivals_take_the_next_place(
    run_id: Seq<char>,
    last_event_id: i64,
    event: EventView,
    now: i64,
)
    requires
        last_event_id < i64::MAX,
    ensures
        ({
            let rows = arrival(run_id, last_event_id, event, now);
            &&& rows.len() == 2
            &&& rows[0] is AppendEvent
            &&& rows[0]->AppendEvent_run_id == run_id
            &&& rows[0]->AppendEvent_event_id == last_event_id + 1
            &&& rows[0]->AppendEvent_event == event
            &&& rows[0]->AppendEvent_ts == now
            &&& rows[1] is MarkRunnable
            &&& rows[1]->MarkRunnable_run_id == run_id
            &&& rows[1]->MarkRunnable_since == now
        }),
{
}

/// The outcome of a task is recorded as it came, under the number of the task, and the
/// task is done. A timer that fires is recorded under its number, and is gone.
pub proof fn outcomes_are_recorded_under_their_number(
    run_id: Seq<char>,
    seq: i64,
    result: Result<Seq<u8>, ErrorView>,
    last_event_id: i64,
    now: i64,
)
    requires
        last_event_id < i64::MAX,
    ensures
        ({
            let rows = completion_writes(run_id, seq, result, last_event_id, now);
            let event = rows[0]->AppendEvent_event;
            let number = if seq >= 0 {
                seq as int
            } else {
                seq + 0x1_0000_0000_0000_0000
            };
            &&& rows.len() == 3
            &&& rows[0] is AppendEvent
            &&& rows[0]->AppendEvent_run_id == run_id
            &&& rows[0]->AppendEvent_event_id == last_event_id + 1
            &&& rows[0]->AppendEvent_ts == now
            &&& match result {
                Ok(output) => event is ActivityCompleted && event->ActivityCompleted_seq == number
                    && event->ActivityCompleted_output == output,
                Err(error) => event is ActivityFailed && event->ActivityFailed_seq == number
                    && event->ActivityFailed_error.message == error.message
                    && event->ActivityFailed_error.non_retryable == error.non_retryable,
            }
            &&& rows[1] == (WriteView::MarkRunnable { run_id, since: now })
            &&& rows[2] == (WriteView::FinishTask { run_id, seq })
        }),
        ({
            let rows = firing_writes(run_id, seq, last_event_id, now);
            let number = if seq >= 0 {
                seq as int
            } else {
                seq + 0x1_0000_0000_0000_0000
            };
            &&& rows.len() == 3
            &&& rows[0] is AppendEvent
            &&& rows[0]->AppendEvent_run_id == run_id
            &&& rows[0]->AppendEvent_event_id == last_event_id + 1
            &&& rows[0]->AppendEvent_event is TimerFired
            &&& rows[0]->AppendEvent_event->TimerFired_seq == number
            &&& rows[0]->AppendEvent_ts == now
            &&& rows[1] == (WriteView::MarkRunnable { run_id, since: now })
            &&& rows[2] == (WriteView::DeleteTimer { run_id, seq })
        }),
{
    numbers_keep_their_bits(0, seq);
}

/// A worker goes by the policy that the task was scheduled with; a task whose policy is
/// not known is tried once. A lease lasts half a minute.
pub proof fn leases_go_by_the_policy(scheduled: EventView)
    ensures
        scheduled matches EventView::ActivityScheduled { retry, .. } ==> policy_of(scheduled)
            == retry,
        !(scheduled is ActivityScheduled) ==> policy_of(scheduled).max_attempts == 1,
        LEASE_TTL_MS == 30 * 1000,
{
}

/// A task is taken from its worker if its lease has run out, and only then: one more
/// task is one more row, or none.
pub proof fn expired_leases_are_taken_back(tasks: Seq<LeasedTask>, task: LeasedTask, now: i64)
    ensures
        reclaim_writes(Seq::empty(), now).len() == 0,
        task.lease_expires_at is Some && task.lease_expires_at->0 <= now ==> reclaim_writes(
            tasks.push(task),
            now,
        ) == reclaim_writes(tasks, now).push(
            WriteView::ReleaseTask { run_id: task.run_id@, seq: task.seq },
        ),
        task.lease_expires_at is None || task.lease_expires_at->0 > now ==> reclaim_writes(
            tasks.push(task),
            now,
        ) == reclaim_writes(tasks, now),
{
    assert(tasks.push(task).drop_last() =~= tasks);
}

/// Children are born in their order: three rows for each, which name the run that starts
/// them and the number under which it does.
proof fn lemma_children_in_order(run_id: Seq<char>, children: Seq<NewChildView>, now: i64, i: int)
    ensures
        child_writes(run_id, children, now).len() == 3 * children.len(),
        0 <= i < children.len() ==> {
            let rows = child_writes(run_id, children, now);
            let born = birth(
                children[i].child_run_id,
                children[i].child_workflow_id,
                children[i].workflow_type,
                Some(run_id),
                Some(children[i].seq),
                children[i].input,
                now,
            );
            rows[3 * i] == born[0] && rows[3 * i + 1] == born[1] && rows[3 * i + 2] == born[2]
        },
    decreases children.len(),
{
    if children.len() > 0 {
        lemma_children_in_order(run_id, children.drop_last(), now, i);
    }
}

/// The rows of a turn, in their order: its events at the places that follow the last of
/// the run's history, its tasks, its timers, three rows for each child, the notice to its
/// parent, the standing of the run with its result, and the note that nothing is new to
/// it any more.
pub proof fn turns_are_written_in_full(
    run_id: Seq<char>,
    commit: TurnCommitView,
    last_event_id: i64,
    parent_last_event_id: i64,
    now: i64,
    i: int,
)
    requires
        0 <= last_event_id,
        last_event_id + commit.events.len() < i64::MAX,
        parent_last_event_id < i64::MAX,
    ensures
        ({
            let rows = turn_writes(run_id, commit, last_event_id, parent_last_event_id, now);
            let tasks_at = commit.events.len() as int;
            let timers_at = tasks_at + commit.new_tasks.len();
            let children_at = timers_at + commit.new_timers.len();
            let notice_at = children_at + 3 * commit.new_children.len();
            let closing_at = notice_at + if commit.parent_notify is Some {
                2int
            } else {
                0int
            };
            &&& rows.len() == closing_at + 2
            &&& 0 <= i < commit.events.len() ==> {
                &&& rows[i] is AppendEvent
                &&& rows[i]->AppendEvent_run_id == run_id
                &&& rows[i]->AppendEvent_event_id == last_event_id + 1 + i
                &&& rows[i]->AppendEvent_event == commit.events[i]
                &&& rows[i]->AppendEvent_ts == now
            }
            &&& 0 <= i < commit.new_tasks.len() ==> {
                &&& rows[tasks_at + i] is PutTask
                &&& rows[tasks_at + i]->PutTask_run_id == run_id
                &&& rows[tasks_at + i]->PutTask_seq == commit.new_tasks[i].seq
                &&& rows[tasks_at + i]->PutTask_activity_type == commit.new_tasks[i].activity_type
                &&& rows[tasks_at + i]->PutTask_input == commit.new_tasks[i].input
                &&& rows[tasks_at + i]->PutTask_next_run_at == commit.new_tasks[i].next_run_at
            }
            &&& 0 <= i < commit.new_timers.len() ==> {
                &&& rows[timers_at + i] is PutTimer
                &&& rows[timers_at + i]->PutTimer_run_id == run_id
                &&& rows[timers_at + i]->PutTimer_seq == commit.new_timers[i].seq
                &&& rows[timers_at + i]->PutTimer_fire_at == commit.new_timers[i].fire_at
            }
            &&& 0 <= i < commit.new_children.len() ==> {
                let child = commit.new_children[i];
                let row = rows[children_at + 3 * i];
                let first = rows[children_at + 3 * i + 1];
                &&& row is InsertExecution
                &&& row->InsertExecution_run_id == child.child_run_id
                &&& row->InsertExecution_workflow_id == child.child_workflow_id
                &&& row->InsertExecution_workflow_type == child.workflow_type
                &&& row->InsertExecution_parent_run_id == Some(run_id)
                &&& row->InsertExecution_parent_seq == Some(child.seq)
                &&& row->InsertExecution_input == child.input
                &&& first is AppendEvent
                &&& first->AppendEvent_run_id == child.child_run_id
                &&& first->AppendEvent_event_id == 1
                &&& first->AppendEvent_event == (EventView::WorkflowStarted { input: child.input })
                &&& first->AppendEvent_ts == now
                &&& rows[children_at + 3 * i + 2] == (WriteView::MarkRunnable {
                    run_id: child.child_run_id,
                    since: now,
                })
            }
            &&& commit.parent_notify matches Some(notify) ==> {
                let told = rows[notice_at];
                &&& told is AppendEvent
                &&& told->AppendEvent_run_id == notify.parent_run_id
                &&& told->AppendEvent_event == notify.event
                &&& told->AppendEvent_ts == now
                &&& rows[notice_at + 1] == (WriteView::MarkRunnable {
                    run_id: notify.parent_run_id,
                    since: now,
                })
                &&& notify.parent_run_id == run_id ==> told->AppendEvent_event_id == last_event_id
                    + commit.events.len() + 1
                &&& notify.parent_run_id != run_id && parent_last_event_id >= 1
                    ==> told->AppendEvent_event_id == parent_last_event_id + 1
                &&& notify.parent_run_id != run_id && (forall|j: int|
                    0 <= j < commit.new_children.len() ==> (
                    #[trigger] commit.new_children[j]).child_run_id != notify.parent_run_id)
                    ==> told->AppendEvent_event_id == parent_last_event_id + 1
                &&& notify.parent_run_id != run_id && parent_last_event_id < 1 && 0 <= i
                    < commit.new_children.len() && commit.new_children[i].child_run_id
                    == notify.parent_run_id ==> told->AppendEvent_event_id == 2
            }
            &&& rows[closing_at] is SetStatus
            &&& rows[closing_at]->SetStatus_run_id == run_id
            &&& rows[closing_at]->SetStatus_status == commit.status
            &&& rows[closing_at]->SetStatus_result == commit.result
            &&& rows[closing_at + 1] is ClearRunnable
            &&& rows[closing_at + 1]->ClearRunnable_run_id == run_id
        }),
{
    lemma_children_in_order(run_id, commit.new_children, now, i);
    let place = place_before_notice(run_id, commit, last_event_id, parent_last_event_id);
    let w1 = event_writes(run_id, last_event_id, commit.events, now);
    let w2 = task_writes(run_id, commit.new_tasks);
    let w3 = timer_writes(run_id, commit.new_timers);
    let w4 = child_writes(run_id, commit.new_children, now);
    let w5 = notify_writes(commit.parent_notify, place, now);
    let w6 = closing_writes(run_id, commit.status, commit.result);
    let rows = turn_writes(run_id, commit, last_event_id, parent_last_event_id, now);
    assert(rows == w1 + w2 + w3 + w4 + w5 + w6);
    let n1 = w1.len() as int;
    let n2 = n1 + w2.len();
    let n3 = n2 + w3.len();
    let n4 = n3 + w4.len();
    let n5 = n4 + w5.len();
    if 0 <= i < w1.len() {
        assert(rows[i] == w1[i]);
    }
    if 0 <= i < w2.len() {
        assert(rows[n1 + i] == w2[i]);
    }
    if 0 <= i < w3.len() {
        assert(rows[n2 + i] == w3[i]);
    }
    if 0 <= i < commit.new_children.len() {
        assert(rows[n3 + 3 * i] == w4[3 * i]);
        assert(rows[n3 + 3 * i + 1] == w4[3 * i + 1]);
        assert(rows[n3 + 3 * i + 2] == w4[3 * i + 2]);
    }
    if commit.parent_notify is Some {
        assert(rows[n4] == w5[0]);
        assert(rows[n4 + 1] == w5[1]);
    }
    assert(rows[n5] == w6[0]);
    assert(rows[n5 + 1] == w6[1]);
}

/// The first and the last time of a run are those of two of its events, and no event is
/// before the first or after the last.
pub proof fn times_span_the_events(stamps: Seq<i64>)
    requires
        stamps.len() > 0,
    ensures
        stamps.contains(first_time(stamps)),
        stamps.contains(last_time(stamps)),
        forall|i: int|
            0 <= i < stamps.len() ==> first_time(stamps) <= #[trigger] stamps[i] <= last_time(
                stamps,
            ),
    decreases stamps.len(),
{
    let last = stamps.len() - 1;
    assert(stamps[last] == stamps.last());
    if stamps.len() > 1 {
        let before = stamps.drop_last();
        times_span_the_events(before);
        let a = choose|a: int| 0 <= a < before.len() && before[a] == first_time(before);
        let b = choose|b: int| 0 <= b < before.len() && before[b] == last_time(before);
        assert(stamps[a] == before[a]);
        assert(stamps[b] == before[b]);
        assert forall|i: int| 0 <= i < stamps.len() implies first_time(stamps)
            <= #[trigger] stamps[i] <= last_time(stamps) by {
            if i < last {
                assert(stamps[i] == before[i]);
            }
        }
    }
}

/// On the list, what was started last comes first.
pub proof fn newest_runs_come_first(list: Seq<SummaryView>, i: int, j: int)
    requires
        newest_first(list),
        0 <= i < j < list.len(),
    ensures
        list[i].started_at >= list[j].started_at,
{
}

/// Every run that no other run has started, and that has a history, has a line on the
/// list, with its own names, its status and the number of its events; no other run has
/// one.
pub proof fn root_runs_are_listed(runs: Seq<StoredRun>, run: StoredRun)
    requires
        run.stamps@.len() <= i64::MAX,
    ensures
        summaries(Seq::empty()).len() == 0,
        run.parent_run_id is Some || run.stamps@.len() == 0 ==> summaries(runs.push(run))
            == summaries(runs),
        run.parent_run_id is None && run.stamps@.len() > 0 ==> {
            let list = summaries(runs.push(run));
            let line = list.last();
            &&& list.len() == summaries(runs).len() + 1
            &&& list.drop_last() == summaries(runs)
            &&& line.run_id == run.run_id@
            &&& line.workflow_id == run.workflow_id@
            &&& line.workflow_type == run.workflow_type@
            &&& run.status@ == "completed"@ ==> line.status == ExecStatus::Completed
            &&& run.status@ == "failed"@ ==> line.status == ExecStatus::Failed
            &&& run.status@ != "completed"@ && run.status@ != "failed"@ ==> line.status
                == ExecStatus::Running
            &&& line.event_count == run.stamps@.len()
            &&& run.stamps@.contains(line.started_at)
            &&& run.stamps@.contains(line.last_event_at)
            &&& forall|i: int|
                0 <= i < run.stamps@.len() ==> line.started_at <= #[trigger] run.stamps@[i]
                    <= line.last_event_at
        },
{
    assert(runs.push(run).drop_last() =~= runs);
    if run.parent_run_id is None && run.stamps@.len() > 0 {
        times_span_the_events(run.stamps@);
        assert(summaries(runs).push(summary_of(run)).drop_last() =~= summaries(runs));
        if run.status@ == "completed"@ && run.status@ == "failed"@ {
            status_text_is_unambiguous(ExecStatus::Completed, ExecStatus::Failed);
        }
    }
}

/// A status is read back as what it was written as, and what is no status is taken for
/// running.
pub proof fn statuses_read_back(status: ExecStatus, text: Seq<char>)
    ensures
        status_of(status.text()) == status,
        ExecStatus::Running.text() == "running"@,
        ExecStatus::Completed.text() == "completed"@,
        ExecStatus::Failed.text() == "failed"@,
        ExecStatus::Completed.terminal(),
        ExecStatus::Failed.terminal(),
        !ExecStatus::Running.terminal(),
        text != "completed"@ && text != "failed"@ ==> status_of(text) == ExecStatus::Running,
{
    if status_of(status.text()) != status {
        if status.text() == ExecStatus::Completed.text() {
            status_text_is_unambiguous(status, ExecStatus::Completed);
        }
        if status.text() == ExecStatus::Failed.text() {
            status_text_is_unambiguous(status, ExecStatus::Failed);
        }
    }
}

/// What is next is due, and nothing came due before it, nor, of what is listed before
/// it, at the same time; if nothing is next, nothing is due.
pub proof fn what_came_due_first_is_next(
    rows: Seq<Waiting>,
    now: i64,
    due: Option<(Seq<char>, i64)>,
)
    requires
        is_next_due(rows, now, due),
    ensures
        due is None <==> forall|i: int| 0 <= i < rows.len() ==> (#[trigger] rows[i]).at > now,
        due matches Some((run_id, seq)) ==> exists|i: int|
            0 <= i < rows.len() && (#[trigger] rows[i]).run_id@ == run_id && rows[i].seq == seq
                && rows[i].at <= now && forall|j: int|
                0 <= j < rows.len() ==> rows[i].at <= (#[trigger] rows[j]).at && (j < i
                    ==> rows[i].at < rows[j].at),
{
    if let Some((run_id, seq)) = due {
        let i = choose|i: int|
            {
                &&& #[trigger] is_earliest(times(rows), i)
                &&& rows[i].at <= now
                &&& run_id == rows[i].run_id@
                &&& seq == rows[i].seq
            };
        assert forall|j: int| 0 <= j < rows.len() implies rows[i].at <= (#[trigger] rows[j]).at
            && (j < i ==> rows[i].at < rows[j].at) by {
            assert(times(rows)[j] == rows[j].at);
            assert(times(rows)[i] == rows[i].at);
        }
        assert(!(rows[i].at > now));
    }
}

/// With an event that speaks of a child goes the run of the first child that was started
/// under its number, if there is one; no other event has a child.
pub proof fn events_show_their_child(children: Seq<ChildRow>, event: EventView, i: int)
    ensures
        !(event is ChildScheduled) && !(event is ChildCompleted) ==> child_shown(
            children,
            event,
        ) is None,
        0 <= i < children.len() && (forall|j: int|
            0 <= j < i ==> (#[trigger] children[j]).parent_seq != children[i].parent_seq) ==> {
            let seq = children[i].parent_seq;
            let run_id = children[i].run_id@;
            &&& event is ChildScheduled && event->ChildScheduled_seq == seq ==> child_shown(
                children,
                event,
            ) == Some(run_id)
            &&& event is ChildCompleted && event->ChildCompleted_seq == seq ==> child_shown(
                children,
                event,
            ) == Some(run_id)
        },
        ({
            let seq = if event is ChildScheduled {
                event->ChildScheduled_seq
            } else {
                event->ChildCompleted_seq
            };
            seq <= i64::MAX && (forall|j: int|
                0 <= j < children.len() ==> (#[trigger] children[j]).parent_seq != seq)
                ==> child_shown(children, event) is None
        }),
{
    if 0 <= i < children.len() && (forall|j: int|
        0 <= j < i ==> (#[trigger] children[j]).parent_seq != children[i].parent_seq) {
        lemma_first_child(children, i);
    }
    let seq = if event is ChildScheduled {
        event->ChildScheduled_seq
    } else {
        event->ChildCompleted_seq
    };
    if seq <= i64::MAX && (forall|j: int|
        0 <= j < children.len() ==> (#[trigger] children[j]).parent_seq != seq) {
        lemma_no_child(children, seq as i64);
    }
}

proof fn lemma_first_child(children: Seq<ChildRow>, i: int)
    requires
        0 <= i < children.len(),
        forall|j: int| 0 <= j < i ==> (#[trigger] children[j]).parent_seq != children[i].parent_seq,
    ensures
        child_under(children, children[i].parent_seq) == Some(children[i].run_id@),
    decreases i,
{
    if i > 0 {
        let rest = children.drop_first();
        assert(children[0].parent_seq != children[i].parent_seq);
        assert(rest[i - 1] == children[i]);
        assert forall|j: int| 0 <= j < i - 1 implies (#[trigger] rest[j]).parent_seq != rest[i
            - 1].parent_seq by {
            assert(rest[j] == children[j + 1]);
        }
        lemma_first_child(rest, i - 1);
    }
}

proof fn lemma_no_child(children: Seq<ChildRow>, seq: i64)
    requires
        forall|j: int| 0 <= j < children.len() ==> (#[trigger] children[j]).parent_seq != seq,
    ensures
        child_under(children, seq) is None,
    decreases children.len(),
{
    if children.len() > 0 {
        let rest = children.drop_first();
        assert(children[0].parent_seq != seq);
        assert forall|j: int| 0 <= j < rest.len() implies (#[trigger] rest[j]).parent_seq
            != seq by {
            assert(rest[j] == children[j + 1]);
        }
        lemma_no_child(rest, seq);
    }
}

/// An event that has a number stands under it in its table; the start of a run, a signal
/// and a change marker stand under none.
pub proof fn events_stand_under_their_number(event: EventView)
    ensures
        match event {
            EventView::WorkflowStarted { .. } => seq_column_of(event) is None,
            EventView::SignalReceived { .. } => seq_column_of(event) is None,
            EventView::Patched { .. } => seq_column_of(event) is None,
            EventView::ActivityScheduled { seq, .. } => stands_under(event, seq),
            EventView::ActivityCompleted { seq, .. } => stands_under(event, seq),
            EventView::ActivityFailed { seq, .. } => stands_under(event, seq),
            EventView::TimerStarted { seq, .. } => stands_under(event, seq),
            EventView::TimerFired { seq } => stands_under(event, seq),
            EventView::ChildScheduled { seq, .. } => stands_under(event, seq),
            EventView::ChildCompleted { seq, .. } => stands_under(event, seq),
        },
{
    if let Some(seq) = event.seq() {
        numbers_keep_their_bits(seq, 0);
    }
}

/// Whether an event stands under that number in its table, which holds signed numbers.
pub open spec fn stands_under(event: EventView, seq: u64) -> bool {
    &&& seq_column_of(event) is Some
    &&& seq <= i64::MAX ==> seq_column_of(event)->0 == seq
    &&& seq > i64::MAX ==> seq_column_of(event)->0 == seq - 0x1_0000_0000_0000_0000
}

} // verus!
