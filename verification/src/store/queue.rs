//! Handing out activity tasks and firing timers.
use crate::activity::error::ErrorView;
use crate::engine::types::ActivityLease;
use crate::engine::work::LeaseView;
use crate::store::history::{arrival, push_arrival};
use crate::store::write::{write_views, Write, WriteView};
use crate::workflow::event::{Event, EventView};
use crate::workflow::result::CommandResult;
use crate::workflow::retry::{single_attempt, RetryPolicy};
use vstd::prelude::*;
use vstd::string::*;

verus! {

/// How many milliseconds a worker may keep a task before it is given to another.
pub const LEASE_TTL_MS: i64 = 30_000;

/// A task that is due, as the store has it, with the workflow of its run and the
/// event that scheduled it. `attempt` counts the attempts so far.
pub struct DueTask {
    pub run_id: String,
    pub workflow_id: String,
    pub seq: i64,
    pub activity_type: String,
    pub input: Vec<u8>,
    pub attempt: i64,
    pub scheduled: Event,
}

/// The retry policy that a task was scheduled with.
pub open spec fn policy_of(scheduled: EventView) -> RetryPolicy {
    match scheduled {
        EventView::ActivityScheduled { retry, .. } => retry,
        _ => single_attempt(),
    }
}

/// Hands a task that is due to a worker: it is one attempt further, and the worker
/// has it for a while.
pub fn lease_activity(task: DueTask, now: i64) -> (leased: (ActivityLease, Vec<Write>))
    requires
        0 <= task.attempt < u32::MAX,
        now <= i64::MAX - LEASE_TTL_MS,
    ensures
        leased.0@ == (LeaseView {
            run_id: task.run_id@,
            workflow_id: task.workflow_id@,
            seq: task.seq,
            activity_type: task.activity_type@,
            input: task.input@,
            attempt: (task.attempt + 1) as u32,
            retry: policy_of(task.scheduled@),
        }),
        write_views(leased.1@) == seq![
            WriteView::LeaseTask {
                run_id: task.run_id@,
                seq: task.seq,
                attempt: (task.attempt + 1) as i64,
                lease_expires_at: (now + LEASE_TTL_MS) as i64,
            },
        ],
        leased.0.attempt == task.attempt + 1,
        leased.1@.len() == 1,
        leased.1@[0]@->LeaseTask_attempt == task.attempt + 1,
        leased.1@[0]@->LeaseTask_lease_expires_at == now + 30_000,
{
    let retry = match &task.scheduled {
        Event::ActivityScheduled { retry, .. } => *retry,
        _ => RetryPolicy::none(),
    };
    let attempt: i64 = task.attempt + 1;
    let mut writes: Vec<Write> = Vec::new();
    writes.push(
        Write::LeaseTask {
            run_id: task.run_id.clone(),
            seq: task.seq,
            attempt,
            lease_expires_at: now + LEASE_TTL_MS,
        },
    );
    assert(write_views(writes@) =~= seq![writes@[0]@]);
    (
        ActivityLease {
            run_id: task.run_id,
            workflow_id: task.workflow_id,
            seq: task.seq,
            activity_type: task.activity_type,
            input: task.input,
            attempt: attempt as u32,
            retry,
        },
        writes,
    )
}

/// The event that records the outcome of the activity `seq`.
pub open spec fn outcome_event(seq: i64, result: Result<Seq<u8>, ErrorView>) -> EventView {
    match result {
        Ok(output) => EventView::ActivityCompleted { seq: seq as u64, output },
        Err(error) => EventView::ActivityFailed { seq: seq as u64, error },
    }
}

/// What records the terminal outcome of a task.
pub open spec fn completion_writes(
    run_id: Seq<char>,
    seq: i64,
    result: Result<Seq<u8>, ErrorView>,
    last_event_id: i64,
    now: i64,
) -> Seq<WriteView> {
    arrival(run_id, last_event_id, outcome_event(seq, result), now).push(
        WriteView::FinishTask { run_id, seq },
    )
}

/// Records the terminal outcome of a task. `last_event_id` is the last place of the
/// run's history.
pub fn complete_activity(
    run_id: &str,
    seq: i64,
    result: CommandResult,
    last_event_id: i64,
    now: i64,
) -> (writes: Vec<Write>)
    requires
        last_event_id < i64::MAX,
    ensures
        write_views(writes@) == completion_writes(run_id@, seq, result@, last_event_id, now),
{
    let ghost outcome = result@;
    let event = match result {
        CommandResult::ActivityCompleted(output) => Event::ActivityCompleted {
            seq: seq as u64,
            output,
        },
        CommandResult::ActivityFailed(error) => Event::ActivityFailed { seq: seq as u64, error },
    };
    let mut writes: Vec<Write> = Vec::new();
    assert(write_views(writes@) =~= Seq::empty());
    push_arrival(&mut writes, run_id, last_event_id, event, now);
    let ghost before = writes@;
    writes.push(Write::FinishTask { run_id: String::from_str(run_id), seq });
    proof {
        crate::store::write::lemma_write_pushed(before, writes@.last());
        assert(writes@ =~= before.push(writes@.last()));
        assert(write_views(writes@) =~= completion_writes(
            run_id@,
            seq,
            outcome,
            last_event_id,
            now,
        ));
    }
    writes
}

/// Puts a task back for another attempt.
pub fn reschedule_activity(run_id: &str, seq: i64, next_run_at: i64) -> (writes: Vec<Write>)
    ensures
        write_views(writes@) == seq![
            WriteView::RequeueTask { run_id: run_id@, seq, next_run_at },
        ],
{
    let mut writes: Vec<Write> = Vec::new();
    writes.push(Write::RequeueTask { run_id: String::from_str(run_id), seq, next_run_at });
    assert(write_views(writes@) =~= seq![writes@[0]@]);
    writes
}

/// What firing a timer writes.
pub open spec fn firing_writes(
    run_id: Seq<char>,
    seq: i64,
    last_event_id: i64,
    now: i64,
) -> Seq<WriteView> {
    arrival(run_id, last_event_id, EventView::TimerFired { seq: seq as u64 }, now).push(
        WriteView::DeleteTimer { run_id, seq },
    )
}

/// Fires a timer that is due, if there is one: its end is recorded, and it is gone.
/// `last_event_id` is the last place of its run's history.
pub fn fire_due_timer(due: Option<(String, i64)>, last_event_id: i64, now: i64) -> (fired: (
    bool,
    Vec<Write>,
))
    requires
        last_event_id < i64::MAX,
    ensures
        match due {
            None => !fired.0 && fired.1@.len() == 0,
            Some((run_id, seq)) => fired.0 && write_views(fired.1@) == firing_writes(
                run_id@,
                seq,
                last_event_id,
                now,
            ),
        },
{
    match due {
        None => (false, Vec::new()),
        Some((run_id, seq)) => {
            let mut writes: Vec<Write> = Vec::new();
            assert(write_views(writes@) =~= Seq::empty());
            push_arrival(
                &mut writes,
                run_id.as_str(),
                last_event_id,
                Event::TimerFired { seq: seq as u64 },
                now,
            );
            let ghost before = writes@;
            let ghost id = run_id@;
            writes.push(Write::DeleteTimer { run_id, seq });
            proof {
                crate::store::write::lemma_write_pushed(before, writes@.last());
                assert(writes@ =~= before.push(writes@.last()));
                assert(write_views(writes@) =~= firing_writes(id, seq, last_event_id, now));
            }
            (true, writes)
        },
    }
}

/// A task that a worker has, and when its lease expires, if it does.
pub struct LeasedTask {
    pub run_id: String,
    pub seq: i64,
    pub lease_expires_at: Option<i64>,
}

/// Whether the lease has run out at `now`.
pub open spec fn is_expired(task: LeasedTask, now: i64) -> bool {
    task.lease_expires_at matches Some(t) && t <= now
}

/// What takes the tasks whose lease has run out from their workers, in their order.
pub open spec fn reclaim_writes(tasks: Seq<LeasedTask>, now: i64) -> Seq<WriteView>
    decreases tasks.len(),
{
    if tasks.len() == 0 {
        Seq::empty()
    } else {
        let before = reclaim_writes(tasks.drop_last(), now);
        if is_expired(tasks.last(), now) {
            before.push(
                WriteView::ReleaseTask { run_id: tasks.last().run_id@, seq: tasks.last().seq },
            )
        } else {
            before
        }
    }
}

/// Takes the tasks whose lease has run out from their workers: one write for each.
pub fn reclaim_expired_activities(tasks: &Vec<LeasedTask>, now: i64) -> (writes: Vec<Write>)
    ensures
        write_views(writes@) == reclaim_writes(tasks@, now),
{
    let mut writes: Vec<Write> = Vec::new();
    let mut i: usize = 0;
    proof {
        assert(tasks@.take(0) =~= Seq::empty());
        assert(write_views(writes@) =~= Seq::empty());
    }
    while i < tasks.len()
        invariant
            i <= tasks.len(),
            write_views(writes@) == reclaim_writes(tasks@.take(i as int), now),
        decreases tasks.len() - i,
    {
        let task = &tasks[i];
        let ghost before = writes@;
        proof {
            assert(tasks@.take(i + 1).drop_last() =~= tasks@.take(i as int));
            assert(tasks@.take(i + 1).last() == *task);
        }
        let expired = match task.lease_expires_at {
            Some(t) => t <= now,
            None => false,
        };
        if expired {
            writes.push(Write::ReleaseTask { run_id: task.run_id.clone(), seq: task.seq });
            proof {
                crate::store::write::lemma_write_pushed(before, writes@.last());
                assert(writes@ =~= before.push(writes@.last()));
            }
        }
        i = i + 1;
    }
    assert(tasks@.take(i as int) =~= tasks@);
    writes
}

} // verus!
