//! The course that turns and pieces of work take.
use crate::activity::error::ErrorView;
use crate::engine::drive::{fits, turned, AnswerView, AskView, TurnView};
use crate::engine::plan::planned;
use crate::engine::registry::EngineView;
use crate::engine::types::{ExecStatus, RunMetaView};
use crate::engine::work::{
    matches_work, resolved, worked, JobView, LeaseView, ReportView, WorkView,
};
use crate::json::quoted;
use crate::text::{decimal, negative_numerals_have_a_sign, numbers_keep_their_bits};
use crate::workflow::event::EventView;
use crate::workflow::replay::{NondeterminismView, ReplayOutcomeView};
use crate::workflow::retry::{backoff, delays_are_multiplied};
use vstd::prelude::*;
use vstd::utf8::encode_utf8;

verus! {

/// An attempt that succeeds is the last, and so is one that fails for good or that uses
/// up the attempts of the policy: its outcome is recorded as it came. After any other
/// failure the same task is tried again, and not before the delay that the policy has
/// for the next attempt.
pub proof fn failures_are_tried_again_in_time(
    lease: LeaseView,
    result: Result<Seq<u8>, ErrorView>,
    now: i64,
)
    ensures
        result is Ok ==> resolved(lease, result, now) == (JobView::Complete { lease, result }),
        result matches Err(error) ==> {
            let again = !error.non_retryable && lease.attempt < lease.retry.max_attempts;
            &&& !again ==> resolved(lease, result, now) == (JobView::Complete { lease, result })
            &&& again ==> {
                &&& resolved(lease, result, now) is Reschedule
                &&& resolved(lease, result, now)->Reschedule_lease == lease
                &&& now + backoff(lease.retry, (lease.attempt + 1) as u32) <= i64::MAX
                    ==> resolved(lease, result, now)->Reschedule_next_run_at == now + backoff(
                    lease.retry,
                    (lease.attempt + 1) as u32,
                )
                &&& now + backoff(lease.retry, (lease.attempt + 1) as u32) > i64::MAX
                    ==> resolved(lease, result, now)->Reschedule_next_run_at == now + backoff(
                    lease.retry,
                    (lease.attempt + 1) as u32,
                ) - 0x1_0000_0000_0000_0000
                &&& lease.attempt == 1 && now + lease.retry.initial_ms <= i64::MAX ==> resolved(
                    lease,
                    result,
                    now,
                )->Reschedule_next_run_at == now + lease.retry.initial_ms
            }
        },
{
    if let Err(error) = result {
        if !error.non_retryable && lease.attempt < lease.retry.max_attempts {
            let delay = backoff(lease.retry, (lease.attempt + 1) as u32);
            delays_are_multiplied(lease.retry, 2);
            if lease.attempt >= 1 && lease.attempt + 1 < u32::MAX {
                delays_are_multiplied(lease.retry, (lease.attempt + 1) as u32);
            } else if lease.attempt + 1 == u32::MAX {
                delays_are_multiplied(lease.retry, lease.attempt);
            }
            let ms = delay as u64;
            assert(ms == delay);
            numbers_keep_their_bits(ms, 0);
        }
    }
}

/// A task that is taken is run once, on its own input and with its own name, number and
/// attempt, if the engine runs its type; otherwise it fails for good. Either way its
/// outcome is recorded, and then the work is over. Without a task it is over at once.
pub proof fn taken_tasks_are_run_and_recorded(
    engine: EngineView,
    lease: LeaseView,
    result: Result<Seq<u8>, ErrorView>,
    now: i64,
)
    ensures
        worked(engine, WorkView::Start, ReportView::Begin) == (WorkView::Leasing, JobView::Lease),
        worked(engine, WorkView::Leasing, ReportView::Leased(None)).1 == (JobView::Finish {
            worked: false,
        }),
        ({
            let (next, job) = worked(engine, WorkView::Leasing, ReportView::Leased(Some(lease)));
            if engine.activities.contains(lease.activity_type) {
                &&& next == (WorkView::Running { lease })
                &&& job is Run
                &&& job->Run_input == lease.input
                &&& job->Run_info.execution.run_id == lease.run_id
                &&& job->Run_info.execution.workflow_id == lease.workflow_id
                &&& job->Run_info.activity_type == lease.activity_type
                &&& job->Run_info.attempt == lease.attempt
                &&& lease.seq >= 0 ==> job->Run_info.activity_id == decimal(lease.seq as nat)
            } else {
                &&& next is Recording
                &&& job is Complete
                &&& job->Complete_lease == lease
                &&& job->Complete_result is Err
                &&& job->Complete_result->Err_0.message == "unregistered activity "@
                    + lease.activity_type
                &&& job->Complete_result->Err_0.non_retryable
            }
        }),
        ({
            let (next, job) = worked(
                engine,
                WorkView::Running { lease },
                ReportView::Ran { result, now },
            );
            next is Recording && (job is Complete || job is Reschedule) && job == resolved(
                lease,
                result,
                now,
            )
        }),
        worked(engine, WorkView::Recording, ReportView::Done).1 == (JobView::Finish {
            worked: true,
        }),
{
    if lease.seq >= 0 {
        negative_numerals_have_a_sign(lease.seq as nat);
    }
}

/// A turn works on the run that was picked. If there is none, there is nothing to do; a
/// run that the store does not know is an error. A run that is over is not replayed: it
/// keeps its standing and its stored result, nothing is added to it, and nobody is told.
pub proof fn turns_leave_finished_runs_alone(
    engine: EngineView,
    run_id: Seq<char>,
    found: RunMetaView,
    meta: RunMetaView,
    stored: (ExecStatus, Option<Seq<u8>>),
    ids: Seq<Seq<char>>,
)
    ensures
        turned(engine, TurnView::Start, AnswerView::Begin, ids).1 is NextRunnable,
        turned(engine, TurnView::Picking, AnswerView::Runnable(None), ids).1 == (AskView::Finish {
            worked: false,
        }),
        turned(engine, TurnView::Picking, AnswerView::Runnable(Some(run_id)), ids).1 == (
        AskView::LoadRun { run_id }),
        turned(engine, TurnView::Loading { run_id }, AnswerView::Run(None), ids).1 == (
        AskView::Fail { message: "runnable run "@ + run_id + " has no execution row"@ }),
        ({
            let (next, ask) = turned(
                engine,
                TurnView::Loading { run_id },
                AnswerView::Run(Some(found)),
                ids,
            );
            if found.status == ExecStatus::Running {
                &&& ask == (AskView::ReadHistory { run_id })
                &&& next == (TurnView::Reading { meta: RunMetaView { run_id, ..found } })
            } else {
                &&& ask == (AskView::FindExecution { workflow_id: found.workflow_id })
                &&& next == (TurnView::Settling { meta: RunMetaView { run_id, ..found } })
            }
        }),
        turned(engine, TurnView::Settling { meta }, AnswerView::Execution(None), ids).1 == (
        AskView::Fail { message: "terminal run "@ + meta.run_id + " has no execution row"@ }),
        ({
            let (next, ask) = turned(
                engine,
                TurnView::Settling { meta },
                AnswerView::Execution(Some(stored)),
                ids,
            );
            &&& next == (TurnView::Committing { announcement: None })
            &&& ask is Commit
            &&& ask->Commit_run_id == meta.run_id
            &&& ask->Commit_commit.status == meta.status
            &&& ask->Commit_commit.result == stored.1
            &&& ask->Commit_commit.parent_notify is None
            &&& ask->Commit_commit.events.len() == 0
            &&& ask->Commit_commit.new_tasks.len() == 0
            &&& ask->Commit_commit.new_timers.len() == 0
            &&& ask->Commit_commit.new_children.len() == 0
        }),
{
}

/// A run that goes on is replayed from the history that was read, and told who it is:
/// its ids, its type and its parent, if it has one. If the engine does not run its type,
/// or the replay does not go through, the run fails, and its result says why.
pub proof fn turns_replay_what_they_read(
    engine: EngineView,
    meta: RunMetaView,
    events: Seq<EventView>,
    parent: Option<RunMetaView>,
    wrong: NondeterminismView,
    now: i64,
    ids: Seq<Seq<char>>,
)
    ensures
        meta.parent_run_id matches Some(parent_run_id) ==> turned(
            engine,
            TurnView::Reading { meta },
            AnswerView::History(events),
            ids,
        ) == (TurnView::Tracing { meta, events }, AskView::LoadRun { run_id: parent_run_id }),
        ({
            let (next, ask) = if meta.parent_run_id is None {
                turned(engine, TurnView::Reading { meta }, AnswerView::History(events), ids)
            } else {
                turned(engine, TurnView::Tracing { meta, events }, AnswerView::Run(parent), ids)
            };
            if engine.workflows.contains(meta.workflow_type) {
                &&& next == (TurnView::Replaying { meta, events })
                &&& ask is Replay
                &&& ask->Replay_events == events
                &&& ask->Replay_info.workflow_type == meta.workflow_type
                &&& ask->Replay_info.execution.run_id == meta.run_id
                &&& ask->Replay_info.execution.workflow_id == meta.workflow_id
                &&& ask->Replay_info.parent is Some <==> meta.parent_run_id is Some
                    && parent is Some
                &&& ask->Replay_info.parent is Some ==> {
                    &&& ask->Replay_info.parent->0.run_id == meta.parent_run_id->0
                    &&& ask->Replay_info.parent->0.workflow_id == parent->0.workflow_id
                }
            } else {
                &&& ask is Commit
                &&& ask->Commit_run_id == meta.run_id
                &&& ask->Commit_commit.status == ExecStatus::Failed
                &&& ask->Commit_commit.result == Some(
                    encode_utf8(
                        "{\"message\":"@ + quoted("unregistered workflow "@ + meta.workflow_type)
                            + "}"@,
                    ),
                )
                &&& ask->Commit_commit.events.len() == 0
                &&& tells_parent_and_world(
                    engine,
                    meta,
                    "unregistered workflow "@ + meta.workflow_type,
                    next,
                    ask,
                )
            }
        }),
        ({
            let (next, ask) = turned(
                engine,
                TurnView::Replaying { meta, events },
                AnswerView::Replayed { outcome: Err(wrong), now },
                ids,
            );
            &&& ask is Commit
            &&& ask->Commit_run_id == meta.run_id
            &&& ask->Commit_commit.status == ExecStatus::Failed
            &&& ask->Commit_commit.result == Some(
                encode_utf8(
                    "{\"message\":"@ + quoted(
                        "nondeterminism in "@ + meta.workflow_type + ": "@ + (
                        "nondeterminism at seq "@ + decimal(wrong.seq as nat) + ": "@
                            + wrong.detail),
                    ) + "}"@,
                ),
            )
            &&& ask->Commit_commit.events.len() == 0
            &&& ask->Commit_commit.new_tasks.len() == 0
            &&& tells_parent_and_world(
                engine,
                meta,
                "nondeterminism in "@ + meta.workflow_type + ": "@ + ("nondeterminism at seq "@
                    + decimal(wrong.seq as nat) + ": "@ + wrong.detail),
                next,
                ask,
            )
        }),
{
}

/// Whether a run that has failed with `message` tells its parent so, if it has one, under
/// the number that the parent has for it, and whoever wants to hear of it: with its ids,
/// and with the result that is committed.
pub open spec fn tells_parent_and_world(
    engine: EngineView,
    meta: RunMetaView,
    message: Seq<char>,
    next: TurnView,
    ask: AskView,
) -> bool {
    &&& match (meta.parent_run_id, meta.parent_seq) {
        (Some(run_id), Some(seq)) => {
            let told = ask->Commit_commit.parent_notify;
            &&& told is Some
            &&& told->0.parent_run_id == run_id
            &&& told->0.event is ChildCompleted
            &&& seq >= 0 ==> told->0.event->ChildCompleted_seq == seq
            &&& told->0.event->ChildCompleted_result == Err::<Seq<u8>, Seq<char>>(message)
        },
        _ => ask->Commit_commit.parent_notify is None,
    }
    &&& next is Committing
    &&& match next->announcement {
        Some(announcement) => {
            &&& engine.observed
            &&& announcement.run_id == meta.run_id
            &&& announcement.workflow_id == meta.workflow_id
            &&& announcement.status == ExecStatus::Failed
            &&& announcement.result == ask->Commit_commit.result
        },
        None => !engine.observed,
    }
}

/// What a turn commits goes to its run. A commit that ends the run is announced
/// afterwards, with the ids, the standing and the result of the run, if somebody wants
/// to hear of it; then the turn is over.
pub proof fn turns_commit_and_announce(
    engine: EngineView,
    meta: RunMetaView,
    events: Seq<EventView>,
    outcome: ReplayOutcomeView,
    now: i64,
    ids: Seq<Seq<char>>,
)
    ensures
        ({
            let (next, ask) = turned(
                engine,
                TurnView::Replaying { meta, events },
                AnswerView::Replayed { outcome: Ok(outcome), now },
                ids,
            );
            let (after, last) = turned(engine, next, AnswerView::Done, ids);
            &&& ask is Commit
            &&& ask->Commit_run_id == meta.run_id
            &&& ask->Commit_commit == planned(
                meta.workflow_id,
                meta.parent_run_id,
                meta.parent_seq,
                events,
                outcome,
                now,
                ids,
            )
            &&& if outcome.completion is Some && engine.observed {
                &&& last is Announce
                &&& last->announcement.run_id == meta.run_id
                &&& last->announcement.workflow_id == meta.workflow_id
                &&& outcome.completion->0 is Ok ==> last->announcement.status
                    == ExecStatus::Completed && last->announcement.result == Some(
                    outcome.completion->0->Ok_0,
                )
                &&& outcome.completion->0 is Err ==> last->announcement.status == ExecStatus::Failed
                    && last->announcement.result == Some(
                    encode_utf8(
                        "{\"message\":"@ + quoted(outcome.completion->0->Err_0) + "}"@,
                    ),
                )
                &&& turned(engine, after, AnswerView::Done, ids).1 == (AskView::Finish {
                    worked: true,
                })
            } else {
                last == (AskView::Finish { worked: true })
            }
        }),
{
}


/// What a turn asks for can be answered: it is over when it asks for nothing more, and
/// until then it takes the answer to what it has asked for.
pub proof fn turns_take_the_answers_they_ask_for(
    engine: EngineView,
    turn: TurnView,
    answer: AnswerView,
    ids: Seq<Seq<char>>,
    run_id: Option<Seq<char>>,
    meta: Option<RunMetaView>,
    stored: Option<(ExecStatus, Option<Seq<u8>>)>,
    events: Seq<EventView>,
    outcome: Result<ReplayOutcomeView, NondeterminismView>,
    now: i64,
)
    requires
        fits(turn, answer),
    ensures
        ({
            let (next, ask) = turned(engine, turn, answer, ids);
            match ask {
                AskView::NextRunnable => fits(next, AnswerView::Runnable(run_id)),
                AskView::LoadRun { .. } => fits(next, AnswerView::Run(meta)),
                AskView::FindExecution { .. } => fits(next, AnswerView::Execution(stored)),
                AskView::ReadHistory { .. } => fits(next, AnswerView::History(events)),
                AskView::Replay { .. } => fits(next, AnswerView::Replayed { outcome, now }),
                AskView::Commit { .. } => fits(next, AnswerView::Done),
                AskView::Announce { .. } => fits(next, AnswerView::Done),
                AskView::Finish { .. } => next is Over,
                AskView::Fail { .. } => next is Over,
            }
        }),
        fits(TurnView::Start, AnswerView::Begin),
{
}

/// What a piece of work asks for can be answered: it is over when it asks for nothing
/// more, and until then it takes the report on what it has asked for.
pub proof fn work_takes_the_reports_it_asks_for(
    engine: EngineView,
    work: WorkView,
    report: ReportView,
    lease: Option<LeaseView>,
    result: Result<Seq<u8>, ErrorView>,
    now: i64,
)
    requires
        matches_work(work, report),
    ensures
        ({
            let (next, job) = worked(engine, work, report);
            match job {
                JobView::Lease => matches_work(next, ReportView::Leased(lease)),
                JobView::Run { .. } => matches_work(next, ReportView::Ran { result, now }),
                JobView::Complete { .. } => matches_work(next, ReportView::Done),
                JobView::Reschedule { .. } => matches_work(next, ReportView::Done),
                JobView::Finish { .. } => next is Over,
            }
        }),
        matches_work(WorkView::Start, ReportView::Begin),
{
}

} // verus!
