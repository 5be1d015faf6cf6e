//! One piece of work: an activity task is taken, run, and its outcome recorded.
use crate::activity;
use crate::activity::error::{fatal_error, ErrorView};
use crate::activity::execution::ExecutionView;
use crate::activity::info::InfoView;
use crate::bytes::copy_bytes;
use crate::engine::registry::{Engine, EngineView};
use crate::engine::types::ActivityLease;
use crate::text::{i64_text, signed_decimal};
use crate::workflow::result::{activity_result_view, CommandResult};
use crate::workflow::retry::{backoff, RetryPolicy};
use vstd::prelude::*;
use vstd::string::*;

verus! {

/// The contents of an [`ActivityLease`].
#[verifier::ext_equal]
pub struct LeaseView {
    pub run_id: Seq<char>,
    pub workflow_id: Seq<char>,
    pub seq: i64,
    pub activity_type: Seq<char>,
    pub input: Seq<u8>,
    pub attempt: u32,
    pub retry: RetryPolicy,
}

impl View for ActivityLease {
    type V = LeaseView;

    open spec fn view(&self) -> LeaseView {
        LeaseView {
            run_id: self.run_id@,
            workflow_id: self.workflow_id@,
            seq: self.seq,
            activity_type: self.activity_type@,
            input: self.input@,
            attempt: self.attempt,
            retry: self.retry,
        }
    }
}

/// How far a piece of work has come: what it has asked for last.
pub enum Work {
    /// Nothing yet.
    Start,
    /// A task.
    Leasing,
    /// The run of the activity.
    Running { lease: ActivityLease },
    /// The record of the outcome.
    Recording,
    /// Nothing more.
    Over,
}

/// The contents of a [`Work`].
pub enum WorkView {
    Start,
    Leasing,
    Running { lease: LeaseView },
    Recording,
    Over,
}

impl View for Work {
    type V = WorkView;

    open spec fn view(&self) -> WorkView {
        match *self {
            Work::Start => WorkView::Start,
            Work::Leasing => WorkView::Leasing,
            Work::Running { lease } => WorkView::Running { lease: lease@ },
            Work::Recording => WorkView::Recording,
            Work::Over => WorkView::Over,
        }
    }
}

/// What has come back.
pub enum Report {
    /// Nothing was asked.
    Begin,
    /// A task that is due, if there is one.
    Leased(Option<ActivityLease>),
    /// What the activity gave, and what time it is.
    Ran { result: Result<Vec<u8>, activity::Error>, now: i64 },
    /// It is done.
    Done,
}

/// The contents of a [`Report`].
pub enum ReportView {
    Begin,
    Leased(Option<LeaseView>),
    Ran { result: Result<Seq<u8>, ErrorView>, now: i64 },
    Done,
}

impl View for Report {
    type V = ReportView;

    open spec fn view(&self) -> ReportView {
        match *self {
            Report::Begin => ReportView::Begin,
            Report::Leased(None) => ReportView::Leased(None),
            Report::Leased(Some(lease)) => ReportView::Leased(Some(lease@)),
            Report::Ran { result, now } => ReportView::Ran {
                result: activity_result_view(result),
                now,
            },
            Report::Done => ReportView::Done,
        }
    }
}

/// What a piece of work asks for.
pub enum Job {
    /// A task that is due.
    Lease,
    /// A run of the activity type that `info` names.
    Run { info: activity::Info, input: Vec<u8> },
    /// The record of a terminal outcome.
    Complete { lease: ActivityLease, result: CommandResult },
    /// Another attempt, not before `next_run_at`.
    Reschedule { lease: ActivityLease, next_run_at: i64 },
    /// Nothing more: whether there was a task.
    Finish { worked: bool },
}

/// The contents of a [`Job`].
pub enum JobView {
    Lease,
    Run { info: InfoView, input: Seq<u8> },
    Complete { lease: LeaseView, result: Result<Seq<u8>, ErrorView> },
    Reschedule { lease: LeaseView, next_run_at: i64 },
    Finish { worked: bool },
}

impl View for Job {
    type V = JobView;

    open spec fn view(&self) -> JobView {
        match *self {
            Job::Lease => JobView::Lease,
            Job::Run { info, input } => JobView::Run { info: info@, input: input@ },
            Job::Complete { lease, result } => JobView::Complete {
                lease: lease@,
                result: result@,
            },
            Job::Reschedule { lease, next_run_at } => JobView::Reschedule {
                lease: lease@,
                next_run_at,
            },
            Job::Finish { worked } => JobView::Finish { worked },
        }
    }
}

/// Whether work that has come that far can get that report.
pub open spec fn matches_work(work: WorkView, report: ReportView) -> bool {
    match (work, report) {
        (WorkView::Start, ReportView::Begin) => true,
        (WorkView::Leasing, ReportView::Leased(_)) => true,
        (WorkView::Running { .. }, ReportView::Ran { .. }) => true,
        (WorkView::Recording, ReportView::Done) => true,
        _ => false,
    }
}

/// What an activity is told about the attempt.
pub open spec fn attempt_info(lease: LeaseView) -> InfoView {
    InfoView {
        execution: ExecutionView { workflow_id: lease.workflow_id, run_id: lease.run_id },
        activity_id: signed_decimal(lease.seq as int),
        activity_type: lease.activity_type,
        attempt: lease.attempt,
    }
}

/// Whether a failure of that attempt is the last word.
pub open spec fn exhausted(lease: LeaseView, error: ErrorView) -> bool {
    error.non_retryable || lease.attempt >= lease.retry.max_attempts
}

/// What is done with what an attempt gave: its outcome is recorded, or, where
/// another attempt may mend it, it is tried again after the backoff.
pub open spec fn resolved(
    lease: LeaseView,
    result: Result<Seq<u8>, ErrorView>,
    now: i64,
) -> JobView {
    match result {
        Ok(_) => JobView::Complete { lease, result },
        Err(error) => if exhausted(lease, error) {
            JobView::Complete { lease, result }
        } else {
            JobView::Reschedule {
                lease,
                next_run_at: now.wrapping_add(
                    backoff(lease.retry, (lease.attempt + 1) as u32) as i64,
                ),
            }
        },
    }
}

/// What a piece of work does next. An activity type that cannot be run fails for
/// good.
pub open spec fn worked(engine: EngineView, work: WorkView, report: ReportView) -> (
    WorkView,
    JobView,
) {
    match (work, report) {
        (WorkView::Start, ReportView::Begin) => (WorkView::Leasing, JobView::Lease),
        (WorkView::Leasing, ReportView::Leased(None)) => (
            WorkView::Over,
            JobView::Finish { worked: false },
        ),
        (WorkView::Leasing, ReportView::Leased(Some(lease))) => if engine.activities.contains(
            lease.activity_type,
        ) {
            (
                WorkView::Running { lease },
                JobView::Run { info: attempt_info(lease), input: lease.input },
            )
        } else {
            (
                WorkView::Recording,
                JobView::Complete {
                    lease,
                    result: Err(fatal_error("unregistered activity "@ + lease.activity_type)),
                },
            )
        },
        (WorkView::Running { lease }, ReportView::Ran { result, now }) => (
            WorkView::Recording,
            resolved(lease, result, now),
        ),
        (WorkView::Recording, ReportView::Done) => (
            WorkView::Over,
            JobView::Finish { worked: true },
        ),
        _ => (WorkView::Over, JobView::Finish { worked: false }),
    }
}

impl Engine {
    /// Takes a piece of work one step further: runs one activity task that is due.
    pub fn process_one_activity(&self, work: Work, report: Report) -> (next: (Work, Job))
        requires
            matches_work(work@, report@),
        ensures
            (next.0@, next.1@) == worked(self@, work@, report@),
    {
        match (work, report) {
            (Work::Start, Report::Begin) => (Work::Leasing, Job::Lease),
            (Work::Leasing, Report::Leased(None)) => (Work::Over, Job::Finish { worked: false }),
            (Work::Leasing, Report::Leased(Some(lease))) => {
                if self.runs_activity(lease.activity_type.as_str()) {
                    let info = activity::Info {
                        execution: activity::Execution {
                            workflow_id: lease.workflow_id.clone(),
                            run_id: lease.run_id.clone(),
                        },
                        activity_id: i64_text(lease.seq),
                        activity_type: lease.activity_type.clone(),
                        attempt: lease.attempt,
                    };
                    let input = copy_bytes(&lease.input);
                    (Work::Running { lease }, Job::Run { info, input })
                } else {
                    let mut message = String::from_str("unregistered activity ");
                    message.append(lease.activity_type.as_str());
                    let error = activity::Error::fatal(message.as_str());
                    (
                        Work::Recording,
                        Job::Complete { lease, result: CommandResult::ActivityFailed(error) },
                    )
                }
            },
            (Work::Running { lease }, Report::Ran { result, now }) => match result {
                Ok(output) => (
                    Work::Recording,
                    Job::Complete { lease, result: CommandResult::ActivityCompleted(output) },
                ),
                Err(error) => {
                    if error.non_retryable || lease.attempt >= lease.retry.max_attempts {
                        (
                            Work::Recording,
                            Job::Complete {
                                lease,
                                result: CommandResult::ActivityFailed(error),
                            },
                        )
                    } else {
                        let delay: i64 = lease.retry.backoff_ms(lease.attempt + 1) as i64;
                        let next_run_at: i64 = now.wrapping_add(delay);
                        (Work::Recording, Job::Reschedule { lease, next_run_at })
                    }
                },
            },
            (Work::Recording, Report::Done) => (Work::Over, Job::Finish { worked: true }),
            _ => (Work::Over, Job::Finish { worked: false }),
        }
    }
}

/// A task is tried again only while attempts are left, and never after a failure
/// that no retry can mend.
pub proof fn attempts_are_bounded(lease: LeaseView, result: Result<Seq<u8>, ErrorView>, now: i64)
    requires
        resolved(lease, result, now) is Reschedule,
    ensures
        result is Err,
        !result->Err_0.non_retryable,
        lease.attempt < lease.retry.max_attempts,
{
}

/// Under a policy of one attempt, every first outcome is the last word.
pub proof fn single_attempt_is_final(
    lease: LeaseView,
    result: Result<Seq<u8>, ErrorView>,
    now: i64,
)
    requires
        lease.attempt >= 1,
        lease.retry == crate::workflow::retry::single_attempt(),
    ensures
        resolved(lease, result, now) == (JobView::Complete { lease, result }),
{
}

} // verus!
