//! What a workflow body awaits.
use crate::activity;
use crate::bytes::copy_bytes;
use crate::workflow::command::{Command, CommandView};
use crate::workflow::context::Context;
use crate::workflow::error::Error;
use crate::workflow::poll::Poll;
use crate::workflow::result::{activity_result_view, result_view};
use crate::workflow::retry::RetryPolicy;
use vstd::prelude::*;
use vstd::string::*;

verus! {

/// The outcome of one activity call. `seq` identifies the call in the history.
pub struct ActivityFuture {
    pub seq: u64,
    pub activity_type: String,
    pub input: Vec<u8>,
    pub retry: RetryPolicy,
}

impl ActivityFuture {
    /// The command that schedules the call.
    pub open spec fn command(self) -> CommandView {
        CommandView::ScheduleActivity {
            seq: self.seq,
            activity_type: self.activity_type@,
            input: self.input@,
            retry: self.retry,
        }
    }

    /// The call `seq` of an activity.
    pub fn new(seq: u64, activity_type: String, input: Vec<u8>, retry: RetryPolicy) -> (future:
        Self)
        ensures
            future.seq == seq,
            future.activity_type@ == activity_type@,
            future.input@ == input@,
            future.retry == retry,
    {
        ActivityFuture { seq, activity_type, input, retry }
    }

    /// Attaches a retry policy.
    pub fn retry(self, policy: RetryPolicy) -> (future: Self)
        ensures
            future.seq == self.seq,
            future.activity_type@ == self.activity_type@,
            future.input@ == self.input@,
            future.retry == policy,
    {
        ActivityFuture {
            seq: self.seq,
            activity_type: self.activity_type,
            input: self.input,
            retry: policy,
        }
    }

    /// Resolves to the recorded outcome. Where none is recorded, the call is
    /// scheduled at the first poll, once, and the future parks.
    pub fn poll(&self, ctx: &mut Context) -> (poll: Poll<Result<Vec<u8>, activity::Error>>)
        ensures
            match poll {
                Poll::Ready(result) => {
                    &&& old(ctx)@.results.contains_key(self.seq)
                    &&& activity_result_view(result) == old(ctx)@.results[self.seq]
                    &&& final(ctx)@ == old(ctx)@
                },
                Poll::Pending => {
                    &&& !old(ctx)@.results.contains_key(self.seq)
                    &&& final(ctx)@ == old(ctx)@.emitted(self.seq, self.command())
                },
            },
    {
        match ctx.result(self.seq) {
            Some(recorded) => Poll::Ready(Result::from(recorded)),
            None => {
                ctx.emit(
                    self.seq,
                    Command::ScheduleActivity {
                        seq: self.seq,
                        activity_type: self.activity_type.clone(),
                        input: copy_bytes(&self.input),
                        retry: self.retry,
                    },
                );
                Poll::Pending
            },
        }
    }

    /// What the call gives, once its output has been parsed: an output that does
    /// not parse is a failure that no retry can mend.
    pub fn decoded<T>(parsed: Result<T, String>) -> (value: Result<T, activity::Error>)
        ensures
            match parsed {
                Ok(v) => value == Ok::<T, activity::Error>(v),
                Err(reason) => value matches Err(e) && e@ == activity::error::fatal_error(
                    "activity output deserialize: "@ + reason@,
                ),
            },
    {
        match parsed {
            Ok(v) => Ok(v),
            Err(reason) => {
                let mut message = String::from_str("activity output deserialize: ");
                message.append(reason.as_str());
                Err(activity::Error::fatal(message.as_str()))
            },
        }
    }
}

/// The end of one timer. `seq` identifies the timer in the history.
pub struct TimerFuture {
    pub seq: u64,
    pub duration_ms: u64,
}

impl TimerFuture {
    /// The command that starts the timer.
    pub open spec fn command(self) -> CommandView {
        CommandView::StartTimer { seq: self.seq, duration_ms: self.duration_ms }
    }

    /// The timer `seq`.
    pub fn new(seq: u64, duration_ms: u64) -> (future: Self)
        ensures
            future.seq == seq,
            future.duration_ms == duration_ms,
    {
        TimerFuture { seq, duration_ms }
    }

    /// Resolves once the timer has fired. Until then the timer is started at the
    /// first poll, once, and the future parks.
    pub fn poll(&self, ctx: &mut Context) -> (poll: Poll<()>)
        ensures
            match poll {
                Poll::Ready(_) => {
                    &&& old(ctx)@.fired.contains(self.seq)
                    &&& final(ctx)@ == old(ctx)@
                },
                Poll::Pending => {
                    &&& !old(ctx)@.fired.contains(self.seq)
                    &&& final(ctx)@ == old(ctx)@.emitted(self.seq, self.command())
                },
            },
    {
        if ctx.has_fired(self.seq) {
            Poll::Ready(())
        } else {
            ctx.emit(
                self.seq,
                Command::StartTimer { seq: self.seq, duration_ms: self.duration_ms },
            );
            Poll::Pending
        }
    }
}

/// The outcome of one child workflow. `seq` identifies the child in the history of
/// its parent.
pub struct ChildFuture {
    pub seq: u64,
    pub workflow_type: String,
    pub input: Vec<u8>,
}

impl ChildFuture {
    /// The command that starts the child.
    pub open spec fn command(self) -> CommandView {
        CommandView::StartChild {
            seq: self.seq,
            workflow_type: self.workflow_type@,
            input: self.input@,
        }
    }

    /// The child `seq`.
    pub fn new(seq: u64, workflow_type: String, input: Vec<u8>) -> (future: Self)
        ensures
            future.seq == seq,
            future.workflow_type@ == workflow_type@,
            future.input@ == input@,
    {
        ChildFuture { seq, workflow_type, input }
    }

    /// Resolves to the recorded outcome. Where none is recorded, the child is
    /// started at the first poll, once, and the future parks.
    pub fn poll(&self, ctx: &mut Context) -> (poll: Poll<Result<Vec<u8>, Error>>)
        ensures
            match poll {
                Poll::Ready(result) => {
                    &&& old(ctx)@.child_results.contains_key(self.seq)
                    &&& result_view(result) == old(ctx)@.child_results[self.seq]
                    &&& final(ctx)@ == old(ctx)@
                },
                Poll::Pending => {
                    &&& !old(ctx)@.child_results.contains_key(self.seq)
                    &&& final(ctx)@ == old(ctx)@.emitted(self.seq, self.command())
                },
            },
    {
        match ctx.child_result(self.seq) {
            Some(recorded) => Poll::Ready(recorded),
            None => {
                ctx.emit(
                    self.seq,
                    Command::StartChild {
                        seq: self.seq,
                        workflow_type: self.workflow_type.clone(),
                        input: copy_bytes(&self.input),
                    },
                );
                Poll::Pending
            },
        }
    }

    /// What the child gives, once its output has been parsed.
    pub fn decoded<T>(parsed: Result<T, String>) -> (value: Result<T, Error>)
        ensures
            match parsed {
                Ok(v) => value == Ok::<T, Error>(v),
                Err(reason) => value matches Err(e) && e@ == "child output deserialize: "@
                    + reason@,
            },
    {
        match parsed {
            Ok(v) => Ok(v),
            Err(reason) => {
                let mut message = String::from_str("child output deserialize: ");
                message.append(reason.as_str());
                Err(Error { message })
            },
        }
    }
}

} // verus!
