//! The smallest workflow that does something.
use crate::activity::error::ErrorView;
use crate::bytes::copy_bytes;
use crate::workflow::command::CommandView;
use crate::workflow::context::{Context, ContextView};
use crate::workflow::def::{comes_to_rest, well_behaved, Definition, Step};
use crate::workflow::error::Error;
use crate::workflow::event::EventView;
use crate::workflow::future::ActivityFuture;
use crate::workflow::info::InfoView;
use crate::workflow::laws::never_asks_for_markers;
use crate::workflow::life::{allocating_leads, emitting_leads, leads_on, nothing_leads};
use crate::workflow::poll::Poll;
use crate::workflow::replay::{
    divergence, drive, mismatch, outcomes, recorded, replay, replay_start, NondeterminismView,
    ReplayOutcomeView,
};
use crate::workflow::retry::{single_attempt, RetryPolicy};
use crate::workflow::state::{branches_polled, progressed, turn, RunView};
use vstd::prelude::*;
use vstd::string::*;

verus! {

/// A workflow that is one activity: it hands its input to the activity of its own
/// name, and its output is that of the activity.
pub struct Relay {
    input: Vec<u8>,
    call: Option<ActivityFuture>,
}

/// A call of an activity.
#[verifier::ext_equal]
pub struct CallView {
    pub seq: u64,
    pub activity_type: Seq<char>,
    pub input: Seq<u8>,
    pub retry: RetryPolicy,
}

impl CallView {
    /// The command that schedules the call.
    pub open spec fn command(self) -> CommandView {
        CommandView::ScheduleActivity {
            seq: self.seq,
            activity_type: self.activity_type,
            input: self.input,
            retry: self.retry,
        }
    }
}

/// The contents of a [`Relay`]: its input, and its call once it has been made.
#[verifier::ext_equal]
pub struct RelayView {
    pub input: Seq<u8>,
    pub call: Option<CallView>,
}

/// The call that a relay makes in a context.
pub open spec fn call_of(input: Seq<u8>, ctx: ContextView) -> CallView {
    CallView {
        seq: ctx.next_seq,
        activity_type: ctx.info.workflow_type,
        input,
        retry: single_attempt(),
    }
}

/// What a poll of a relay that has made its call finds.
pub open spec fn awaited(input: Seq<u8>, call: CallView, ctx: ContextView) -> Step<
    RelayView,
    Option<Result<Seq<u8>, Seq<char>>>,
> {
    let state = RelayView { input, call: Some(call) };
    if ctx.results.contains_key(call.seq) {
        Step {
            state,
            ctx,
            out: Some(
                match ctx.results[call.seq] {
                    Ok(output) => Ok(output),
                    Err(error) => Err(error.message),
                },
            ),
        }
    } else {
        Step { state, ctx: ctx.emitted(call.seq, call.command()), out: None }
    }
}

impl Definition for Relay {
    type State = RelayView;

    closed spec fn state(&self) -> RelayView {
        RelayView {
            input: self.input@,
            call: match self.call {
                Some(future) => Some(
                    CallView {
                        seq: future.seq,
                        activity_type: future.activity_type@,
                        input: future.input@,
                        retry: future.retry,
                    },
                ),
                None => None,
            },
        }
    }

    open spec fn started(input: Seq<u8>) -> Result<RelayView, Seq<char>> {
        Ok(RelayView { input, call: None })
    }

    open spec fn polled(state: RelayView, ctx: ContextView) -> Step<
        RelayView,
        Option<Result<Seq<u8>, Seq<char>>>,
    > {
        match state.call {
            Some(call) => awaited(state.input, call, ctx),
            None => awaited(state.input, call_of(state.input, ctx), ctx.allocated()),
        }
    }

    open spec fn branch_polled(state: RelayView, branch: u64, ctx: ContextView) -> Step<
        RelayView,
        bool,
    > {
        Step { state, ctx, out: true }
    }

    open spec fn budget(state: RelayView, ctx: ContextView) -> nat {
        match state.call {
            Some(call) => if ctx.scheduled.contains(call.seq) {
                0
            } else {
                1
            },
            None => 1,
        }
    }

    fn start(input: Vec<u8>) -> (body: Result<Self, String>) {
        Ok(Relay { input, call: None })
    }

    fn poll(&mut self, ctx: &mut Context) -> (poll: Poll<Result<Vec<u8>, Error>>) {
        let call = match self.call.take() {
            Some(call) => call,
            None => {
                let name = ctx.info().workflow_type.clone();
                ctx.activity(name.as_str(), copy_bytes(&self.input))
            },
        };
        let poll = match call.poll(ctx) {
            Poll::Ready(Ok(output)) => Poll::Ready(Ok(output)),
            Poll::Ready(Err(error)) => Poll::Ready(Err(Error::from(error))),
            Poll::Pending => Poll::Pending,
        };
        self.call = Some(call);
        poll
    }

    fn poll_branch(&mut self, branch: u64, ctx: &mut Context) -> (done: bool) {
        true
    }
}

/// A relay comes to rest, acts only through the means of a workflow, and never asks
/// for a change marker.
pub proof fn relay_is_well_behaved()
    ensures
        comes_to_rest::<Relay>(),
        well_behaved::<Relay>(),
        never_asks_for_markers::<Relay>(),
{
    assert forall|state: RelayView, ctx: ContextView|
        ctx.leads_to((#[trigger] Relay::polled(state, ctx)).ctx) by {
        nothing_leads(ctx);
        allocating_leads(ctx);
        let call = call_of(state.input, ctx);
        emitting_leads(ctx.allocated(), call.seq, call.command());
        leads_on(ctx, ctx.allocated(), ctx.allocated().emitted(call.seq, call.command()));
        if let Some(call) = state.call {
            emitting_leads(ctx, call.seq, call.command());
        }
    }
    assert forall|state: RelayView, branch: u64, ctx: ContextView|
        ctx.leads_to((#[trigger] Relay::branch_polled(state, branch, ctx)).ctx) by {
        nothing_leads(ctx);
    }
}

/// The history of a relay whose activity has come to its end.
pub open spec fn relayed(info: InfoView, input: Seq<u8>, output: Seq<u8>) -> Seq<EventView> {
    seq![
        EventView::WorkflowStarted { input },
        EventView::ActivityScheduled {
            seq: 0,
            activity_type: info.workflow_type,
            input,
            retry: single_attempt(),
        },
        EventView::ActivityCompleted { seq: 0, output },
    ]
}

/// A relay gives back what its activity gave: replayed from its history, it emits
/// the call that was recorded, and ends with the recorded output.
pub proof fn relay_returns_the_output(info: InfoView, input: Seq<u8>, output: Seq<u8>)
    ensures
        replay::<Relay>(info, relayed(info, input, output)) == Ok::<
            ReplayOutcomeView,
            NondeterminismView,
        >(
            ReplayOutcomeView {
                commands: seq![
                    CommandView::ScheduleActivity {
                        seq: 0,
                        activity_type: info.workflow_type,
                        input,
                        retry: single_attempt(),
                    },
                ],
                completion: Some(Ok(output)),
            },
        ),
{
    lemma_relay_ends(info, input, EventView::ActivityCompleted { seq: 0, output }, Ok(output));
}

/// A relay whose activity failed fails with the message of that failure, whether it
/// could have been tried again or not.
pub proof fn relay_fails_with_its_activity(info: InfoView, input: Seq<u8>, error: ErrorView)
    ensures
        replay::<Relay>(
            info,
            seq![
                EventView::WorkflowStarted { input },
                EventView::ActivityScheduled {
                    seq: 0,
                    activity_type: info.workflow_type,
                    input,
                    retry: RetryPolicy { max_attempts: 1, initial_ms: 0, multiplier: 1 },
                },
                EventView::ActivityFailed { seq: 0, error },
            ],
        ) matches Ok(outcome) && outcome.completion == Some(
            Err::<Seq<u8>, Seq<char>>(error.message),
        ),
{
    lemma_relay_ends(
        info,
        input,
        EventView::ActivityFailed { seq: 0, error },
        Err(error.message),
    );
}

/// A relay whose activity has not come to its end goes on, and has made one call: of the
/// activity of its own name, on its own input, in one attempt, under the number zero.
pub proof fn relay_waits_for_its_activity(info: InfoView, input: Seq<u8>)
    ensures
        replay::<Relay>(info, seq![EventView::WorkflowStarted { input }]) == Ok::<
            ReplayOutcomeView,
            NondeterminismView,
        >(
            ReplayOutcomeView {
                commands: seq![
                    CommandView::ScheduleActivity {
                        seq: 0,
                        activity_type: info.workflow_type,
                        input,
                        retry: RetryPolicy { max_attempts: 1, initial_ms: 0, multiplier: 1 },
                    },
                ],
                completion: None,
            },
        ),
{
    relay_is_well_behaved();
    let history = seq![EventView::WorkflowStarted { input }];
    assert(outcomes(history) =~= Seq::empty()) by {
        reveal(Seq::filter);
        reveal_with_fuel(Seq::filter, 2);
        assert(history.drop_last() =~= Seq::empty());
    }
    let start = replay_start::<Relay>(info, history, RelayView { input, call: None });
    let first = start.with_ctx(start.ctx.with_replaying(false));
    lemma_first_turn(first);
    let whole = drive::<Relay>(start, outcomes(history), 0);
    let told = recorded(history);
    assert(history.drop_last() =~= Seq::empty());
    assert(recorded(history.drop_last()) =~= Map::empty());
    assert(whole.commands.drop_last() =~= Seq::empty());
    assert(divergence(told, whole.commands.drop_last()) is None);
    assert(mismatch(told, whole.commands.last()) is None);
    assert(divergence(told, whole.commands) is None);
}

/// The first turn of a relay makes the call, and then rests.
proof fn lemma_first_turn(first: RunView<RelayView>)
    requires
        first.state.call is None,
        first.ctx.scheduled == Set::<u64>::empty(),
        first.ctx.results == Map::<u64, Result<Seq<u8>, ErrorView>>::empty(),
        first.ctx.commands.len() == 0,
        first.ctx.new_spawns.len() == 0,
        first.live.len() == 0,
    ensures
        ({
            let call = call_of(first.state.input, first.ctx);
            let called = RunView {
                state: RelayView { input: first.state.input, call: Some(call) },
                ctx: first.ctx.allocated().emitted(call.seq, call.command()),
                live: Seq::<u64>::empty(),
            };
            &&& turn::<Relay>(first) == (called, None::<Result<Seq<u8>, Seq<char>>>)
            &&& called.ctx.commands == seq![call.command()]
        }),
{
    relay_is_well_behaved();
    let input = first.state.input;
    let call = call_of(input, first.ctx);
    let called = RunView {
        state: RelayView { input, call: Some(call) },
        ctx: first.ctx.allocated().emitted(call.seq, call.command()),
        live: Seq::<u64>::empty(),
    };
    let step = Relay::polled(first.state, first.ctx);
    assert(step.ctx == called.ctx);
    assert(step.ctx.taken_up() =~= called.ctx);
    assert(first.live + step.ctx.new_spawns =~= called.live);
    assert(first.joined(step) == called);
    assert(branches_polled::<Relay>(called, 0) == called);
    assert(called.ctx.commands =~= seq![call.command()]);
    assert(progressed(first, called, called));
    assert(turn::<Relay>(first) == turn::<Relay>(called));
    let again = Relay::polled(called.state, called.ctx);
    assert(again.ctx == called.ctx);
    assert(called.live + again.ctx.new_spawns =~= called.live);
    assert(called.joined(again) == called);
    assert(!progressed(called, called, called));
}

/// A relay whose activity has come to its end ends with it.
proof fn lemma_relay_ends(
    info: InfoView,
    input: Seq<u8>,
    end: EventView,
    result: Result<Seq<u8>, Seq<char>>,
)
    requires
        match end {
            EventView::ActivityCompleted { seq, output } => seq == 0 && result == Ok::<
                Seq<u8>,
                Seq<char>,
            >(output),
            EventView::ActivityFailed { seq, error } => seq == 0 && result == Err::<
                Seq<u8>,
                Seq<char>,
            >(error.message),
            _ => false,
        },
    ensures
        replay::<Relay>(
            info,
            seq![
                EventView::WorkflowStarted { input },
                EventView::ActivityScheduled {
                    seq: 0,
                    activity_type: info.workflow_type,
                    input,
                    retry: single_attempt(),
                },
                end,
            ],
        ) == Ok::<ReplayOutcomeView, NondeterminismView>(
            ReplayOutcomeView {
                commands: seq![
                    CommandView::ScheduleActivity {
                        seq: 0,
                        activity_type: info.workflow_type,
                        input,
                        retry: single_attempt(),
                    },
                ],
                completion: Some(result),
            },
        ),
{
    relay_is_well_behaved();
    let history = seq![
        EventView::WorkflowStarted { input },
        EventView::ActivityScheduled {
            seq: 0,
            activity_type: info.workflow_type,
            input,
            retry: single_attempt(),
        },
        end,
    ];
    let stream = seq![history[2]];
    assert(outcomes(history) =~= stream) by {
        reveal(Seq::filter);
        reveal_with_fuel(Seq::filter, 4);
        assert(history.drop_last() =~= seq![history[0], history[1]]);
        assert(history.drop_last().drop_last() =~= seq![history[0]]);
        assert(history.drop_last().drop_last().drop_last() =~= Seq::empty());
    }
    let start = replay_start::<Relay>(info, history, RelayView { input, call: None });
    let first = start.with_ctx(start.ctx.with_replaying(true));
    let call = call_of(input, first.ctx);
    lemma_first_turn(first);
    let called = turn::<Relay>(first).0;

    // The second turn finds the outcome.
    let told = called.with_ctx(called.ctx.drained().with_outcome(history[2]));
    let second = told.with_ctx(told.ctx.with_replaying(false));
    let found = Relay::polled(second.state, second.ctx);
    assert(found.out == Some(result));
    assert(turn::<Relay>(second).1 == Some(result));
    assert(turn::<Relay>(second).0.ctx.commands =~= Seq::empty());
    reveal_with_fuel(drive, 3);
    let whole = drive::<Relay>(start, stream, 0);
    assert(whole.commands =~= seq![call.command()]);
    assert(whole.completion == Some(result));

    // What it emits is what was recorded.
    assert(divergence(recorded(history), whole.commands) is None) by {
        let told = recorded(history);
        assert(whole.commands.drop_last() =~= Seq::empty());
        assert(divergence(told, whole.commands.drop_last()) is None);
        assert(whole.commands.last() == call.command());
        reveal_with_fuel(recorded, 4);
        assert(history.drop_last() =~= seq![history[0], history[1]]);
        assert(history.drop_last().drop_last() =~= seq![history[0]]);
        assert(history.drop_last().drop_last().drop_last() =~= Seq::empty());
        assert(told[0] == call.command().recorded()->0);
        assert(mismatch(told, call.command()) is None);
    }
}

} // verus!
