//! The smallest workflow that has been changed while runs of it were under way.
use crate::bytes::copy_bytes;
use crate::workflow::command::CommandView;
use crate::workflow::context::{Context, ContextView};
use crate::workflow::def::{comes_to_rest, well_behaved, Definition, Step};
use crate::workflow::error::Error;
use crate::workflow::event::EventView;
use crate::workflow::future::ActivityFuture;
use crate::workflow::info::InfoView;
use crate::workflow::laws::{after_turn, first_turn_settles, first_turn_stands, settled};
use crate::workflow::life::{
    allocating_leads, asking_leads, emitting_leads, leads_on, nothing_leads,
};
use crate::workflow::markers::{
    is_recorded_form, marker_rounds_lead_nowhere, moves_markers_alone, round,
    sees_markers_through_patched, without_markers,
};
use crate::workflow::poll::Poll;
use crate::workflow::relay::{awaited, CallView, RelayView};
use crate::workflow::retry::single_attempt;
use crate::workflow::state::{branches_polled, RunView};
use vstd::prelude::*;
use vstd::string::*;

verus! {

/// The change that brings in the new activity.
pub const CHANGE: &'static str = "reroute";

/// A workflow that is one activity, which has been replaced by another: a run that
/// comes to the call after the change goes to the activity `"new"`, and a run whose
/// history was written before it goes on with the activity `"old"`.
pub struct Reroute {
    input: Vec<u8>,
    call: Option<ActivityFuture>,
}

/// The call that a run makes in a context, when it has asked for the change.
pub open spec fn rerouted_call(input: Seq<u8>, ctx: ContextView) -> CallView {
    CallView {
        seq: ctx.next_seq,
        activity_type: if ctx.is_patched(CHANGE@) {
            "new"@
        } else {
            "old"@
        },
        input,
        retry: single_attempt(),
    }
}

impl Definition for Reroute {
    type State = RelayView;

    closed spec fn state(&self) -> RelayView {
        RelayView {
            input: self.input@,
            call: match self.call {
                Some(future) => Some(
                    CallView {
                        seq: future.seq,
                        activity_type: future.activity_type@,
                        input: future.input@,
                        retry: future.retry,
                    },
                ),
                None => None,
            },
        }
    }

    open spec fn started(input: Seq<u8>) -> Result<RelayView, Seq<char>> {
        Ok(RelayView { input, call: None })
    }

    open spec fn polled(state: RelayView, ctx: ContextView) -> Step<
        RelayView,
        Option<Result<Seq<u8>, Seq<char>>>,
    > {
        match state.call {
            Some(call) => awaited(state.input, call, ctx),
            None => awaited(
                state.input,
                rerouted_call(state.input, ctx),
                ctx.patch_asked(CHANGE@).allocated(),
            ),
        }
    }

    open spec fn branch_polled(state: RelayView, branch: u64, ctx: ContextView) -> Step<
        RelayView,
        bool,
    > {
        Step { state, ctx, out: true }
    }

    open spec fn budget(state: RelayView, ctx: ContextView) -> nat {
        match state.call {
            Some(call) => if ctx.scheduled.contains(call.seq) {
                0
            } else {
                1
            },
            None => 2,
        }
    }

    fn start(input: Vec<u8>) -> (body: Result<Self, String>) {
        Ok(Reroute { input, call: None })
    }

    fn poll(&mut self, ctx: &mut Context) -> (poll: Poll<Result<Vec<u8>, Error>>) {
        let call = match self.call.take() {
            Some(call) => call,
            None => {
                let name = if ctx.patched(CHANGE) {
                    "new"
                } else {
                    "old"
                };
                ctx.activity(name, copy_bytes(&self.input))
            },
        };
        let poll = match call.poll(ctx) {
            Poll::Ready(Ok(output)) => Poll::Ready(Ok(output)),
            Poll::Ready(Err(error)) => Poll::Ready(Err(Error::from(error))),
            Poll::Pending => Poll::Pending,
        };
        self.call = Some(call);
        poll
    }

    fn poll_branch(&mut self, branch: u64, ctx: &mut Context) -> (done: bool) {
        true
    }
}

/// It comes to rest, and acts only through the means of a workflow.
pub proof fn reroute_is_well_behaved()
    ensures
        comes_to_rest::<Reroute>(),
        well_behaved::<Reroute>(),
{
    assert forall|state: RelayView, ctx: ContextView|
        ctx.leads_to((#[trigger] Reroute::polled(state, ctx)).ctx) by {
        nothing_leads(ctx);
        let asked = ctx.patch_asked(CHANGE@);
        let call = rerouted_call(state.input, ctx);
        asking_leads(ctx, CHANGE@);
        allocating_leads(asked);
        leads_on(ctx, asked, asked.allocated());
        emitting_leads(asked.allocated(), call.seq, call.command());
        leads_on(ctx, asked.allocated(), asked.allocated().emitted(call.seq, call.command()));
        if let Some(call) = state.call {
            emitting_leads(ctx, call.seq, call.command());
        }
    }
    assert forall|state: RelayView, branch: u64, ctx: ContextView|
        ctx.leads_to((#[trigger] Reroute::branch_polled(state, branch, ctx)).ctx) by {
        nothing_leads(ctx);
    }
}

/// Its branches, of which it has none, would be done at once.
proof fn lemma_branches_leave(run: RunView<RelayView>)
    ensures
        branches_polled::<Reroute>(run, 0) == (RunView {
            state: run.state,
            ctx: run.ctx,
            live: Seq::<u64>::empty(),
        }),
    decreases run.live.len(),
{
    if run.live.len() > 0 {
        lemma_branches_leave(
            RunView { state: run.state, ctx: run.ctx, live: run.live.remove(0) },
        );
    } else {
        assert(run.live =~= Seq::empty());
    }
}

/// It looks at the change only by asking whether it is on the changed path, and nothing
/// comes of it when a round has done nothing but ask.
pub proof fn reroute_asks_properly()
    ensures
        sees_markers_through_patched::<Reroute>(),
        marker_rounds_lead_nowhere::<Reroute>(),
{
    assert forall|state: RelayView, asked: ContextView, told: ContextView|
        #![trigger Reroute::polled(state, asked), Reroute::polled(state, told)]
        is_recorded_form(asked, told) && Reroute::polled(
            state,
            asked,
        ).ctx.patches_emitted.subset_of(told.patches) implies {
        let step = Reroute::polled(state, asked);
        let other = Reroute::polled(state, told);
        &&& other.state == step.state
        &&& other.out == step.out
        &&& other.ctx.patches == told.patches
        &&& is_recorded_form(step.ctx, other.ctx)
    } by {
        let step = Reroute::polled(state, asked);
        let other = Reroute::polled(state, told);
        let marker = CommandView::RecordPatch { change_id: CHANGE@ };
        let (call, before) = match state.call {
            Some(call) => (call, asked),
            None => (rerouted_call(state.input, asked), asked.patch_asked(CHANGE@).allocated()),
        };
        lemma_pushed(asked.commands, marker);
        lemma_pushed(before.commands, call.command());
        assert(before.patches_emitted.subset_of(told.patches));
        if state.call is None {
            assert(asked.patches.contains(CHANGE@) || before.patches_emitted.contains(CHANGE@));
            assert(told.patches.contains(CHANGE@));
            assert(told.patch_asked(CHANGE@) == told);
        }
    }
    assert forall|run: RunView<RelayView>|
        !run.ctx.replaying && #[trigger] moves_markers_alone::<Reroute>(
            run,
        ) implies moves_markers_alone::<Reroute>(round::<Reroute>(run)) by {
        let step = Reroute::polled(run.state, run.ctx);
        let joined = run.joined(step);
        let after = round::<Reroute>(run);
        lemma_branches_leave(joined);
        let again = Reroute::polled(after.state, after.ctx);
        let marker = CommandView::RecordPatch { change_id: CHANGE@ };
        let (call, before) = match run.state.call {
            Some(call) => (call, run.ctx),
            None => (
                rerouted_call(run.state.input, run.ctx),
                run.ctx.patch_asked(CHANGE@).allocated(),
            ),
        };
        lemma_pushed(run.ctx.commands, marker);
        lemma_pushed(before.commands, call.command());
        lemma_branches_leave(after.joined(again));
    }
}

proof fn lemma_pushed(commands: Seq<CommandView>, command: CommandView)
    ensures
        without_markers(commands.push(command)) == if command is RecordPatch {
            without_markers(commands)
        } else {
            without_markers(commands).push(command)
        },
{
    assert(commands.push(command).drop_last() =~= commands);
}

/// The first turn of a new run settles its history, though it asks for a change marker:
/// with the marker recorded, the run makes the same call.
pub proof fn rerouted_start_settles(info: InfoView, input: Seq<u8>)
    ensures
        settled::<Reroute>(
            info,
            after_turn::<Reroute>(info, seq![EventView::WorkflowStarted { input }]),
        ),
{
    reroute_is_well_behaved();
    reroute_asks_properly();
    first_turn_settles::<Reroute>(info, input);
    first_turn_stands::<Reroute>(info, input);
}

/// The change decides where the call goes: a run at the end of its history, or one whose
/// history has the marker, calls the new activity, and one that replays a history from
/// before the change calls the old one. Either way it calls it on its own input and
/// under the next number.
pub proof fn change_decides_the_call(input: Seq<u8>, ctx: ContextView)
    requires
        !ctx.results.contains_key(ctx.next_seq),
        !ctx.scheduled.contains(ctx.next_seq),
    ensures
        ({
            let step = Reroute::polled(RelayView { input, call: None }, ctx);
            let last = step.ctx.commands.last();
            &&& step.out is None
            &&& step.ctx.commands.len() > ctx.commands.len()
            &&& last is ScheduleActivity
            &&& last->ScheduleActivity_seq == ctx.next_seq
            &&& last->ScheduleActivity_input == input
            &&& last->ScheduleActivity_retry.max_attempts == 1
            &&& ctx.patches.contains("reroute"@) || !ctx.replaying
                ==> last->ScheduleActivity_activity_type == "new"@
            &&& !ctx.patches.contains("reroute"@) && ctx.replaying
                ==> last->ScheduleActivity_activity_type == "old"@
        }),
{
}

} // verus!
