//! A run in memory.
use crate::workflow::command::{command_views, Command};
use crate::workflow::context::{Context, ContextView};
use crate::workflow::def::{comes_to_rest, growth, output_view, Definition, Step};
use crate::workflow::error::Error;
use crate::workflow::info::Info;
use crate::workflow::poll::Poll;
use crate::workflow::result::{result_view, CommandResult};
use vstd::prelude::*;

verus! {

/// A live body, its context, and the branches that are not done.
pub struct WorkflowState<W: Definition> {
    ctx: Context,
    body: W,
    live: Vec<u64>,
}

/// The contents of a [`WorkflowState`].
pub struct RunView<S> {
    /// The body.
    pub state: S,
    /// Its context.
    pub ctx: ContextView,
    /// The branches that are not done, in creation order.
    pub live: Seq<u64>,
}

impl<W: Definition> View for WorkflowState<W> {
    type V = RunView<W::State>;

    closed spec fn view(&self) -> RunView<W::State> {
        RunView { state: self.body.state(), ctx: self.ctx@, live: self.live@ }
    }
}

impl<S> RunView<S> {
    /// With another context.
    pub open spec fn with_ctx(self, ctx: ContextView) -> RunView<S> {
        RunView { ctx, ..self }
    }

    /// After a poll of the body: the branches that it started join the others.
    pub open spec fn joined<O>(self, step: Step<S, O>) -> RunView<S> {
        RunView {
            state: step.state,
            ctx: step.ctx.taken_up(),
            live: self.live + step.ctx.new_spawns,
        }
    }
}

/// The run after the branches from place `i` on have been polled, each once, in
/// their order; those that are done leave.
pub open spec fn branches_polled<W: Definition>(run: RunView<W::State>, i: nat) -> RunView<W::State>
    decreases run.live.len() - i,
{
    if i >= run.live.len() {
        run
    } else {
        let step = W::branch_polled(run.state, run.live[i as int], run.ctx);
        if step.out {
            branches_polled::<W>(
                RunView { state: step.state, ctx: step.ctx, live: run.live.remove(i as int) },
                i,
            )
        } else {
            branches_polled::<W>(
                RunView { state: step.state, ctx: step.ctx, live: run.live },
                i + 1,
            )
        }
    }
}

/// Whether a round did anything: a command went out, a branch was started, or a
/// branch got done.
pub open spec fn progressed<S>(before: RunView<S>, joined: RunView<S>, after: RunView<S>) -> bool {
    ||| after.ctx.commands.len() > before.ctx.commands.len()
    ||| joined.live.len() > before.live.len()
    ||| after.live.len() < joined.live.len()
    ||| after.ctx.new_spawns.len() > 0
}

/// What is left in a run for one turn.
pub open spec fn turn_measure<W: Definition>(run: RunView<W::State>) -> nat {
    W::budget(run.state, run.ctx) + run.live.len() + 2 * run.ctx.new_spawns.len()
}

/// What a turn comes to: the run afterwards, and the workflow's output, if it is
/// there. A turn is made of rounds: the body is polled, then each live branch, in
/// creation order. It ends with the first round in which the body gives its output
/// or in which nothing happens.
pub open spec fn turn<W: Definition>(run: RunView<W::State>) -> (
    RunView<W::State>,
    Option<Result<Seq<u8>, Seq<char>>>,
)
    decreases turn_measure::<W>(run),
    when comes_to_rest::<W>()
{
    proof {
        lemma_round_pays::<W>(run);
    }
    let step = W::polled(run.state, run.ctx);
    match step.out {
        Some(output) => (
            RunView { state: step.state, ctx: step.ctx, live: run.live },
            Some(output),
        ),
        None => {
            let joined = run.joined(step);
            let after = branches_polled::<W>(joined, 0);
            if progressed(run, joined, after) {
                turn::<W>(after)
            } else {
                (after, None)
            }
        },
    }
}

/// Polling branches costs what is left in the run no less than what it adds.
proof fn lemma_branches_pay<W: Definition>(run: RunView<W::State>, i: nat)
    requires
        comes_to_rest::<W>(),
    ensures
        branches_polled::<W>(run, i).live.len() <= run.live.len(),
        W::budget(branches_polled::<W>(run, i).state, branches_polled::<W>(run, i).ctx) + growth(
            run.ctx.commands.len(),
            branches_polled::<W>(run, i).ctx.commands.len(),
        ) + 3 * growth(
            run.ctx.new_spawns.len(),
            branches_polled::<W>(run, i).ctx.new_spawns.len(),
        ) <= W::budget(run.state, run.ctx),
    decreases run.live.len() - i,
{
    if i < run.live.len() {
        let step = W::branch_polled(run.state, run.live[i as int], run.ctx);
        if step.out {
            lemma_branches_pay::<W>(
                RunView { state: step.state, ctx: step.ctx, live: run.live.remove(i as int) },
                i,
            );
        } else {
            lemma_branches_pay::<W>(
                RunView { state: step.state, ctx: step.ctx, live: run.live },
                i + 1,
            );
        }
    }
}

/// A round that does something leaves less in the run.
pub proof fn lemma_round_pays<W: Definition>(run: RunView<W::State>)
    requires
        comes_to_rest::<W>(),
    ensures
        ({
            let step = W::polled(run.state, run.ctx);
            let joined = run.joined(step);
            let after = branches_polled::<W>(joined, 0);
            progressed(run, joined, after) ==> turn_measure::<W>(after) < turn_measure::<W>(run)
        }),
{
    let step = W::polled(run.state, run.ctx);
    let joined = run.joined(step);
    lemma_branches_pay::<W>(joined, 0);
    assert(W::budget(step.state, step.ctx.taken_up()) <= W::budget(step.state, step.ctx));
}

impl<W: Definition> WorkflowState<W> {
    /// A run of `body` at its start.
    pub fn start(info: Info, body: W) -> (run: Self)
        ensures
            run@ == (RunView {
                state: body.state(),
                ctx: ContextView::fresh(info@),
                live: Seq::<u64>::empty(),
            }),
    {
        WorkflowState { ctx: Context::new(info), body, live: Vec::new() }
    }

    /// The run's context.
    pub fn context(&self) -> (ctx: &Context)
        ensures
            ctx@ == self@.ctx,
    {
        &self.ctx
    }

    /// Runs one turn: polls the body and its branches until nothing more happens, or
    /// the workflow's output is there.
    pub fn poll_turn(&mut self) -> (poll: Poll<Result<Vec<u8>, Error>>)
        requires
            comes_to_rest::<W>(),
        ensures
            turn::<W>(old(self)@) == (final(self)@, output_view(poll)),
    {
        loop
            invariant
                comes_to_rest::<W>(),
                turn::<W>(self@) == turn::<W>(old(self)@),
            decreases turn_measure::<W>(self@),
        {
            let ghost run = self@;
            proof {
                lemma_round_pays::<W>(run);
            }
            let commands: usize = self.ctx.commands_len();
            match self.body.poll(&mut self.ctx) {
                Poll::Ready(output) => {
                    return Poll::Ready(output);
                },
                Poll::Pending => {},
            }
            let started: usize = self.ctx.new_spawns_len();
            let mut branches = self.ctx.drain_new_spawns();
            self.live.append(&mut branches);
            let ghost joined = self@;
            assert(joined == run.joined(W::polled(run.state, run.ctx)));
            let in_all: usize = self.live.len();
            let mut i: usize = 0;
            while i < self.live.len()
                invariant
                    i <= self.live.len() <= in_all,
                    branches_polled::<W>(self@, i as nat) == branches_polled::<W>(joined, 0),
                decreases self.live.len() - i,
            {
                let branch: u64 = self.live[i];
                if self.body.poll_branch(branch, &mut self.ctx) {
                    self.live.remove(i);
                } else {
                    i = i + 1;
                }
            }
            assert(self@ == branches_polled::<W>(joined, 0));
            if !(self.ctx.commands_len() > commands || started > 0 || self.live.len() < in_all
                || self.ctx.new_spawns_len() > 0) {
                return Poll::Pending;
            }
        }
    }

    /// Takes the commands that have gone out since they were last taken.
    pub fn drain_commands(&mut self) -> (commands: Vec<Command>)
        ensures
            command_views(commands@) == old(self)@.ctx.commands,
            final(self)@ == old(self)@.with_ctx(old(self)@.ctx.drained()),
    {
        self.ctx.drain_commands()
    }

    /// Records the outcome of an activity.
    pub fn apply_result(&mut self, seq: u64, result: CommandResult)
        ensures
            final(self)@ == old(self)@.with_ctx(old(self)@.ctx.with_result(seq, result@)),
    {
        self.ctx.apply_result(seq, result);
    }

    /// Records that a timer has fired.
    pub fn apply_timer_fired(&mut self, seq: u64)
        ensures
            final(self)@ == old(self)@.with_ctx(old(self)@.ctx.with_fired(seq)),
    {
        self.ctx.apply_timer_fired(seq);
    }

    /// Records the arrival of a signal.
    pub fn apply_signal(&mut self, name: String, payload: Vec<u8>)
        ensures
            final(self)@ == old(self)@.with_ctx(old(self)@.ctx.with_signal(name@, payload@)),
    {
        self.ctx.apply_signal(name, payload);
    }

    /// Records the outcome of a child.
    pub fn apply_child_result(&mut self, seq: u64, result: Result<Vec<u8>, Error>)
        ensures
            final(self)@ == old(self)@.with_ctx(
                old(self)@.ctx.with_child_result(seq, result_view(result)),
            ),
    {
        self.ctx.apply_child_result(seq, result);
    }

    /// Records a change marker.
    pub fn apply_patch(&mut self, change_id: String)
        ensures
            final(self)@ == old(self)@.with_ctx(old(self)@.ctx.with_patch(change_id@)),
    {
        self.ctx.apply_patch(change_id);
    }

    /// Says whether recorded events remain ahead of the current position.
    pub fn set_replaying(&mut self, replaying: bool)
        ensures
            final(self)@ == old(self)@.with_ctx(old(self)@.ctx.with_replaying(replaying)),
    {
        self.ctx.set_replaying(replaying);
    }
}

} // verus!
