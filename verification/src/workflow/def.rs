//! Workflow bodies.
use crate::workflow::context::{Context, ContextView};
use crate::workflow::error::Error;
use crate::workflow::poll::Poll;
use crate::workflow::result::result_view;
use vstd::prelude::*;

verus! {

/// What one poll of a body, or of one of its branches, gives.
pub struct Step<S, O> {
    /// The body afterwards.
    pub state: S,
    /// The context afterwards.
    pub ctx: ContextView,
    /// What the poll found.
    pub out: O,
}

/// The output of a workflow, if it is there.
pub open spec fn output_view(poll: Poll<Result<Vec<u8>, Error>>) -> Option<
    Result<Seq<u8>, Seq<char>>,
> {
    match poll {
        Poll::Ready(result) => Some(result_view(result)),
        Poll::Pending => None,
    }
}

/// A workflow type. Its values are bodies: one running workflow each, with the
/// branches that it has started.
///
/// A body is deterministic: a poll is a function of its state and of its context,
/// and of nothing else, which `polled` and `branch_polled` name. See also
/// [`comes_to_rest`] and [`well_behaved`]. Code that is not proved leaves the names
/// as they are.
pub trait Definition: Sized {
    /// What a body is, as far as its polls go.
    type State;

    /// The state of a body.
    open spec fn state(&self) -> Self::State {
        arbitrary()
    }

    /// The body that a workflow starts with on an input, or why the input does not
    /// parse.
    open spec fn started(input: Seq<u8>) -> Result<Self::State, Seq<char>> {
        arbitrary()
    }

    /// What a poll of the body does and finds: its output, once it is there.
    open spec fn polled(state: Self::State, ctx: ContextView) -> Step<
        Self::State,
        Option<Result<Seq<u8>, Seq<char>>>,
    > {
        arbitrary()
    }

    /// What a poll of one branch does, and whether the branch is done.
    open spec fn branch_polled(state: Self::State, branch: u64, ctx: ContextView) -> Step<
        Self::State,
        bool,
    > {
        arbitrary()
    }

    /// A bound on what polls can still emit with what is recorded now.
    open spec fn budget(state: Self::State, ctx: ContextView) -> nat {
        arbitrary()
    }

    /// The body of a new run.
    fn start(input: Vec<u8>) -> (body: Result<Self, String>)
        ensures
            match body {
                Ok(b) => Self::started(input@) == Ok::<Self::State, Seq<char>>(b.state()),
                Err(reason) => Self::started(input@) == Err::<Self::State, Seq<char>>(reason@),
            },
    ;

    /// Polls the body.
    fn poll(&mut self, ctx: &mut Context) -> (poll: Poll<Result<Vec<u8>, Error>>)
        ensures
            Self::polled(old(self).state(), old(ctx)@) == (Step {
                state: final(self).state(),
                ctx: final(ctx)@,
                out: output_view(poll),
            }),
    ;

    /// Polls one branch. Returns whether it is done.
    fn poll_branch(&mut self, branch: u64, ctx: &mut Context) -> (done: bool)
        ensures
            Self::branch_polled(old(self).state(), branch, old(ctx)@) == (Step {
                state: final(self).state(),
                ctx: final(ctx)@,
                out: done,
            }),
    ;
}

/// By how much a list has grown.
pub open spec fn growth(before: nat, after: nat) -> nat {
    if after > before {
        (after - before) as nat
    } else {
        0
    }
}

/// What a poll costs: one for each command it adds, three for each branch.
pub open spec fn cost(before: ContextView, after: ContextView) -> nat {
    growth(before.commands.len(), after.commands.len()) + 3 * growth(
        before.new_spawns.len(),
        after.new_spawns.len(),
    )
}

/// Whether bodies of this type come to rest: as long as nothing new is recorded for
/// it, a body has only so many commands and branches left in it, and pays for them
/// out of its budget. That the driver takes up its branches gives it nothing new to
/// do. A turn of a body that never comes to rest does not end.
pub open spec fn comes_to_rest<W: Definition>() -> bool {
    &&& forall|state: W::State, ctx: ContextView|
        {
            let step = #[trigger] W::polled(state, ctx);
            W::budget(step.state, step.ctx) + cost(ctx, step.ctx) <= W::budget(state, ctx)
        }
    &&& forall|state: W::State, branch: u64, ctx: ContextView|
        {
            let step = #[trigger] W::branch_polled(state, branch, ctx);
            W::budget(step.state, step.ctx) + cost(ctx, step.ctx) <= W::budget(state, ctx)
        }
    &&& forall|state: W::State, ctx: ContextView| #[trigger]
        W::budget(state, ctx.taken_up()) <= W::budget(state, ctx)
}

/// Whether bodies of this type act only through the means of a workflow: what a
/// poll does to the context is what [`ContextView::leads_to`] allows.
pub open spec fn well_behaved<W: Definition>() -> bool {
    &&& forall|state: W::State, ctx: ContextView|
        ctx.leads_to((#[trigger] W::polled(state, ctx)).ctx)
    &&& forall|state: W::State, branch: u64, ctx: ContextView|
        ctx.leads_to((#[trigger] W::branch_polled(state, branch, ctx)).ctx)
}

} // verus!
