//! What each move of a body does to its context, and what a turn is made of.
use crate::activity::error::ErrorView;
use crate::workflow::command::CommandView;
use crate::workflow::context::{whole_millis, ContextView};
use crate::workflow::def::{comes_to_rest, Definition, Step};
use crate::workflow::event::EventView;
use crate::workflow::future::{ActivityFuture, ChildFuture, TimerFuture};
use crate::workflow::inbox::buffered;
use crate::workflow::info::InfoView;
use crate::workflow::markers::round;
use crate::workflow::replay::{drive, replay_context};
use crate::workflow::state::{
    branches_polled, lemma_round_pays, progressed, turn, turn_measure, RunView,
};
use vstd::prelude::*;

verus! {

/// Numbers count up from zero, one for each awaitable, and neither commands nor
/// outcomes change with them. They start over after the largest one.
pub proof fn numbers_count_up(info: InfoView, ctx: ContextView)
    ensures
        ContextView::fresh(info).next_seq == 0,
        ctx.next_seq < u64::MAX ==> ctx.allocated().next_seq == ctx.next_seq + 1,
        ctx.next_seq == u64::MAX ==> ctx.allocated().next_seq == 0,
        ctx.allocated() == (ContextView { next_seq: ctx.allocated().next_seq, ..ctx }),
{
}

/// Detached branches are numbered in the order in which they are started, from zero,
/// and are taken up in that order. They cost neither a sequence number nor a command.
pub proof fn branches_are_numbered(info: InfoView, ctx: ContextView)
    ensures
        ContextView::fresh(info).next_branch == 0,
        ctx.spawned() == (ContextView {
            next_branch: ctx.spawned().next_branch,
            new_spawns: ctx.new_spawns.push(ctx.next_branch),
            ..ctx
        }),
        ctx.next_branch < u64::MAX ==> ctx.spawned().next_branch == ctx.next_branch + 1,
        ctx.next_branch == u64::MAX ==> ctx.spawned().next_branch == 0,
        ctx.taken_up() == (ContextView { new_spawns: Seq::empty(), ..ctx }),
{
}

/// A command goes out once: the first under a number is the next command, and from then
/// on nothing goes out under that number, while other numbers are as free as before.
pub proof fn first_command_under_a_number_goes_out(
    ctx: ContextView,
    seq: u64,
    first: CommandView,
    second: CommandView,
    other: u64,
)
    ensures
        !ctx.scheduled.contains(seq) ==> ctx.emitted(seq, first).commands == ctx.commands.push(
            first,
        ),
        ctx.scheduled.contains(seq) ==> ctx.emitted(seq, first) == ctx,
        ctx.emitted(seq, first).scheduled.contains(seq),
        ctx.emitted(seq, first).emitted(seq, second) == ctx.emitted(seq, first),
        other != seq ==> ctx.emitted(seq, first).scheduled.contains(other)
            == ctx.scheduled.contains(other),
        ctx.emitted(seq, first) == (ContextView {
            commands: ctx.emitted(seq, first).commands,
            scheduled: ctx.emitted(seq, first).scheduled,
            ..ctx
        }),
        ctx.drained() == (ContextView { commands: Seq::empty(), ..ctx }),
{
}

/// A command carries what its future was made with.
pub proof fn commands_carry_what_was_asked(
    activity: ActivityFuture,
    timer: TimerFuture,
    child: ChildFuture,
)
    ensures
        activity.command() matches CommandView::ScheduleActivity {
            seq,
            activity_type,
            input,
            retry,
        } && seq == activity.seq && activity_type == activity.activity_type@ && input
            == activity.input@ && retry == activity.retry,
        timer.command() matches CommandView::StartTimer { seq, duration_ms } && seq == timer.seq
            && duration_ms == timer.duration_ms,
        child.command() matches CommandView::StartChild { seq, workflow_type, input } && seq
            == child.seq && workflow_type == child.workflow_type@ && input == child.input@,
{
}

/// A run whose marker is recorded is on the changed path; one that replays older
/// history without it is not; and one at the end of its history is. Only there is the
/// marker asked for: once, as the next command, and nothing else changes.
pub proof fn markers_decide_the_path(ctx: ContextView, change_id: Seq<char>, other: Seq<char>)
    ensures
        ctx.patches.contains(change_id) ==> ctx.is_patched(change_id) && ctx.patch_asked(change_id)
            == ctx,
        !ctx.patches.contains(change_id) && ctx.replaying ==> !ctx.is_patched(change_id)
            && ctx.patch_asked(change_id) == ctx,
        !ctx.patches.contains(change_id) && !ctx.replaying ==> ctx.is_patched(change_id)
            && ctx.patch_asked(change_id).patches_emitted.contains(change_id),
        !ctx.patches.contains(change_id) && !ctx.replaying && !ctx.patches_emitted.contains(
            change_id,
        ) ==> ctx.patch_asked(change_id).commands == ctx.commands.push(
            CommandView::RecordPatch { change_id },
        ),
        ctx.patches_emitted.contains(change_id) ==> ctx.patch_asked(change_id) == ctx,
        ctx.patch_asked(change_id).patch_asked(change_id) == ctx.patch_asked(change_id),
        ctx.patch_asked(change_id) == (ContextView {
            commands: ctx.patch_asked(change_id).commands,
            patches_emitted: ctx.patch_asked(change_id).patches_emitted,
            ..ctx
        }),
        other != change_id ==> ctx.patch_asked(change_id).patches_emitted.contains(other)
            == ctx.patches_emitted.contains(other),
        ctx.patch_asked(change_id).is_patched(change_id) == ctx.is_patched(change_id),
{
}

/// What is recorded for a run is told under its number or its name, and nothing else
/// changes.
pub proof fn records_change_nothing_else(
    ctx: ContextView,
    seq: u64,
    result: Result<Seq<u8>, ErrorView>,
    child_result: Result<Seq<u8>, Seq<char>>,
    change_id: Seq<char>,
    replaying: bool,
)
    ensures
        ctx.with_result(seq, result) == (ContextView {
            results: ctx.results.insert(seq, result),
            ..ctx
        }),
        ctx.with_child_result(seq, child_result) == (ContextView {
            child_results: ctx.child_results.insert(seq, child_result),
            ..ctx
        }),
        ctx.with_fired(seq) == (ContextView { fired: ctx.fired.insert(seq), ..ctx }),
        ctx.with_patch(change_id) == (ContextView { patches: ctx.patches.insert(change_id), ..ctx }),
        ctx.with_replaying(replaying) == (ContextView { replaying, ..ctx }),
{
}

/// To receive takes the oldest payload under a name off its buffer, and leaves the
/// others, and everything else, as they are. Without a payload nothing changes.
pub proof fn receiving_takes_the_oldest(ctx: ContextView, name: Seq<char>, other: Seq<char>)
    ensures
        ctx.signal_received(name) == (ContextView {
            signals: ctx.signal_received(name).signals,
            ..ctx
        }),
        ctx.signals.contains_key(name) && ctx.signals[name].len() > 0 ==> {
            &&& ctx.signal_received(name).signals.contains_key(name)
            &&& seq![ctx.signals[name][0]] + ctx.signal_received(name).signals[name]
                == ctx.signals[name]
        },
        !(ctx.signals.contains_key(name) && ctx.signals[name].len() > 0) ==> ctx.signal_received(
            name,
        ) == ctx,
        other != name ==> ctx.signal_received(name).signals.contains_key(other)
            == ctx.signals.contains_key(other) && ctx.signal_received(name).signals[other]
            == ctx.signals[other],
        ctx.signals.contains_key(name) ==> buffered(ctx.signals, name) == ctx.signals[name],
        !ctx.signals.contains_key(name) ==> buffered(ctx.signals, name).len() == 0,
{
    if ctx.signals.contains_key(name) && ctx.signals[name].len() > 0 {
        let all = ctx.signals[name];
        assert(seq![all[0]] + all.drop_first() =~= all);
    }
}

/// A second is a thousand milliseconds, and what is less than a millisecond is dropped:
/// the time lies between its whole milliseconds and one more.
pub proof fn durations_are_whole_millis(secs: u64, subsec_nanos: u32)
    requires
        subsec_nanos < 1_000_000_000,
    ensures
        secs < 18_446_744_073_709_551 ==> {
            let ms = whole_millis(secs, subsec_nanos);
            let nanos = secs * 1_000_000_000 + subsec_nanos;
            ms * 1_000_000 <= nanos < (ms + 1) * 1_000_000
        },
        0 <= whole_millis(secs, subsec_nanos) <= u64::MAX,
        secs < u64::MAX ==> (whole_millis((secs + 1) as u64, subsec_nanos) == whole_millis(
            secs,
            subsec_nanos,
        ) + 1000 || whole_millis((secs + 1) as u64, subsec_nanos) == whole_millis(
            secs,
            subsec_nanos,
        ) + 1000 - 0x1_0000_0000_0000_0000),
{
}

/// A new life knows the markers of the whole history and nothing else: no outcome has
/// been told, and no command has gone out.
pub proof fn lives_start_with_the_markers(info: InfoView, history: Seq<EventView>, id: Seq<char>)
    ensures
        ({
            let ctx = replay_context(info, history);
            &&& ctx.patches.contains(id) <==> exists|k: int|
                0 <= k < history.len() && #[trigger] history[k] == (EventView::Patched {
                    change_id: id,
                })
            &&& ctx.info == info
            &&& ctx.next_seq == 0
            &&& ctx.commands.len() == 0
            &&& ctx.results.dom() == Set::<u64>::empty()
            &&& ctx.child_results.dom() == Set::<u64>::empty()
            &&& ctx.fired == Set::<u64>::empty()
            &&& ctx.scheduled == Set::<u64>::empty()
            &&& ctx.signals.dom() == Set::<Seq<char>>::empty()
            &&& ctx.patches_emitted == Set::<Seq<char>>::empty()
            &&& ctx.new_spawns.len() == 0
        }),
{
    let marker = EventView::Patched { change_id: id };
    if history.contains(marker) {
        let k = choose|k: int| 0 <= k < history.len() && history[k] == marker;
        assert(history[k] == marker);
    }
    assert(replay_context(info, history).results.dom() =~= Set::<u64>::empty());
    assert(replay_context(info, history).child_results.dom() =~= Set::<u64>::empty());
    assert(replay_context(info, history).signals.dom() =~= Set::<Seq<char>>::empty());
}

/// A life is one turn for the start and one for each outcome, told in their order, until
/// the workflow gets to its end. All its commands count, and only the last turn is at
/// the end of the history.
pub proof fn each_outcome_has_a_turn<W: Definition>(
    run: RunView<W::State>,
    outcomes: Seq<EventView>,
)
    ensures
        ({
            let (rested, output) = turn::<W>(
                RunView {
                    ctx: ContextView { replaying: outcomes.len() > 0, ..run.ctx },
                    ..run
                },
            );
            let life = drive::<W>(run, outcomes, 0);
            &&& output is Some ==> life.completion == output && life.commands
                == rested.ctx.commands
            &&& output is None && outcomes.len() == 0 ==> life.completion is None && life.commands
                == rested.ctx.commands
            &&& output is None && outcomes.len() > 0 ==> {
                let told = RunView {
                    ctx: ContextView { commands: Seq::empty(), ..rested.ctx }.with_outcome(
                        outcomes[0],
                    ),
                    ..rested
                };
                let rest = drive::<W>(told, outcomes.drop_first(), 0);
                life.completion == rest.completion && life.commands == rested.ctx.commands
                    + rest.commands
            }
        }),
{
    let (rested, output) = turn::<W>(run.with_ctx(run.ctx.with_replaying(outcomes.len() > 0)));
    if output is None && outcomes.len() > 0 {
        let told = rested.with_ctx(rested.ctx.drained().with_outcome(outcomes[0]));
        lemma_cursor_is_a_place::<W>(told, outcomes, 1);
        assert(outcomes.skip(1) =~= outcomes.drop_first());
    }
}

proof fn lemma_cursor_is_a_place<W: Definition>(
    run: RunView<W::State>,
    outcomes: Seq<EventView>,
    cursor: nat,
)
    requires
        cursor <= outcomes.len(),
    ensures
        drive::<W>(run, outcomes, cursor) == drive::<W>(run, outcomes.skip(cursor as int), 0),
    decreases outcomes.len() - cursor,
{
    let rest = outcomes.skip(cursor as int);
    let (rested, output) = turn::<W>(
        run.with_ctx(run.ctx.with_replaying(cursor < outcomes.len())),
    );
    if output is None && cursor < outcomes.len() {
        let told = rested.with_ctx(
            rested.ctx.drained().with_outcome(outcomes[cursor as int]),
        );
        lemma_cursor_is_a_place::<W>(told, outcomes, cursor + 1);
        lemma_cursor_is_a_place::<W>(told, rest, 1);
        assert(rest.skip(1) =~= outcomes.skip((cursor + 1) as int));
        assert(rest[0] == outcomes[cursor as int]);
    }
}

/// A turn polls the body first. A body that gives its output ends the turn; otherwise
/// the turn goes on until a round comes in which no command goes out, no branch is
/// started and no branch gets done.
pub proof fn turns_end_where_nothing_happens<W: Definition>(run: RunView<W::State>)
    requires
        comes_to_rest::<W>(),
    ensures
        W::polled(run.state, run.ctx).out matches Some(output) ==> turn::<W>(run).1 == Some(output)
            && turn::<W>(run).0.ctx == W::polled(run.state, run.ctx).ctx,
        turn::<W>(run).1 is None ==> exists|last: RunView<W::State>|
            {
                let step = W::polled(last.state, last.ctx);
                &&& step.out is None
                &&& turn::<W>(run).0 == #[trigger] round::<W>(last)
                &&& round::<W>(last).ctx.commands.len() <= last.ctx.commands.len()
                &&& step.ctx.new_spawns.len() == 0
                &&& round::<W>(last).live.len() >= last.live.len()
                &&& round::<W>(last).ctx.new_spawns.len() == 0
            },
    decreases turn_measure::<W>(run),
{
    let step = W::polled(run.state, run.ctx);
    if step.out is None {
        let joined = run.joined(step);
        let after = branches_polled::<W>(joined, 0);
        assert(round::<W>(run) == after);
        if progressed(run, joined, after) {
            lemma_round_pays::<W>(run);
            turns_end_where_nothing_happens::<W>(after);
        }
    }
}

/// Branches that a poll of the body starts join the others after them, in the order in
/// which they were started, and have then been taken up.
pub proof fn new_branches_come_last<S, O>(run: RunView<S>, step: Step<S, O>)
    ensures
        run.joined(step).live == run.live + step.ctx.new_spawns,
        run.joined(step).ctx == (ContextView { new_spawns: Seq::empty(), ..step.ctx }),
        run.joined(step).state == step.state,
{
}

/// Branches are polled in their order, each once: one that is done leaves, and the
/// others stay in their places.
pub proof fn branches_are_polled_in_order<W: Definition>(
    run: RunView<W::State>,
    first: u64,
    others: Seq<u64>,
)
    requires
        run.live == seq![first] + others,
    ensures
        ({
            let step = W::branch_polled(run.state, first, run.ctx);
            if step.out {
                branches_polled::<W>(run, 0) == branches_polled::<W>(
                    RunView { state: step.state, ctx: step.ctx, live: others },
                    0,
                )
            } else {
                branches_polled::<W>(run, 0) == branches_polled::<W>(
                    RunView { state: step.state, ctx: step.ctx, live: run.live },
                    1,
                )
            }
        }),
        branches_polled::<W>(RunView { live: Seq::empty(), ..run }, 0) == (RunView {
            live: Seq::empty(),
            ..run
        }),
{
    assert(run.live.remove(0) =~= others);
}

} // verus!
