//! What holds of every replay.
use crate::workflow::command::CommandView;
use crate::workflow::context::ContextView;
use crate::workflow::def::{comes_to_rest, well_behaved, Definition};
use crate::workflow::event::EventView;
use crate::workflow::inbox::{arrived, buffered, received};
use crate::workflow::info::InfoView;
use crate::workflow::life::{each_once, keys, leads_on, nothing_leads, remains, CommandKey};
use crate::workflow::markers::{
    earlier_turns_stand, lemma_drive_recorded, lemma_left_in, lemma_nothing_to_leave_out,
    lemma_recorded_markers_hide_frontier, marker_rounds_lead_nowhere, sees_markers_through_patched, without_markers,
};
use crate::workflow::record::{echoes, is_recorded, unrecorded};
use crate::workflow::replay::{
    divergence, drive, markers, mismatch, outcomes, recorded, replay, replay_start,
    NondeterminismView, Recorded, ReplayOutcomeView,
};
use crate::workflow::state::{
    branches_polled, lemma_round_pays, progressed, turn, turn_measure, RunView,
};
use vstd::prelude::*;

verus! {

/// That the driver takes up branches changes nothing in what a body may do.
pub proof fn lemma_taking_up_leads(a: ContextView, b: ContextView)
    requires
        a.leads_to(b),
    ensures
        a.taken_up().leads_to(b.taken_up()),
        a.taken_up().new_commands(b.taken_up()) == a.new_commands(b),
{
    let x = a.taken_up();
    let y = b.taken_up();
    assert(x.new_commands(y) =~= a.new_commands(b));
    assert(x.new_branches(y) =~= Seq::empty());
    assert(y.new_spawns =~= x.new_spawns + x.new_branches(y));
    assert forall|k: CommandKey| #[trigger] x.has_emitted(k) == a.has_emitted(k) by {}
    assert forall|k: CommandKey| #[trigger] y.has_emitted(k) == b.has_emitted(k) by {}
    assert forall|name: Seq<char>| #[trigger]
        remains(buffered(x.signals, name), buffered(y.signals, name)) by {
        assert(remains(buffered(a.signals, name), buffered(b.signals, name)));
    }
}

/// Branches do to the context what polls may do, apart from taking up branches.
pub proof fn lemma_branches_lead<W: Definition>(run: RunView<W::State>, i: nat)
    requires
        well_behaved::<W>(),
    ensures
        run.ctx.taken_up().leads_to(branches_polled::<W>(run, i).ctx.taken_up()),
    decreases run.live.len() - i,
{
    if i >= run.live.len() {
        nothing_leads(run.ctx.taken_up());
    } else {
        let step = W::branch_polled(run.state, run.live[i as int], run.ctx);
        lemma_taking_up_leads(run.ctx, step.ctx);
        if step.out {
            let next = RunView {
                state: step.state,
                ctx: step.ctx,
                live: run.live.remove(i as int),
            };
            lemma_branches_lead::<W>(next, i);
            leads_on(
                run.ctx.taken_up(),
                next.ctx.taken_up(),
                branches_polled::<W>(next, i).ctx.taken_up(),
            );
        } else {
            let next = RunView { state: step.state, ctx: step.ctx, live: run.live };
            lemma_branches_lead::<W>(next, i + 1);
            leads_on(
                run.ctx.taken_up(),
                next.ctx.taken_up(),
                branches_polled::<W>(next, i + 1).ctx.taken_up(),
            );
        }
    }
}

/// A turn does to the context what polls may do, apart from taking up branches.
pub proof fn turns_lead<W: Definition>(run: RunView<W::State>)
    requires
        comes_to_rest::<W>(),
        well_behaved::<W>(),
    ensures
        run.ctx.taken_up().leads_to(turn::<W>(run).0.ctx.taken_up()),
    decreases turn_measure::<W>(run),
{
    let step = W::polled(run.state, run.ctx);
    lemma_taking_up_leads(run.ctx, step.ctx);
    if step.out is None {
        let joined = run.joined(step);
        let after = branches_polled::<W>(joined, 0);
        assert(joined.ctx.taken_up() =~= step.ctx.taken_up());
        lemma_branches_lead::<W>(joined, 0);
        leads_on(run.ctx.taken_up(), joined.ctx.taken_up(), after.ctx.taken_up());
        if progressed(run, joined, after) {
            lemma_round_pays::<W>(run);
            turns_lead::<W>(after);
            leads_on(
                run.ctx.taken_up(),
                after.ctx.taken_up(),
                turn::<W>(after).0.ctx.taken_up(),
            );
        }
    }
}

/// The run as it stands before its next turn, when `event` has been applied.
pub open spec fn resumed<S>(rested: RunView<S>, event: EventView) -> RunView<S> {
    rested.with_ctx(rested.ctx.drained().with_outcome(event))
}

/// Whatever is driven emits no command twice, and none that has gone out before.
proof fn lemma_drive_once<W: Definition>(
    run: RunView<W::State>,
    stream: Seq<EventView>,
    cursor: nat,
)
    requires
        comes_to_rest::<W>(),
        well_behaved::<W>(),
        run.ctx.commands.len() == 0,
    ensures
        each_once(drive::<W>(run, stream, cursor).commands),
        forall|i: int|
            0 <= i < drive::<W>(run, stream, cursor).commands.len() ==> !run.ctx.has_emitted(
                (#[trigger] drive::<W>(run, stream, cursor).commands[i]).key(),
            ),
        forall|i: int|
            0 <= i < drive::<W>(run, stream, cursor).commands.len() && (#[trigger] drive::<W>(
                run,
                stream,
                cursor,
            ).commands[i]) is RecordPatch ==> !run.ctx.patches.contains(
                drive::<W>(run, stream, cursor).commands[i]->change_id,
            ),
    decreases stream.len() - cursor,
{
    let flagged = run.with_ctx(run.ctx.with_replaying(cursor < stream.len()));
    let (rested, output) = turn::<W>(flagged);
    turns_lead::<W>(flagged);
    let before = flagged.ctx.taken_up();
    let after = rested.ctx.taken_up();
    let now = rested.ctx.commands;
    assert(before.new_commands(after) =~= now);
    assert forall|k: CommandKey| #[trigger] before.has_emitted(k) == run.ctx.has_emitted(k) by {}
    assert forall|i: int| 0 <= i < now.len() implies !run.ctx.has_emitted(#[trigger] now[i].key())
        && rested.ctx.has_emitted(now[i].key()) by {
        assert(!before.has_emitted(before.new_commands(after)[i].key()));
        assert(after.has_emitted(before.new_commands(after)[i].key()));
    }
    assert forall|i: int| 0 <= i < now.len() && (#[trigger] now[i]) is RecordPatch implies
        !run.ctx.patches.contains(now[i]->change_id) by {
        assert(before.new_commands(after)[i] is RecordPatch);
    }
    if output is None && cursor < stream.len() {
        let next = resumed(rested, stream[cursor as int]);
        lemma_drive_once::<W>(next, stream, cursor + 1);
        let later = drive::<W>(next, stream, cursor + 1).commands;
        let all = drive::<W>(run, stream, cursor).commands;
        assert(all == now + later);
        assert forall|k: CommandKey| #[trigger] next.ctx.has_emitted(k) == rested.ctx.has_emitted(
            k,
        ) by {}
        assert forall|k: CommandKey| #[trigger] run.ctx.has_emitted(k) implies next.ctx.has_emitted(
            k,
        ) by {
            assert(before.has_emitted(k));
            assert(after.has_emitted(k));
        }
        assert forall|i: int| 0 <= i < all.len() implies !run.ctx.has_emitted(
            (#[trigger] all[i]).key(),
        ) by {
            if i >= now.len() {
                assert(all[i] == later[i - now.len()]);
                assert(!next.ctx.has_emitted(later[i - now.len()].key()));
            } else {
                assert(all[i] == now[i]);
            }
        }
        assert forall|i: int, j: int| 0 <= i < j < all.len() implies keys(all)[i] != keys(
            all,
        )[j] by {
            if j < now.len() {
                assert(keys(now)[i] != keys(now)[j]);
            } else if i >= now.len() {
                assert(all[i] == later[i - now.len()]);
                assert(all[j] == later[j - now.len()]);
                assert(keys(later)[i - now.len()] != keys(later)[j - now.len()]);
            } else {
                assert(all[j] == later[j - now.len()]);
                assert(rested.ctx.has_emitted(now[i].key()));
                assert(!next.ctx.has_emitted(later[j - now.len()].key()));
            }
        }
        assert forall|i: int| 0 <= i < all.len() && (#[trigger] all[i]) is RecordPatch implies
            !run.ctx.patches.contains(all[i]->change_id) by {
            if i >= now.len() {
                assert(all[i] == later[i - now.len()]);
            } else {
                assert(all[i] == now[i]);
            }
        }
    }
}

/// A replay emits no command twice: no two of its commands have one sequence number
/// or mark one change. And it asks for no marker that the history holds.
pub proof fn commands_go_out_once<W: Definition>(info: InfoView, history: Seq<EventView>)
    requires
        comes_to_rest::<W>(),
        well_behaved::<W>(),
        replay::<W>(info, history) is Ok,
    ensures
        each_once(replay::<W>(info, history)->Ok_0.commands),
        forall|i: int|
            0 <= i < replay::<W>(info, history)->Ok_0.commands.len() && (#[trigger] replay::<W>(
                info,
                history,
            )->Ok_0.commands[i]) is RecordPatch ==> !markers(history).contains(
                replay::<W>(info, history)->Ok_0.commands[i]->change_id,
            ),
{
    let state = W::started(history[0]->WorkflowStarted_input)->Ok_0;
    lemma_drive_once::<W>(replay_start::<W>(info, history, state), outcomes(history), 0);
}

/// The run with the frontier flag set.
pub open spec fn flagged<S>(run: RunView<S>, replaying: bool) -> RunView<S> {
    run.with_ctx(run.ctx.with_replaying(replaying))
}

/// Whether the last turn of a replay does not depend on whether more history
/// follows. It is the turn in which a workflow asks for change markers that are not
/// recorded.
pub open spec fn frontier_is_indifferent<W: Definition>(
    run: RunView<W::State>,
    stream: Seq<EventView>,
    cursor: nat,
) -> bool
    decreases stream.len() - cursor,
{
    if cursor < stream.len() {
        let (rested, output) = turn::<W>(flagged(run, true));
        output is None ==> frontier_is_indifferent::<W>(
            resumed(rested, stream[cursor as int]),
            stream,
            cursor + 1,
        )
    } else {
        let (rested, output) = turn::<W>(flagged(run, false));
        turn::<W>(flagged(run, true)) == (flagged(rested, true), output)
    }
}

/// More outcomes lead on from where the fewer led to.
proof fn lemma_drive_extends<W: Definition>(
    run: RunView<W::State>,
    stream: Seq<EventView>,
    more: Seq<EventView>,
    cursor: nat,
)
    requires
        cursor <= stream.len(),
        frontier_is_indifferent::<W>(run, stream, cursor),
    ensures
        drive::<W>(run, stream, cursor).commands.is_prefix_of(
            drive::<W>(run, stream + more, cursor).commands,
        ),
        drive::<W>(run, stream, cursor).completion is Some ==> drive::<W>(
            run,
            stream + more,
            cursor,
        ) == drive::<W>(run, stream, cursor),
    decreases stream.len() - cursor,
{
    let both = stream + more;
    if cursor < stream.len() {
        let (rested, output) = turn::<W>(flagged(run, true));
        assert(both[cursor as int] == stream[cursor as int]);
        if output is None {
            let next = resumed(rested, stream[cursor as int]);
            lemma_drive_extends::<W>(next, stream, more, cursor + 1);
        }
    } else if more.len() == 0 {
        assert(both =~= stream);
    } else {
        let (rested, output) = turn::<W>(flagged(run, false));
        assert(turn::<W>(flagged(run, true)) == (flagged(rested, true), output));
    }
}

proof fn lemma_outcomes_of_both(first: Seq<EventView>, second: Seq<EventView>)
    ensures
        outcomes(first + second) == outcomes(first) + outcomes(second),
    decreases second.len(),
{
    reveal(Seq::filter);
    if second.len() == 0 {
        assert(first + second =~= first);
        assert(outcomes(first) + outcomes(second) =~= outcomes(first));
    } else {
        assert((first + second).drop_last() =~= first + second.drop_last());
        lemma_outcomes_of_both(first, second.drop_last());
        assert(outcomes(first + second) =~= outcomes(first) + outcomes(second));
    }
}

/// History that is added to a run only adds to what the run has done: its commands
/// so far stay, and a result stays as it is. This leaves out new change markers, and
/// a workflow whose last turn asks for a marker that is not recorded: a turn that
/// asks again with more history ahead takes the unchanged path.
pub proof fn more_history_only_adds<W: Definition>(
    info: InfoView,
    history: Seq<EventView>,
    more: Seq<EventView>,
)
    requires
        replay::<W>(info, history) is Ok,
        replay::<W>(info, history + more) is Ok,
        markers(history + more) == markers(history),
        frontier_is_indifferent::<W>(
            replay_start::<W>(
                info,
                history,
                W::started(history[0]->WorkflowStarted_input)->Ok_0,
            ),
            outcomes(history),
            0,
        ),
    ensures
        replay::<W>(info, history)->Ok_0.commands.is_prefix_of(
            replay::<W>(info, history + more)->Ok_0.commands,
        ),
        replay::<W>(info, history)->Ok_0.completion is Some ==> replay::<W>(info, history + more)
            == replay::<W>(info, history),
{
    let state = W::started(history[0]->WorkflowStarted_input)->Ok_0;
    assert((history + more)[0] == history[0]);
    lemma_outcomes_of_both(history, more);
    lemma_drive_extends::<W>(
        replay_start::<W>(info, history, state),
        outcomes(history),
        outcomes(more),
        0,
    );
}

/// Whether polls do not depend on the frontier flag: the workflow asks for no
/// change marker.
pub open spec fn ignores_frontier<W: Definition>() -> bool {
    &&& forall|state: W::State, ctx: ContextView, b: bool|
        {
            let step = W::polled(state, ctx);
            let other = #[trigger] W::polled(state, ctx.with_replaying(b));
            other.state == step.state && other.ctx == step.ctx.with_replaying(b) && other.out
                == step.out
        }
    &&& forall|state: W::State, branch: u64, ctx: ContextView, b: bool|
        {
            let step = W::branch_polled(state, branch, ctx);
            let other = #[trigger] W::branch_polled(state, branch, ctx.with_replaying(b));
            other.state == step.state && other.ctx == step.ctx.with_replaying(b) && other.out
                == step.out
        }
}

proof fn lemma_branches_ignore_frontier<W: Definition>(run: RunView<W::State>, i: nat, b: bool)
    requires
        ignores_frontier::<W>(),
    ensures
        branches_polled::<W>(flagged(run, b), i) == flagged(branches_polled::<W>(run, i), b),
    decreases run.live.len() - i,
{
    if i < run.live.len() {
        let step = W::branch_polled(run.state, run.live[i as int], run.ctx);
        let other = W::branch_polled(run.state, run.live[i as int], run.ctx.with_replaying(b));
        if step.out {
            lemma_branches_ignore_frontier::<W>(
                RunView { state: step.state, ctx: step.ctx, live: run.live.remove(i as int) },
                i,
                b,
            );
        } else {
            lemma_branches_ignore_frontier::<W>(
                RunView { state: step.state, ctx: step.ctx, live: run.live },
                i + 1,
                b,
            );
        }
    }
}

proof fn lemma_turn_ignores_frontier<W: Definition>(run: RunView<W::State>, b: bool)
    requires
        comes_to_rest::<W>(),
        ignores_frontier::<W>(),
    ensures
        turn::<W>(flagged(run, b)) == (flagged(turn::<W>(run).0, b), turn::<W>(run).1),
    decreases turn_measure::<W>(run),
{
    let step = W::polled(run.state, run.ctx);
    let other = W::polled(run.state, run.ctx.with_replaying(b));
    if step.out is None {
        let joined = run.joined(step);
        let after = branches_polled::<W>(joined, 0);
        assert(flagged(run, b).joined(other) == flagged(joined, b));
        lemma_branches_ignore_frontier::<W>(joined, 0, b);
        if progressed(run, joined, after) {
            lemma_round_pays::<W>(run);
            lemma_turn_ignores_frontier::<W>(after, b);
        }
    }
}

/// For a workflow that asks for no change marker, the last turn of every replay is
/// indifferent.
pub proof fn without_markers_frontier_is_indifferent<W: Definition>(
    run: RunView<W::State>,
    stream: Seq<EventView>,
    cursor: nat,
)
    requires
        comes_to_rest::<W>(),
        ignores_frontier::<W>(),
    ensures
        frontier_is_indifferent::<W>(run, stream, cursor),
    decreases stream.len() - cursor,
{
    if cursor < stream.len() {
        let (rested, output) = turn::<W>(flagged(run, true));
        without_markers_frontier_is_indifferent::<W>(
            resumed(rested, stream[cursor as int]),
            stream,
            cursor + 1,
        );
    } else {
        let rest = flagged(run, false);
        lemma_turn_ignores_frontier::<W>(rest, true);
        assert(flagged(rest, true) == flagged(run, true));
    }
}

/// Commands diverge from a history if one of them does.
proof fn lemma_no_divergence(recorded: Map<u64, Recorded>, commands: Seq<CommandView>)
    ensures
        divergence(recorded, commands) is None <==> forall|i: int|
            0 <= i < commands.len() ==> mismatch(recorded, #[trigger] commands[i]) is None,
    decreases commands.len(),
{
    if commands.len() > 0 {
        let before = commands.drop_last();
        lemma_no_divergence(recorded, before);
        assert(commands.last() == commands[commands.len() - 1]);
        if divergence(recorded, commands) is None {
            assert forall|i: int| 0 <= i < commands.len() implies mismatch(
                recorded,
                #[trigger] commands[i],
            ) is None by {
                if i < before.len() {
                    assert(before[i] == commands[i]);
                }
            }
        }
        if forall|i: int|
            0 <= i < commands.len() ==> mismatch(recorded, #[trigger] commands[i]) is None {
            assert forall|i: int| 0 <= i < before.len() implies mismatch(
                recorded,
                #[trigger] before[i],
            ) is None by {
                assert(before[i] == commands[i]);
            }
        }
    }
}

/// Later records count.
proof fn lemma_recorded_of_both(first: Seq<EventView>, second: Seq<EventView>)
    ensures
        recorded(first + second) == recorded(first).union_prefer_right(recorded(second)),
    decreases second.len(),
{
    if second.len() == 0 {
        assert(first + second =~= first);
        assert(recorded(first).union_prefer_right(recorded(second)) =~= recorded(first));
    } else {
        assert((first + second).drop_last() =~= first + second.drop_last());
        lemma_recorded_of_both(first, second.drop_last());
        assert(recorded(first + second) =~= recorded(first).union_prefer_right(recorded(second)));
    }
}

/// Whether no number is recorded twice.
pub open spec fn scheduled_once(history: Seq<EventView>) -> bool {
    forall|i: int, j: int|
        0 <= i < j < history.len() && (#[trigger] history[i]).recorded() is Some && (
        #[trigger] history[j]).recorded() is Some ==> history[i].seq() != history[j].seq()
}

/// A number is recorded where an event records it.
proof fn lemma_recorded_somewhere(history: Seq<EventView>, seq: u64)
    ensures
        recorded(history).contains_key(seq) <==> exists|i: int|
            0 <= i < history.len() && (#[trigger] history[i]).recorded() is Some
                && history[i].seq() == Some(seq),
    decreases history.len(),
{
    if history.len() > 0 {
        let before = history.drop_last();
        let last = history.len() - 1;
        lemma_recorded_somewhere(before, seq);
        if recorded(before).contains_key(seq) {
            let i = choose|i: int|
                0 <= i < before.len() && (#[trigger] before[i]).recorded() is Some
                    && before[i].seq() == Some(seq);
            assert(history[i] == before[i]);
        }
        if recorded(history).contains_key(seq) && !recorded(before).contains_key(seq) {
            assert(history[last].seq() == Some(seq));
        }
        if exists|i: int|
            0 <= i < history.len() && (#[trigger] history[i]).recorded() is Some
                && history[i].seq() == Some(seq) {
            let i = choose|i: int|
                0 <= i < history.len() && (#[trigger] history[i]).recorded() is Some
                    && history[i].seq() == Some(seq);
            if i < last {
                assert(before[i] == history[i]);
            }
        }
    }
}

/// What is at one with a history is at one with its beginnings.
proof fn lemma_no_divergence_before(
    history: Seq<EventView>,
    more: Seq<EventView>,
    commands: Seq<CommandView>,
    some: Seq<CommandView>,
)
    requires
        scheduled_once(history + more),
        divergence(recorded(history + more), commands) is None,
        some.is_prefix_of(commands),
    ensures
        divergence(recorded(history), some) is None,
{
    let both = history + more;
    lemma_recorded_of_both(history, more);
    lemma_no_divergence(recorded(both), commands);
    lemma_no_divergence(recorded(history), some);
    assert forall|k: int| 0 <= k < some.len() implies mismatch(
        recorded(history),
        #[trigger] some[k],
    ) is None by {
        assert(some[k] == commands[k]);
        assert(mismatch(recorded(both), commands[k]) is None);
        if let Some(seq) = some[k].seq() {
            if recorded(history).contains_key(seq) && recorded(more).contains_key(seq) {
                lemma_recorded_somewhere(history, seq);
                lemma_recorded_somewhere(more, seq);
                let i = choose|i: int|
                    0 <= i < history.len() && (#[trigger] history[i]).recorded() is Some
                        && history[i].seq() == Some(seq);
                let j = choose|j: int|
                    0 <= j < more.len() && (#[trigger] more[j]).recorded() is Some
                        && more[j].seq() == Some(seq);
                assert(both[i] == history[i]);
                assert(both[history.len() + j] == more[j]);
            }
        }
    }
}

/// A beginning of a history that replays does replay, to a beginning of what the
/// whole comes to; a result that it comes to is that of the whole. No number is to be
/// recorded twice. This leaves out what [`more_history_only_adds`] leaves out; for
/// workflows that ask for no change marker see [`every_prefix_replays`].
pub proof fn prefix_replays<W: Definition>(
    info: InfoView,
    history: Seq<EventView>,
    more: Seq<EventView>,
)
    requires
        replay::<W>(info, history + more) is Ok,
        history.len() > 0,
        scheduled_once(history + more),
        markers(history + more) == markers(history),
        frontier_is_indifferent::<W>(
            replay_start::<W>(
                info,
                history,
                W::started(history[0]->WorkflowStarted_input)->Ok_0,
            ),
            outcomes(history),
            0,
        ),
    ensures
        replay::<W>(info, history) is Ok,
        replay::<W>(info, history)->Ok_0.commands.is_prefix_of(
            replay::<W>(info, history + more)->Ok_0.commands,
        ),
        replay::<W>(info, history)->Ok_0.completion is Some ==> replay::<W>(info, history + more)
            == replay::<W>(info, history),
{
    let both = history + more;
    assert(both[0] == history[0]);
    let state = W::started(history[0]->WorkflowStarted_input)->Ok_0;
    let start = replay_start::<W>(info, history, state);
    lemma_outcomes_of_both(history, more);
    lemma_drive_extends::<W>(start, outcomes(history), outcomes(more), 0);
    lemma_no_divergence_before(
        history,
        more,
        drive::<W>(start, outcomes(both), 0).commands,
        drive::<W>(start, outcomes(history), 0).commands,
    );
}

/// The context with those change markers recorded and the frontier flag set.
pub open spec fn marked(ctx: ContextView, patches: Set<Seq<char>>, replaying: bool) -> ContextView {
    ContextView { patches, replaying, ..ctx }
}

/// Whether polls depend neither on recorded change markers nor on the frontier flag:
/// the workflow never asks for a marker.
pub open spec fn never_asks_for_markers<W: Definition>() -> bool {
    &&& forall|state: W::State, ctx: ContextView, patches: Set<Seq<char>>, b: bool|
        {
            let step = W::polled(state, ctx);
            let other = #[trigger] W::polled(state, marked(ctx, patches, b));
            other.state == step.state && other.ctx == marked(step.ctx, patches, b) && other.out
                == step.out
        }
    &&& forall|state: W::State, branch: u64, ctx: ContextView, patches: Set<Seq<char>>, b: bool|
        {
            let step = W::branch_polled(state, branch, ctx);
            let other = #[trigger] W::branch_polled(state, branch, marked(ctx, patches, b));
            other.state == step.state && other.ctx == marked(step.ctx, patches, b) && other.out
                == step.out
        }
}

proof fn lemma_branches_ignore_markers<W: Definition>(
    run: RunView<W::State>,
    i: nat,
    patches: Set<Seq<char>>,
    b: bool,
)
    requires
        never_asks_for_markers::<W>(),
    ensures
        branches_polled::<W>(run.with_ctx(marked(run.ctx, patches, b)), i) == branches_polled::<W>(
            run,
            i,
        ).with_ctx(marked(branches_polled::<W>(run, i).ctx, patches, b)),
    decreases run.live.len() - i,
{
    if i < run.live.len() {
        let branch = run.live[i as int];
        let step = W::branch_polled(run.state, branch, run.ctx);
        let other = W::branch_polled(run.state, branch, marked(run.ctx, patches, b));
        if step.out {
            let next = RunView {
                state: step.state,
                ctx: step.ctx,
                live: run.live.remove(i as int),
            };
            lemma_branches_ignore_markers::<W>(next, i, patches, b);
        } else {
            let next = RunView { state: step.state, ctx: step.ctx, live: run.live };
            lemma_branches_ignore_markers::<W>(next, i + 1, patches, b);
        }
    }
}

proof fn lemma_turn_ignores_markers<W: Definition>(
    run: RunView<W::State>,
    patches: Set<Seq<char>>,
    b: bool,
)
    requires
        comes_to_rest::<W>(),
        never_asks_for_markers::<W>(),
    ensures
        turn::<W>(run.with_ctx(marked(run.ctx, patches, b))) == (
            turn::<W>(run).0.with_ctx(marked(turn::<W>(run).0.ctx, patches, b)),
            turn::<W>(run).1,
        ),
    decreases turn_measure::<W>(run),
{
    let step = W::polled(run.state, run.ctx);
    let changed = run.with_ctx(marked(run.ctx, patches, b));
    let other = W::polled(run.state, marked(run.ctx, patches, b));
    if step.out is None {
        let joined = run.joined(step);
        let after = branches_polled::<W>(joined, 0);
        assert(changed.joined(other) == joined.with_ctx(marked(joined.ctx, patches, b)));
        lemma_branches_ignore_markers::<W>(joined, 0, patches, b);
        if progressed(run, joined, after) {
            lemma_round_pays::<W>(run);
            lemma_turn_ignores_markers::<W>(after, patches, b);
        }
    }
}

/// What such a workflow does when it is driven is the same with other markers.
proof fn lemma_drive_ignores_markers<W: Definition>(
    run: RunView<W::State>,
    stream: Seq<EventView>,
    cursor: nat,
    patches: Set<Seq<char>>,
)
    requires
        comes_to_rest::<W>(),
        never_asks_for_markers::<W>(),
    ensures
        drive::<W>(
            run.with_ctx(marked(run.ctx, patches, run.ctx.replaying)),
            stream,
            cursor,
        ) == drive::<W>(run, stream, cursor),
    decreases stream.len() - cursor,
{
    let b = cursor < stream.len();
    let changed = run.with_ctx(marked(run.ctx, patches, run.ctx.replaying));
    let here = flagged(run, b);
    lemma_turn_ignores_markers::<W>(here, patches, b);
    assert(flagged(changed, b) == here.with_ctx(marked(here.ctx, patches, b)));
    let (rested, output) = turn::<W>(here);
    let (other, other_output) = turn::<W>(flagged(changed, b));
    assert(other == rested.with_ctx(marked(rested.ctx, patches, b)));
    if output is None && b {
        let next = resumed(rested, stream[cursor as int]);
        let back = marked(next.ctx, patches, b);
        lemma_turn_ignores_markers::<W>(here, here.ctx.patches, b);
        assert(here.with_ctx(marked(here.ctx, here.ctx.patches, b)) == here);
        assert(rested.ctx.replaying == b);
        assert(next.ctx.replaying == b);
        assert(resumed(other, stream[cursor as int]) == next.with_ctx(back));
        lemma_drive_ignores_markers::<W>(next, stream, cursor + 1, patches);
    }
}

/// Every beginning of a history that replays does replay, to a beginning of what the
/// whole comes to, and a result that it comes to is that of the whole. The workflow
/// never asks for a change marker, and no number is recorded twice.
pub proof fn every_prefix_replays<W: Definition>(info: InfoView, history: Seq<EventView>, n: int)
    requires
        comes_to_rest::<W>(),
        never_asks_for_markers::<W>(),
        replay::<W>(info, history) is Ok,
        scheduled_once(history),
        0 < n <= history.len(),
    ensures
        replay::<W>(info, history.take(n)) is Ok,
        replay::<W>(info, history.take(n))->Ok_0.commands.is_prefix_of(
            replay::<W>(info, history)->Ok_0.commands,
        ),
        replay::<W>(info, history.take(n))->Ok_0.completion is Some ==> replay::<W>(
            info,
            history.take(n),
        ) == replay::<W>(info, history),
{
    let first = history.take(n);
    let more = history.skip(n);
    assert(first + more =~= history);
    assert(first[0] == history[0]);
    let state = W::started(history[0]->WorkflowStarted_input)->Ok_0;
    let start = replay_start::<W>(info, first, state);
    let whole = replay_start::<W>(info, history, state);
    assert(whole == start.with_ctx(marked(start.ctx, markers(history), start.ctx.replaying)));
    lemma_drive_ignores_markers::<W>(start, outcomes(history), 0, markers(history));
    assert(ignores_frontier::<W>()) by {
        assert forall|ctx: ContextView, b: bool| #[trigger] ctx.with_replaying(b) == marked(
            ctx,
            ctx.patches,
            b,
        ) by {}
        assert forall|state: W::State, ctx: ContextView, b: bool|
            {
                let step = W::polled(state, ctx);
                let other = #[trigger] W::polled(state, ctx.with_replaying(b));
                other.state == step.state && other.ctx == step.ctx.with_replaying(b) && other.out
                    == step.out
            } by {
            lemma_poll_keeps_markers::<W>(state, ctx);
            assert(W::polled(state, ctx.with_replaying(b)) == W::polled(
                state,
                marked(ctx, ctx.patches, b),
            ));
        }
        assert forall|state: W::State, branch: u64, ctx: ContextView, b: bool|
            {
                let step = W::branch_polled(state, branch, ctx);
                let other = #[trigger] W::branch_polled(state, branch, ctx.with_replaying(b));
                other.state == step.state && other.ctx == step.ctx.with_replaying(b) && other.out
                    == step.out
            } by {
            lemma_branch_keeps_markers::<W>(state, branch, ctx);
            assert(W::branch_polled(state, branch, ctx.with_replaying(b)) == W::branch_polled(
                state,
                branch,
                marked(ctx, ctx.patches, b),
            ));
        }
    }
    without_markers_frontier_is_indifferent::<W>(start, outcomes(first), 0);
    lemma_outcomes_of_both(first, more);
    lemma_drive_extends::<W>(start, outcomes(first), outcomes(more), 0);
    lemma_no_divergence_before(
        first,
        more,
        drive::<W>(start, outcomes(history), 0).commands,
        drive::<W>(start, outcomes(first), 0).commands,
    );
}

/// A poll of such a workflow leaves the recorded markers alone.
proof fn lemma_poll_keeps_markers<W: Definition>(state: W::State, ctx: ContextView)
    requires
        never_asks_for_markers::<W>(),
    ensures
        W::polled(state, ctx).ctx.patches == ctx.patches,
{
    let same = marked(ctx, ctx.patches, ctx.replaying);
    assert(same == ctx);
    assert(W::polled(state, same).ctx == marked(
        W::polled(state, ctx).ctx,
        ctx.patches,
        ctx.replaying,
    ));
}

/// A poll of a branch of such a workflow leaves the recorded markers alone.
proof fn lemma_branch_keeps_markers<W: Definition>(state: W::State, branch: u64, ctx: ContextView)
    requires
        never_asks_for_markers::<W>(),
    ensures
        W::branch_polled(state, branch, ctx).ctx.patches == ctx.patches,
{
    let same = marked(ctx, ctx.patches, ctx.replaying);
    assert(same == ctx);
    assert(W::branch_polled(state, branch, same).ctx == marked(
        W::branch_polled(state, branch, ctx).ctx,
        ctx.patches,
        ctx.replaying,
    ));
}

/// What the events that record `commands` record.
proof fn lemma_recorded_echoes(commands: Seq<CommandView>)
    requires
        each_once(commands),
    ensures
        forall|seq: u64| #[trigger]
            recorded(echoes(commands)).contains_key(seq) <==> exists|i: int|
                0 <= i < commands.len() && (#[trigger] commands[i]).seq() == Some(seq),
        forall|i: int|
            0 <= i < commands.len() && (#[trigger] commands[i]).seq() is Some ==> recorded(
                echoes(commands),
            )[commands[i].seq()->0] == commands[i].recorded()->0,
    decreases commands.len(),
{
    if commands.len() > 0 {
        let before = commands.drop_last();
        let last = commands.last();
        assert(echoes(commands).drop_last() =~= echoes(before));
        assert(echoes(commands).last() == last.echo());
        assert forall|i: int, j: int| 0 <= i < j < before.len() implies keys(before)[i] != keys(
            before,
        )[j] by {
            assert(keys(commands)[i] != keys(commands)[j]);
        }
        lemma_recorded_echoes(before);
        let old_map = recorded(echoes(before));
        let new_map = recorded(echoes(commands));
        assert(last.echo().recorded() == last.recorded());
        assert(last.recorded() is Some ==> last.echo().seq() == last.seq());
        assert forall|seq: u64| #[trigger] new_map.contains_key(seq) <==> exists|i: int|
            0 <= i < commands.len() && (#[trigger] commands[i]).seq() == Some(seq) by {
            if new_map.contains_key(seq) {
                if old_map.contains_key(seq) {
                    let i = choose|i: int|
                        0 <= i < before.len() && (#[trigger] before[i]).seq() == Some(seq);
                    assert(commands[i].seq() == Some(seq));
                } else {
                    assert(commands[commands.len() - 1].seq() == Some(seq));
                }
            }
            if exists|i: int| 0 <= i < commands.len() && (#[trigger] commands[i]).seq() == Some(
                seq,
            ) {
                let i = choose|i: int|
                    0 <= i < commands.len() && (#[trigger] commands[i]).seq() == Some(seq);
                if i < before.len() {
                    assert(before[i].seq() == Some(seq));
                    assert(old_map.contains_key(seq));
                }
            }
        }
        assert forall|i: int|
            0 <= i < commands.len() && (#[trigger] commands[i]).seq() is Some implies 
            new_map[commands[i].seq()->0] == commands[i].recorded()->0 by {
            if i < before.len() {
                assert(before[i] == commands[i]);
                assert(keys(commands)[i] != keys(commands)[commands.len() - 1]);
            }
        }
    }
}

/// Nothing but outcomes is applied, and an echo is none.
proof fn lemma_echoes_are_no_outcomes(commands: Seq<CommandView>)
    ensures
        outcomes(echoes(commands)) == Seq::<EventView>::empty(),
    decreases commands.len(),
{
    reveal(Seq::filter);
    if commands.len() > 0 {
        assert(echoes(commands).drop_last() =~= echoes(commands.drop_last()));
        lemma_echoes_are_no_outcomes(commands.drop_last());
    }
}

/// What is not recorded is part of what went out: in the same order, and all of it
/// that is not recorded.
proof fn lemma_unrecorded(history: Seq<EventView>, commands: Seq<CommandView>)
    ensures
        forall|i: int|
            0 <= i < unrecorded(history, commands).len() ==> !is_recorded(
                history,
                #[trigger] unrecorded(history, commands)[i],
            ) && commands.contains(unrecorded(history, commands)[i]),
        forall|i: int|
            0 <= i < commands.len() && !is_recorded(history, #[trigger] commands[i])
                ==> unrecorded(history, commands).contains(commands[i]),
        each_once(commands) ==> each_once(unrecorded(history, commands)),
    decreases commands.len(),
{
    if commands.len() > 0 {
        let before = commands.drop_last();
        let last = commands.last();
        lemma_unrecorded(history, before);
        let a = unrecorded(history, before);
        let b = unrecorded(history, commands);
        assert forall|i: int| 0 <= i < b.len() implies !is_recorded(history, #[trigger] b[i])
            && commands.contains(b[i]) by {
            if i < a.len() {
                assert(b[i] == a[i]);
                let j = choose|j: int| 0 <= j < before.len() && before[j] == a[i];
                assert(commands[j] == b[i]);
            } else {
                assert(commands[commands.len() - 1] == b[i]);
            }
        }
        assert forall|i: int|
            0 <= i < commands.len() && !is_recorded(history, #[trigger] commands[i]) implies 
            b.contains(commands[i]) by {
            if i < before.len() {
                assert(before[i] == commands[i]);
                let j = choose|j: int| 0 <= j < a.len() && a[j] == commands[i];
                assert(b[j] == commands[i]);
            } else {
                assert(b[b.len() - 1] == commands[i]);
            }
        }
        if each_once(commands) {
            assert forall|i: int, j: int| 0 <= i < j < before.len() implies keys(before)[i]
                != keys(before)[j] by {
                assert(keys(commands)[i] != keys(commands)[j]);
            }
            assert forall|i: int, j: int| 0 <= i < j < b.len() implies keys(b)[i] != keys(
                b,
            )[j] by {
                if j < a.len() {
                    assert(keys(a)[i] != keys(a)[j]);
                } else {
                    assert(b[i] == a[i]);
                    let k = choose|k: int| 0 <= k < before.len() && before[k] == a[i];
                    assert(keys(commands)[k] != keys(commands)[commands.len() - 1]);
                }
            }
        }
    }
}

/// Whether a command list asks for no change marker.
pub open spec fn asks_for_no_marker(commands: Seq<CommandView>) -> bool {
    forall|i: int| 0 <= i < commands.len() ==> !((#[trigger] commands[i]) is RecordPatch)
}

/// The history of a run after its turn: what the workflow did, and the history did
/// not hold, is recorded.
pub open spec fn after_turn<W: Definition>(info: InfoView, history: Seq<EventView>) -> Seq<
    EventView,
> {
    history + echoes(unrecorded(history, replay::<W>(info, history)->Ok_0.commands))
}

/// The changes that a list of commands marks.
pub open spec fn marked_changes(commands: Seq<CommandView>) -> Set<Seq<char>> {
    Set::new(|id: Seq<char>| commands.contains(CommandView::RecordPatch { change_id: id }))
}

/// What it comes to that the commands of a turn are recorded: each of them is, none is
/// at odds with the history, and nothing is applied that was not.
proof fn lemma_turn_is_recorded(history: Seq<EventView>, commands: Seq<CommandView>)
    requires
        each_once(commands),
        divergence(recorded(history), commands) is None,
    ensures
        ({
            let full = history + echoes(unrecorded(history, commands));
            &&& outcomes(full) == outcomes(history)
            &&& markers(full) == markers(history).union(marked_changes(commands))
            &&& recorded(full).dom() == recorded(history).dom().union(numbers(commands))
            &&& forall|i: int|
                0 <= i < commands.len() ==> mismatch(
                    recorded(full),
                    #[trigger] commands[i],
                ) is None && is_recorded(full, commands[i])
        }),
{
    let new = unrecorded(history, commands);
    let added = echoes(new);
    let full = history + added;
    lemma_unrecorded(history, commands);
    lemma_recorded_echoes(new);
    lemma_recorded_of_both(history, added);
    lemma_outcomes_of_both(history, added);
    lemma_echoes_are_no_outcomes(new);
    assert(outcomes(full) =~= outcomes(history));
    assert forall|id: Seq<char>| #[trigger] markers(full).contains(id) <==> markers(
        history,
    ).contains(id) || marked_changes(commands).contains(id) by {
        let p = EventView::Patched { change_id: id };
        let c = CommandView::RecordPatch { change_id: id };
        if full.contains(p) {
            let k = choose|k: int| 0 <= k < full.len() && full[k] == p;
            if k >= history.len() {
                assert(full[k] == new[k - history.len()].echo());
                assert(new[k - history.len()] == c);
                assert(commands.contains(c));
            } else {
                assert(history[k] == p);
            }
        }
        if history.contains(p) {
            let k = choose|k: int| 0 <= k < history.len() && history[k] == p;
            assert(full[k] == p);
        } else if commands.contains(c) {
            let j = choose|j: int| 0 <= j < commands.len() && commands[j] == c;
            assert(!is_recorded(history, commands[j]));
            let k = choose|k: int| 0 <= k < new.len() && new[k] == c;
            assert(full[history.len() + k] == p);
        }
    }
    assert(markers(full) =~= markers(history).union(marked_changes(commands)));
    lemma_no_divergence(recorded(history), commands);
    assert forall|i: int| 0 <= i < commands.len() implies mismatch(
        recorded(full),
        #[trigger] commands[i],
    ) is None && is_recorded(full, commands[i]) by {
        let c = commands[i];
        if c is RecordPatch {
            assert(commands.contains(c));
            assert(marked_changes(commands).contains(c->change_id));
            assert(markers(full).contains(c->change_id));
        } else {
            let seq = c.seq()->0;
            assert(mismatch(recorded(history), c) is None);
            if is_recorded(history, c) {
                if recorded(added).contains_key(seq) {
                    let j = choose|j: int|
                        0 <= j < new.len() && (#[trigger] new[j]).seq() == Some(seq);
                    assert(!is_recorded(history, new[j]));
                    assert(false);
                }
            } else {
                let j = choose|j: int| 0 <= j < new.len() && new[j] == c;
                assert(new[j].seq() == Some(seq));
                assert(recorded(added).contains_key(seq));
            }
        }
    }
    assert forall|seq: u64| #[trigger] recorded(full).contains_key(seq) <==> recorded(
        history,
    ).contains_key(seq) || numbers(commands).contains(seq) by {
        if recorded(added).contains_key(seq) {
            let j = choose|j: int| 0 <= j < new.len() && (#[trigger] new[j]).seq() == Some(seq);
            let k = choose|k: int| 0 <= k < commands.len() && commands[k] == new[j];
            assert(commands[k].seq() == Some(seq));
        }
        if numbers(commands).contains(seq) {
            let k = choose|k: int|
                0 <= k < commands.len() && (#[trigger] commands[k]).seq() == Some(seq);
            assert(is_recorded(full, commands[k]));
        }
    }
    assert(recorded(full).dom() =~= recorded(history).dom().union(numbers(commands)));
}

/// A list of which every command is recorded has nothing to record.
proof fn lemma_all_recorded(history: Seq<EventView>, commands: Seq<CommandView>)
    requires
        forall|i: int| 0 <= i < commands.len() ==> is_recorded(history, #[trigger] commands[i]),
    ensures
        unrecorded(history, commands) == Seq::<CommandView>::empty(),
{
    lemma_unrecorded(history, commands);
    let left = unrecorded(history, commands);
    if left.len() > 0 {
        assert(!is_recorded(history, left[0]) && commands.contains(left[0]));
        let j = choose|j: int| 0 <= j < commands.len() && commands[j] == left[0];
        assert(is_recorded(history, commands[j]));
    }
    assert(left =~= Seq::empty());
}

/// A turn that is taken again after it has been recorded finds nothing to record,
/// and the same result. This speaks of turns that ask for no change marker; for
/// others see [`recorded_markers_replay`].
pub proof fn recorded_turn_adds_nothing<W: Definition>(info: InfoView, history: Seq<EventView>)
    requires
        comes_to_rest::<W>(),
        well_behaved::<W>(),
        replay::<W>(info, history) is Ok,
        asks_for_no_marker(replay::<W>(info, history)->Ok_0.commands),
    ensures
        replay::<W>(info, after_turn::<W>(info, history)) == replay::<W>(info, history),
        unrecorded(
            after_turn::<W>(info, history),
            replay::<W>(info, history)->Ok_0.commands,
        ) == Seq::<CommandView>::empty(),
        recorded(after_turn::<W>(info, history)).dom() == recorded(history).dom().union(
            numbers(replay::<W>(info, history)->Ok_0.commands),
        ),
{
    let commands = replay::<W>(info, history)->Ok_0.commands;
    let full = after_turn::<W>(info, history);
    commands_go_out_once::<W>(info, history);
    lemma_turn_is_recorded(history, commands);
    assert(markers(full) =~= markers(history));
    assert(full[0] == history[0]);
    lemma_no_divergence(recorded(full), commands);
    lemma_all_recorded(full, commands);
}

/// A turn that asks for change markers and is taken again after they have been
/// recorded, with whatever else it did, comes to the same result and the same
/// commands, apart from the markers, and finds nothing to record.
///
/// The markers are to be first asked for in the last turn: the turns before it come
/// out the same with the markers recorded. A marker that was asked for while history
/// lay ahead, and again at its end, changes the path of the earlier turn. Polls are to
/// look at markers only through [`Context::patched`](crate::workflow::Context::patched),
/// and nothing is to come of it when a round has done nothing but ask for them.
pub proof fn recorded_markers_replay<W: Definition>(info: InfoView, history: Seq<EventView>)
    requires
        comes_to_rest::<W>(),
        well_behaved::<W>(),
        replay::<W>(info, history) is Ok,
        sees_markers_through_patched::<W>(),
        marker_rounds_lead_nowhere::<W>(),
        earlier_turns_stand::<W>(
            replay_start::<W>(
                info,
                history,
                W::started(history[0]->WorkflowStarted_input)->Ok_0,
            ),
            outcomes(history),
            0,
            markers(after_turn::<W>(info, history)),
        ),
    ensures
        replay::<W>(info, after_turn::<W>(info, history)) == Ok::<
            ReplayOutcomeView,
            NondeterminismView,
        >(
            ReplayOutcomeView {
                commands: without_markers(replay::<W>(info, history)->Ok_0.commands),
                completion: replay::<W>(info, history)->Ok_0.completion,
            },
        ),
        unrecorded(
            after_turn::<W>(info, history),
            replay::<W>(info, after_turn::<W>(info, history))->Ok_0.commands,
        ) == Seq::<CommandView>::empty(),
        recorded(after_turn::<W>(info, history)).dom() == recorded(history).dom().union(
            numbers(replay::<W>(info, after_turn::<W>(info, history))->Ok_0.commands),
        ),
{
    let commands = replay::<W>(info, history)->Ok_0.commands;
    let kept = without_markers(commands);
    let full = after_turn::<W>(info, history);
    let state = W::started(history[0]->WorkflowStarted_input)->Ok_0;
    let start = replay_start::<W>(info, history, state);
    commands_go_out_once::<W>(info, history);
    lemma_turn_is_recorded(history, commands);
    assert(full[0] == history[0]);
    let patches = markers(full);
    assert forall|i: int| 0 <= i < commands.len() && (
    #[trigger] commands[i]) is RecordPatch implies patches.contains(commands[i]->change_id) by {
        assert(commands.contains(commands[i]));
        assert(marked_changes(commands).contains(commands[i]->change_id));
    }
    lemma_drive_recorded::<W>(start, outcomes(history), 0, patches);
    assert(replay_start::<W>(info, full, state) == start.with_ctx(
        marked(start.ctx, patches, start.ctx.replaying),
    ));
    lemma_left_in(commands);
    assert forall|i: int| 0 <= i < kept.len() implies mismatch(
        recorded(full),
        #[trigger] kept[i],
    ) is None && is_recorded(full, kept[i]) by {
        let j = choose|j: int| 0 <= j < commands.len() && commands[j] == kept[i];
        assert(mismatch(recorded(full), commands[j]) is None);
    }
    lemma_no_divergence(recorded(full), kept);
    lemma_all_recorded(full, kept);
    lemma_numbers_kept(commands);
}

/// Change markers have no numbers.
proof fn lemma_numbers_kept(commands: Seq<CommandView>)
    ensures
        numbers(without_markers(commands)) == numbers(commands),
{
    lemma_left_in(commands);
    let kept = without_markers(commands);
    assert forall|seq: u64| numbers(kept).contains(seq) <==> numbers(commands).contains(seq) by {
        if numbers(kept).contains(seq) {
            let i = choose|i: int| 0 <= i < kept.len() && (#[trigger] kept[i]).seq() == Some(seq);
            let j = choose|j: int| 0 <= j < commands.len() && commands[j] == kept[i];
            assert(commands[j].seq() == Some(seq));
        }
        if numbers(commands).contains(seq) {
            let i = choose|i: int|
                0 <= i < commands.len() && (#[trigger] commands[i]).seq() == Some(seq);
            assert(kept.contains(commands[i]));
            let j = choose|j: int| 0 <= j < kept.len() && kept[j] == commands[i];
            assert(kept[j].seq() == Some(seq));
        }
    }
    assert(numbers(kept) =~= numbers(commands));
}

/// Whether a turn stands when it has been recorded: it asks for no change marker, or it
/// is one of which [`recorded_markers_replay`] speaks.
pub open spec fn turn_stands<W: Definition>(info: InfoView, history: Seq<EventView>) -> bool {
    ||| asks_for_no_marker(replay::<W>(info, history)->Ok_0.commands)
    ||| {
        &&& sees_markers_through_patched::<W>()
        &&& marker_rounds_lead_nowhere::<W>()
        &&& earlier_turns_stand::<W>(
            replay_start::<W>(
                info,
                history,
                W::started(history[0]->WorkflowStarted_input)->Ok_0,
            ),
            outcomes(history),
            0,
            markers(after_turn::<W>(info, history)),
        )
    }
}

/// A turn that stands and is taken again after it has been recorded comes to the same
/// result and the same commands, apart from change markers, and finds nothing to
/// record.
pub proof fn standing_turn_adds_nothing<W: Definition>(info: InfoView, history: Seq<EventView>)
    requires
        comes_to_rest::<W>(),
        well_behaved::<W>(),
        replay::<W>(info, history) is Ok,
        turn_stands::<W>(info, history),
    ensures
        replay::<W>(info, after_turn::<W>(info, history)) == Ok::<
            ReplayOutcomeView,
            NondeterminismView,
        >(
            ReplayOutcomeView {
                commands: without_markers(replay::<W>(info, history)->Ok_0.commands),
                completion: replay::<W>(info, history)->Ok_0.completion,
            },
        ),
        unrecorded(
            after_turn::<W>(info, history),
            replay::<W>(info, after_turn::<W>(info, history))->Ok_0.commands,
        ) == Seq::<CommandView>::empty(),
        recorded(after_turn::<W>(info, history)).dom() == recorded(history).dom().union(
            numbers(replay::<W>(info, after_turn::<W>(info, history))->Ok_0.commands),
        ),
        numbers(replay::<W>(info, after_turn::<W>(info, history))->Ok_0.commands) == numbers(
            replay::<W>(info, history)->Ok_0.commands,
        ),
{
    let commands = replay::<W>(info, history)->Ok_0.commands;
    lemma_numbers_kept(commands);
    if asks_for_no_marker(commands) {
        recorded_turn_adds_nothing::<W>(info, history);
        lemma_nothing_to_leave_out(commands);
    } else {
        recorded_markers_replay::<W>(info, history);
    }
}

/// The first turn of a run stands, for a workflow that looks at change markers only by
/// asking whether it is on the changed path.
pub proof fn first_turn_stands<W: Definition>(info: InfoView, input: Seq<u8>)
    requires
        sees_markers_through_patched::<W>(),
        marker_rounds_lead_nowhere::<W>(),
    ensures
        turn_stands::<W>(info, seq![EventView::WorkflowStarted { input }]),
{
    let history = seq![EventView::WorkflowStarted { input }];
    assert(outcomes(history) =~= Seq::empty()) by {
        reveal_with_fuel(Seq::filter, 2);
        assert(history.drop_last() =~= Seq::empty());
    }
}

/// The last turn of a settled history is indifferent: whatever markers it asks for are
/// recorded. So [`next_turn_settles`] leads from each settled history to the next, for
/// a workflow that looks at change markers only by asking whether it is on the changed
/// path.
pub proof fn settled_history_is_indifferent<W: Definition>(info: InfoView, history: Seq<EventView>)
    requires
        comes_to_rest::<W>(),
        well_behaved::<W>(),
        sees_markers_through_patched::<W>(),
        settled::<W>(info, history),
    ensures
        frontier_is_indifferent::<W>(
            replay_start::<W>(
                info,
                history,
                W::started(history[0]->WorkflowStarted_input)->Ok_0,
            ),
            outcomes(history),
            0,
        ),
{
    let commands = replay::<W>(info, history)->Ok_0.commands;
    commands_go_out_once::<W>(info, history);
    lemma_unrecorded(history, commands);
    assert forall|i: int| 0 <= i < commands.len() implies !((
    #[trigger] commands[i]) is RecordPatch) by {
        if commands[i] is RecordPatch {
            assert(!is_recorded(history, commands[i]));
            assert(unrecorded(history, commands).contains(commands[i]));
        }
    }
    lemma_recorded_markers_hide_frontier::<W>(
        replay_start::<W>(
            info,
            history,
            W::started(history[0]->WorkflowStarted_input)->Ok_0,
        ),
        outcomes(history),
        0,
    );
}

/// The sequence numbers of a list of commands.
pub open spec fn numbers(commands: Seq<CommandView>) -> Set<u64> {
    Set::new(
        |seq: u64| exists|i: int|
            0 <= i < commands.len() && (#[trigger] commands[i]).seq() == Some(seq),
    )
}

/// Whether a history holds what its workflow did, and no command more.
pub open spec fn settled<W: Definition>(info: InfoView, history: Seq<EventView>) -> bool {
    &&& replay::<W>(info, history) is Ok
    &&& unrecorded(history, replay::<W>(info, history)->Ok_0.commands).len() == 0
    &&& recorded(history).dom() == numbers(replay::<W>(info, history)->Ok_0.commands)
}

/// The first turn of a run never diverges, and settles its history where it stands.
pub proof fn first_turn_settles<W: Definition>(info: InfoView, input: Seq<u8>)
    requires
        comes_to_rest::<W>(),
        well_behaved::<W>(),
        W::started(input) is Ok,
    ensures
        ({
            let history = seq![EventView::WorkflowStarted { input }];
            &&& replay::<W>(info, history) is Ok
            &&& turn_stands::<W>(info, history) ==> settled::<W>(
                info,
                after_turn::<W>(info, history),
            )
        }),
{
    let history = seq![EventView::WorkflowStarted { input }];
    assert(history.drop_last() =~= Seq::empty());
    assert(recorded(history) =~= Map::empty()) by {
        reveal_with_fuel(recorded, 2);
    }
    let state = W::started(input)->Ok_0;
    let outcome = drive::<W>(replay_start::<W>(info, history, state), outcomes(history), 0);
    lemma_no_divergence(recorded(history), outcome.commands);
    if turn_stands::<W>(info, history) {
        standing_turn_adds_nothing::<W>(info, history);
        assert(recorded(history).dom().union(numbers(outcome.commands)) =~= numbers(
            outcome.commands,
        ));
    }
}

/// A run that is driven on from a settled history by whatever comes in never
/// diverges, keeps the commands it has, and its next turn settles the history
/// again where it stands. This leaves out what [`more_history_only_adds`] leaves out.
pub proof fn next_turn_settles<W: Definition>(
    info: InfoView,
    history: Seq<EventView>,
    more: Seq<EventView>,
)
    requires
        comes_to_rest::<W>(),
        well_behaved::<W>(),
        settled::<W>(info, history),
        forall|i: int| 0 <= i < more.len() ==> (#[trigger] more[i]).is_outcome(),
        frontier_is_indifferent::<W>(
            replay_start::<W>(
                info,
                history,
                W::started(history[0]->WorkflowStarted_input)->Ok_0,
            ),
            outcomes(history),
            0,
        ),
    ensures
        replay::<W>(info, history + more) is Ok,
        replay::<W>(info, history)->Ok_0.commands.is_prefix_of(
            replay::<W>(info, history + more)->Ok_0.commands,
        ),
        turn_stands::<W>(info, history + more) ==> settled::<W>(
            info,
            after_turn::<W>(info, history + more),
        ),
{
    let full = history + more;
    let state = W::started(history[0]->WorkflowStarted_input)->Ok_0;
    let start = replay_start::<W>(info, history, state);
    assert(full[0] == history[0]);
    assert(markers(full) =~= markers(history)) by {
        assert forall|id: Seq<char>| #[trigger] markers(full).contains(id) == markers(
            history,
        ).contains(id) by {
            let p = EventView::Patched { change_id: id };
            if full.contains(p) {
                let k = choose|k: int| 0 <= k < full.len() && full[k] == p;
                if k >= history.len() {
                    assert(more[k - history.len()].is_outcome());
                } else {
                    assert(history[k] == p);
                }
            }
            if history.contains(p) {
                let k = choose|k: int| 0 <= k < history.len() && history[k] == p;
                assert(full[k] == p);
            }
        }
    }
    lemma_recorded_of_both(history, more);
    lemma_outcomes_record_nothing(more);
    assert(recorded(full) =~= recorded(history));
    lemma_outcomes_of_both(history, more);
    lemma_drive_extends::<W>(start, outcomes(history), outcomes(more), 0);
    let old_commands = drive::<W>(start, outcomes(history), 0).commands;
    let commands = drive::<W>(start, outcomes(full), 0).commands;
    lemma_drive_once::<W>(start, outcomes(full), 0);
    lemma_no_divergence(recorded(history), old_commands);
    lemma_no_divergence(recorded(full), commands);
    assert forall|i: int| 0 <= i < commands.len() implies mismatch(
        recorded(full),
        #[trigger] commands[i],
    ) is None by {
        if i < old_commands.len() {
            assert(commands[i] == old_commands[i]);
        } else if commands[i].seq() is Some {
            let seq = commands[i].seq()->0;
            if recorded(full).contains_key(seq) {
                assert(recorded(history).dom().contains(seq));
                assert(numbers(old_commands).contains(seq));
                let j = choose|j: int|
                    0 <= j < old_commands.len() && (#[trigger] old_commands[j]).seq() == Some(seq);
                assert(commands[j] == old_commands[j]);
                assert(keys(commands)[j] != keys(commands)[i]);
                assert(false);
            }
        }
    }
    assert(replay::<W>(info, full) is Ok);
    if turn_stands::<W>(info, full) {
        standing_turn_adds_nothing::<W>(info, full);
        assert(recorded(full).dom().union(numbers(commands)) =~= numbers(commands)) by {
            assert forall|seq: u64| recorded(full).dom().contains(seq) implies numbers(
                commands,
            ).contains(seq) by {
                assert(numbers(old_commands).contains(seq));
                let j = choose|j: int|
                    0 <= j < old_commands.len() && (#[trigger] old_commands[j]).seq() == Some(seq);
                assert(commands[j].seq() == Some(seq));
            }
        }
    }
}

proof fn lemma_outcomes_record_nothing(more: Seq<EventView>)
    requires
        forall|i: int| 0 <= i < more.len() ==> (#[trigger] more[i]).is_outcome(),
    ensures
        recorded(more) == Map::<u64, Recorded>::empty(),
    decreases more.len(),
{
    if more.len() > 0 {
        assert(more.last() == more[more.len() - 1]);
        assert(more.last().is_outcome());
        assert forall|i: int| 0 <= i < more.drop_last().len() implies (
        #[trigger] more.drop_last()[i]).is_outcome() by {
            assert(more.drop_last()[i] == more[i]);
        }
        lemma_outcomes_record_nothing(more.drop_last());
    }
}

/// The inbox after payloads have arrived under one name, in that order.
pub open spec fn all_arrived(
    inbox: Map<Seq<char>, Seq<Seq<u8>>>,
    name: Seq<char>,
    payloads: Seq<Seq<u8>>,
) -> Map<Seq<char>, Seq<Seq<u8>>>
    decreases payloads.len(),
{
    if payloads.len() == 0 {
        inbox
    } else {
        arrived(all_arrived(inbox, name, payloads.drop_last()), name, payloads.last())
    }
}

/// The inbox after `n` receives under one name.
pub open spec fn all_received(
    inbox: Map<Seq<char>, Seq<Seq<u8>>>,
    name: Seq<char>,
    n: nat,
) -> Map<Seq<char>, Seq<Seq<u8>>>
    decreases n,
{
    if n == 0 {
        inbox
    } else {
        received(all_received(inbox, name, (n - 1) as nat), name)
    }
}

/// The nth receive under a name gets the nth signal that arrived under it.
pub proof fn signals_come_in_order(name: Seq<char>, payloads: Seq<Seq<u8>>, n: nat)
    requires
        n < payloads.len(),
    ensures
        buffered(
            all_received(all_arrived(Map::empty(), name, payloads), name, n),
            name,
        ) == payloads.skip(n as int),
        buffered(
            all_received(all_arrived(Map::empty(), name, payloads), name, n),
            name,
        )[0] == payloads[n as int],
{
    lemma_arrivals_pile_up(name, payloads);
    lemma_receives_take_off(all_arrived(Map::empty(), name, payloads), name, n);
}

proof fn lemma_arrivals_pile_up(name: Seq<char>, payloads: Seq<Seq<u8>>)
    ensures
        buffered(all_arrived(Map::empty(), name, payloads), name) == payloads,
    decreases payloads.len(),
{
    if payloads.len() > 0 {
        lemma_arrivals_pile_up(name, payloads.drop_last());
        assert(payloads.drop_last().push(payloads.last()) =~= payloads);
    } else {
        assert(payloads =~= Seq::empty());
    }
}

proof fn lemma_receives_take_off(
    inbox: Map<Seq<char>, Seq<Seq<u8>>>,
    name: Seq<char>,
    n: nat,
)
    requires
        n <= buffered(inbox, name).len(),
    ensures
        buffered(all_received(inbox, name, n), name) == buffered(inbox, name).skip(n as int),
    decreases n,
{
    let held = buffered(inbox, name);
    if n == 0 {
        assert(held.skip(0) =~= held);
    } else {
        lemma_receives_take_off(inbox, name, (n - 1) as nat);
        assert(held.skip(n - 1).drop_first() =~= held.skip(n as int));
    }
}

} // verus!
