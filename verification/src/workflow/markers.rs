//! What recording the change markers that a turn asked for does to the turn.
use crate::workflow::command::CommandView;
use crate::workflow::context::ContextView;
use crate::workflow::def::{comes_to_rest, well_behaved, Definition};
use crate::workflow::event::EventView;
use crate::workflow::laws::{
    flagged, frontier_is_indifferent, lemma_branches_lead, lemma_taking_up_leads, marked, resumed, turns_lead,
};
use crate::workflow::life::{keys, leads_on, CommandKey};
use crate::workflow::replay::drive;
use crate::workflow::state::{
    branches_polled, lemma_round_pays, progressed, turn, turn_measure, RunView,
};
use vstd::prelude::*;

verus! {

/// The commands of a list that are no change markers, in their order.
pub open spec fn without_markers(commands: Seq<CommandView>) -> Seq<CommandView>
    decreases commands.len(),
{
    if commands.len() == 0 {
        Seq::empty()
    } else {
        let before = without_markers(commands.drop_last());
        if commands.last() is RecordPatch {
            before
        } else {
            before.push(commands.last())
        }
    }
}

pub proof fn lemma_without_markers_of_both(first: Seq<CommandView>, second: Seq<CommandView>)
    ensures
        without_markers(first + second) == without_markers(first) + without_markers(second),
    decreases second.len(),
{
    if second.len() == 0 {
        assert(first + second =~= first);
        assert(without_markers(first) + without_markers(second) =~= without_markers(first));
    } else {
        assert((first + second).drop_last() =~= first + second.drop_last());
        lemma_without_markers_of_both(first, second.drop_last());
        assert(without_markers(first + second) =~= without_markers(first) + without_markers(
            second,
        ));
    }
}

/// A list without change markers stays as it is.
pub proof fn lemma_nothing_to_leave_out(commands: Seq<CommandView>)
    requires
        forall|i: int| 0 <= i < commands.len() ==> !((#[trigger] commands[i]) is RecordPatch),
    ensures
        without_markers(commands) == commands,
    decreases commands.len(),
{
    if commands.len() > 0 {
        let before = commands.drop_last();
        assert(!(commands[commands.len() - 1] is RecordPatch));
        assert forall|i: int| 0 <= i < before.len() implies !((
        #[trigger] before[i]) is RecordPatch) by {
            assert(before[i] == commands[i]);
        }
        lemma_nothing_to_leave_out(before);
        assert(before.push(commands.last()) =~= commands);
    } else {
        assert(commands =~= Seq::empty());
    }
}

/// What is left when the change markers are left out comes from the list, and no
/// other command is missing.
pub proof fn lemma_left_in(commands: Seq<CommandView>)
    ensures
        forall|i: int|
            0 <= i < without_markers(commands).len() ==> commands.contains(
                #[trigger] without_markers(commands)[i],
            ) && !(without_markers(commands)[i] is RecordPatch),
        forall|i: int|
            0 <= i < commands.len() && !((#[trigger] commands[i]) is RecordPatch)
                ==> without_markers(commands).contains(commands[i]),
    decreases commands.len(),
{
    if commands.len() > 0 {
        let before = commands.drop_last();
        let last = commands.len() - 1;
        let a = without_markers(before);
        let b = without_markers(commands);
        lemma_left_in(before);
        assert forall|i: int| 0 <= i < b.len() implies commands.contains(#[trigger] b[i]) && !(
        b[i] is RecordPatch) by {
            if i < a.len() {
                assert(a[i] == b[i]);
                let j = choose|j: int| 0 <= j < before.len() && before[j] == a[i];
                assert(commands[j] == b[i]);
            } else {
                assert(commands[last] == b[i]);
            }
        }
        assert forall|i: int|
            0 <= i < commands.len() && !((#[trigger] commands[i]) is RecordPatch) implies b.contains(
            commands[i],
        ) by {
            if i < last {
                assert(before[i] == commands[i]);
                let j = choose|j: int| 0 <= j < a.len() && a[j] == before[i];
                assert(b[j] == commands[i]);
            } else {
                assert(b[b.len() - 1] == commands[i]);
            }
        }
    }
}

/// Whether `told` is `asked` at the end of the history, but with change markers
/// recorded: those that are recorded in `asked`, and at least those that have been
/// asked for there. The same has gone out in both, apart from markers.
pub open spec fn is_recorded_form(asked: ContextView, told: ContextView) -> bool {
    &&& !asked.replaying
    &&& told == (ContextView {
        patches: told.patches,
        patches_emitted: told.patches_emitted,
        commands: told.commands,
        ..asked
    })
    &&& asked.patches.subset_of(told.patches)
    &&& asked.patches_emitted.subset_of(told.patches)
    &&& told.commands == without_markers(asked.commands)
}

/// Whether polls look at change markers only by asking whether they are on the changed
/// path: at the end of the history a poll does the same, apart from asking for
/// markers, when the markers that it asks for are recorded already; and where a poll
/// asks for no marker that is not recorded, it does the same with history ahead.
pub open spec fn sees_markers_through_patched<W: Definition>() -> bool {
    &&& forall|state: W::State, asked: ContextView, told: ContextView|
        #![trigger W::polled(state, asked), W::polled(state, told)]
        is_recorded_form(asked, told) && W::polled(state, asked).ctx.patches_emitted.subset_of(
            told.patches,
        ) ==> {
            let step = W::polled(state, asked);
            let other = W::polled(state, told);
            &&& other.state == step.state
            &&& other.out == step.out
            &&& other.ctx.patches == told.patches
            &&& is_recorded_form(step.ctx, other.ctx)
        }
    &&& forall|state: W::State, branch: u64, asked: ContextView, told: ContextView|
        #![trigger W::branch_polled(state, branch, asked), W::branch_polled(state, branch, told)]
        is_recorded_form(asked, told) && W::branch_polled(
            state,
            branch,
            asked,
        ).ctx.patches_emitted.subset_of(told.patches) ==> {
            let step = W::branch_polled(state, branch, asked);
            let other = W::branch_polled(state, branch, told);
            &&& other.state == step.state
            &&& other.out == step.out
            &&& other.ctx.patches == told.patches
            &&& is_recorded_form(step.ctx, other.ctx)
        }
    &&& forall|state: W::State, ctx: ContextView|
        #![trigger W::polled(state, ctx.with_replaying(true))]
        asks_for_nothing_new(ctx, W::polled(state, ctx).ctx) ==> {
            let step = W::polled(state, ctx);
            let other = W::polled(state, ctx.with_replaying(true));
            &&& other.state == step.state
            &&& other.out == step.out
            &&& other.ctx == step.ctx.with_replaying(true)
        }
    &&& forall|state: W::State, branch: u64, ctx: ContextView|
        #![trigger W::branch_polled(state, branch, ctx.with_replaying(true))]
        asks_for_nothing_new(ctx, W::branch_polled(state, branch, ctx).ctx) ==> {
            let step = W::branch_polled(state, branch, ctx);
            let other = W::branch_polled(state, branch, ctx.with_replaying(true));
            &&& other.state == step.state
            &&& other.out == step.out
            &&& other.ctx == step.ctx.with_replaying(true)
        }
}

/// Whether no marker has been asked for on the way from `before` to `after`, at the end
/// of the history, nor earlier in this life.
pub open spec fn asks_for_nothing_new(before: ContextView, after: ContextView) -> bool {
    &&& !before.replaying
    &&& before.patches_emitted == Set::<Seq<char>>::empty()
    &&& after.patches_emitted == Set::<Seq<char>>::empty()
}

/// The run after one round: the body is polled, then each live branch.
pub open spec fn round<W: Definition>(run: RunView<W::State>) -> RunView<W::State> {
    branches_polled::<W>(run.joined(W::polled(run.state, run.ctx)), 0)
}

/// Whether a round does nothing, or nothing but ask for change markers.
pub open spec fn moves_markers_alone<W: Definition>(run: RunView<W::State>) -> bool {
    let step = W::polled(run.state, run.ctx);
    let joined = run.joined(step);
    let after = round::<W>(run);
    &&& step.out is None
    &&& without_markers(after.ctx.commands).len() <= without_markers(run.ctx.commands).len()
    &&& joined.live.len() <= run.live.len()
    &&& after.live.len() >= joined.live.len()
    &&& after.ctx.new_spawns.len() == 0
}

/// Whether nothing comes of it when a round has done nothing but ask for markers: the
/// next round does no more.
pub open spec fn marker_rounds_lead_nowhere<W: Definition>() -> bool {
    forall|run: RunView<W::State>|
        !run.ctx.replaying && #[trigger] moves_markers_alone::<W>(run) ==> moves_markers_alone::<
            W,
        >(round::<W>(run))
}

/// Whether the turns of a replay before its last come out the same when `patches` are
/// the recorded change markers. So it is if the markers that are new among them are
/// first asked for in the last turn.
pub open spec fn earlier_turns_stand<W: Definition>(
    run: RunView<W::State>,
    stream: Seq<EventView>,
    cursor: nat,
    patches: Set<Seq<char>>,
) -> bool
    decreases stream.len() - cursor,
{
    if cursor < stream.len() {
        let here = flagged(run, true);
        let (rested, output) = turn::<W>(here);
        &&& turn::<W>(here.with_ctx(marked(here.ctx, patches, true))) == (
            rested.with_ctx(marked(rested.ctx, patches, true)),
            output,
        )
        &&& output is None ==> earlier_turns_stand::<W>(
            resumed(rested, stream[cursor as int]),
            stream,
            cursor + 1,
            patches,
        )
    } else {
        true
    }
}

/// What has been asked for stays asked for.
proof fn lemma_asked_stays(a: ContextView, b: ContextView)
    requires
        a.taken_up().leads_to(b.taken_up()),
    ensures
        a.patches_emitted.subset_of(b.patches_emitted),
        a.replaying == b.replaying,
        a.patches == b.patches,
{
    assert forall|id: Seq<char>| a.patches_emitted.contains(id) implies b.patches_emitted.contains(
        id,
    ) by {
        assert(a.taken_up().has_emitted(CommandKey::Marker(id)));
        assert(b.taken_up().has_emitted(CommandKey::Marker(id)));
    }
}

/// Branches do the same with the markers recorded.
proof fn lemma_branches_recorded<W: Definition>(
    asked: RunView<W::State>,
    told: RunView<W::State>,
    i: nat,
)
    requires
        well_behaved::<W>(),
        sees_markers_through_patched::<W>(),
        told.state == asked.state,
        told.live == asked.live,
        is_recorded_form(asked.ctx, told.ctx),
        branches_polled::<W>(asked, i).ctx.patches_emitted.subset_of(told.ctx.patches),
    ensures
        branches_polled::<W>(told, i).state == branches_polled::<W>(asked, i).state,
        branches_polled::<W>(told, i).live == branches_polled::<W>(asked, i).live,
        branches_polled::<W>(told, i).ctx.patches == told.ctx.patches,
        is_recorded_form(branches_polled::<W>(asked, i).ctx, branches_polled::<W>(told, i).ctx),
    decreases asked.live.len() - i,
{
    if i < asked.live.len() {
        let branch = asked.live[i as int];
        let step = W::branch_polled(asked.state, branch, asked.ctx);
        let other = W::branch_polled(told.state, branch, told.ctx);
        let live = if step.out {
            asked.live.remove(i as int)
        } else {
            asked.live
        };
        let j: nat = if step.out {
            i
        } else {
            i + 1
        };
        let next = RunView { state: step.state, ctx: step.ctx, live };
        lemma_branches_lead::<W>(next, j);
        lemma_asked_stays(step.ctx, branches_polled::<W>(next, j).ctx);
        assert(branches_polled::<W>(asked, i) == branches_polled::<W>(next, j));
        assert(step.ctx.patches_emitted.subset_of(told.ctx.patches));
        let next_told = RunView { state: other.state, ctx: other.ctx, live };
        lemma_branches_recorded::<W>(next, next_told, j);
        assert(branches_polled::<W>(told, i) == branches_polled::<W>(next_told, j));
    }
}

/// A turn that goes on from a round that moved markers alone moves markers alone.
proof fn lemma_idle_turn<W: Definition>(run: RunView<W::State>)
    requires
        comes_to_rest::<W>(),
        well_behaved::<W>(),
        marker_rounds_lead_nowhere::<W>(),
        !run.ctx.replaying,
        moves_markers_alone::<W>(run),
    ensures
        turn::<W>(run).1 is None,
        without_markers(turn::<W>(run).0.ctx.commands) == without_markers(run.ctx.commands),
    decreases turn_measure::<W>(run),
{
    let step = W::polled(run.state, run.ctx);
    let joined = run.joined(step);
    let after = round::<W>(run);
    lemma_round_leads::<W>(run);
    let new = run.ctx.taken_up().new_commands(after.ctx.taken_up());
    assert(after.ctx.commands == run.ctx.commands + new);
    lemma_without_markers_of_both(run.ctx.commands, new);
    assert(without_markers(new).len() == 0);
    assert(without_markers(after.ctx.commands) =~= without_markers(run.ctx.commands));
    if progressed(run, joined, after) {
        lemma_round_pays::<W>(run);
        lemma_asked_stays(run.ctx, after.ctx);
        lemma_idle_turn::<W>(after);
    }
}

/// A round does to the context what polls may do, apart from taking up branches.
proof fn lemma_round_leads<W: Definition>(run: RunView<W::State>)
    requires
        well_behaved::<W>(),
    ensures
        run.ctx.taken_up().leads_to(W::polled(run.state, run.ctx).ctx.taken_up()),
        W::polled(run.state, run.ctx).ctx.taken_up().leads_to(round::<W>(run).ctx.taken_up()),
        run.ctx.taken_up().leads_to(round::<W>(run).ctx.taken_up()),
{
    let step = W::polled(run.state, run.ctx);
    let joined = run.joined(step);
    lemma_taking_up_leads(run.ctx, step.ctx);
    assert(joined.ctx.taken_up() =~= step.ctx.taken_up());
    lemma_branches_lead::<W>(joined, 0);
    leads_on(
        run.ctx.taken_up(),
        step.ctx.taken_up(),
        round::<W>(run).ctx.taken_up(),
    );
}

/// The last turn does the same, apart from asking for markers, with the markers
/// recorded that it asks for.
proof fn lemma_turn_recorded<W: Definition>(asked: RunView<W::State>, told: RunView<W::State>)
    requires
        comes_to_rest::<W>(),
        well_behaved::<W>(),
        sees_markers_through_patched::<W>(),
        marker_rounds_lead_nowhere::<W>(),
        told.state == asked.state,
        told.live == asked.live,
        is_recorded_form(asked.ctx, told.ctx),
        turn::<W>(asked).0.ctx.patches_emitted.subset_of(told.ctx.patches),
    ensures
        turn::<W>(told).1 == turn::<W>(asked).1,
        turn::<W>(told).0.ctx.commands == without_markers(turn::<W>(asked).0.ctx.commands),
    decreases turn_measure::<W>(asked),
{
    let step = W::polled(asked.state, asked.ctx);
    let other = W::polled(told.state, told.ctx);
    let joined = asked.joined(step);
    let after = round::<W>(asked);
    lemma_round_leads::<W>(asked);
    lemma_asked_stays(step.ctx, after.ctx);
    if step.out is None {
        if progressed(asked, joined, after) {
            turns_lead::<W>(after);
            lemma_asked_stays(after.ctx, turn::<W>(after).0.ctx);
        }
        assert(after.ctx.patches_emitted.subset_of(told.ctx.patches));
        assert(step.ctx.patches_emitted.subset_of(told.ctx.patches));
        let joined_told = told.joined(other);
        let after_told = round::<W>(told);
        assert(is_recorded_form(joined.ctx, joined_told.ctx));
        lemma_branches_recorded::<W>(joined, joined_told, 0);
        let new = asked.ctx.taken_up().new_commands(after.ctx.taken_up());
        assert(after.ctx.commands == asked.ctx.commands + new);
        lemma_without_markers_of_both(asked.ctx.commands, new);
        if progressed(told, joined_told, after_told) {
            assert(without_markers(new).len() > 0 ==> new.len() > 0);
            assert(progressed(asked, joined, after));
            lemma_round_pays::<W>(asked);
            lemma_turn_recorded::<W>(after, after_told);
        } else {
            assert(turn::<W>(told) == (after_told, None::<Result<Seq<u8>, Seq<char>>>));
            if progressed(asked, joined, after) {
                assert(without_markers(new).len() == 0);
                assert(moves_markers_alone::<W>(asked));
                lemma_asked_stays(asked.ctx, after.ctx);
                lemma_idle_turn::<W>(after);
            }
        }
    }
}

/// What a workflow does when it is driven with the markers recorded that it asks for:
/// the same, apart from asking for them.
pub proof fn lemma_drive_recorded<W: Definition>(
    run: RunView<W::State>,
    stream: Seq<EventView>,
    cursor: nat,
    patches: Set<Seq<char>>,
)
    requires
        comes_to_rest::<W>(),
        well_behaved::<W>(),
        sees_markers_through_patched::<W>(),
        marker_rounds_lead_nowhere::<W>(),
        earlier_turns_stand::<W>(run, stream, cursor, patches),
        run.ctx.commands.len() == 0,
        run.ctx.patches_emitted == Set::<Seq<char>>::empty(),
        run.ctx.patches.subset_of(patches),
        forall|i: int|
            0 <= i < drive::<W>(run, stream, cursor).commands.len() && (#[trigger] drive::<W>(
                run,
                stream,
                cursor,
            ).commands[i]) is RecordPatch ==> patches.contains(
                drive::<W>(run, stream, cursor).commands[i]->change_id,
            ),
    ensures
        drive::<W>(
            run.with_ctx(marked(run.ctx, patches, run.ctx.replaying)),
            stream,
            cursor,
        ).commands == without_markers(drive::<W>(run, stream, cursor).commands),
        drive::<W>(
            run.with_ctx(marked(run.ctx, patches, run.ctx.replaying)),
            stream,
            cursor,
        ).completion == drive::<W>(run, stream, cursor).completion,
    decreases stream.len() - cursor,
{
    let b = cursor < stream.len();
    let here = flagged(run, b);
    let told = run.with_ctx(marked(run.ctx, patches, run.ctx.replaying));
    let there = flagged(told, b);
    let whole = drive::<W>(run, stream, cursor);
    let (rested, output) = turn::<W>(here);
    assert(there == here.with_ctx(marked(here.ctx, patches, b)));
    turns_lead::<W>(here);
    let before = here.ctx.taken_up();
    let after = rested.ctx.taken_up();
    let now = rested.ctx.commands;
    assert(before.new_commands(after) =~= now);
    if b {
        lemma_nothing_to_leave_out(now);
        if output is None {
            let next = resumed(rested, stream[cursor as int]);
            let rest = drive::<W>(next, stream, cursor + 1);
            assert(whole.commands == now + rest.commands);
            assert(next.ctx.patches_emitted =~= Set::<Seq<char>>::empty()) by {
                assert forall|id: Seq<char>| !next.ctx.patches_emitted.contains(id) by {
                    if rested.ctx.patches_emitted.contains(id) {
                        let k = CommandKey::Marker(id);
                        assert(after.has_emitted(k));
                        assert(!before.has_emitted(k));
                        assert(keys(now).contains(k));
                        let i = choose|i: int| 0 <= i < keys(now).len() && keys(now)[i] == k;
                        assert(now[i] is RecordPatch);
                    }
                }
            }
            assert forall|i: int|
                0 <= i < rest.commands.len() && (
                #[trigger] rest.commands[i]) is RecordPatch implies patches.contains(
                rest.commands[i]->change_id,
            ) by {
                assert(whole.commands[now.len() + i] == rest.commands[i]);
            }
            lemma_asked_stays(here.ctx, rested.ctx);
            lemma_drive_recorded::<W>(next, stream, cursor + 1, patches);
            let next_told = resumed(
                rested.with_ctx(marked(rested.ctx, patches, true)),
                stream[cursor as int],
            );
            assert(next_told == next.with_ctx(marked(next.ctx, patches, next.ctx.replaying)));
            lemma_without_markers_of_both(now, rest.commands);
        }
    } else {
        assert(whole.commands == now);
        assert(rested.ctx.patches_emitted.subset_of(patches)) by {
            assert forall|id: Seq<char>| rested.ctx.patches_emitted.contains(
                id,
            ) implies patches.contains(id) by {
                let k = CommandKey::Marker(id);
                assert(after.has_emitted(k));
                assert(!before.has_emitted(k));
                assert(keys(now).contains(k));
                let i = choose|i: int| 0 <= i < keys(now).len() && keys(now)[i] == k;
                assert(now[i] is RecordPatch);
                assert(whole.commands[i]->change_id == id);
            }
        }
        assert(without_markers(here.ctx.commands) =~= there.ctx.commands);
        lemma_turn_recorded::<W>(here, there);
    }
}

proof fn lemma_branches_hide_frontier<W: Definition>(run: RunView<W::State>, i: nat)
    requires
        well_behaved::<W>(),
        sees_markers_through_patched::<W>(),
        asks_for_nothing_new(run.ctx, branches_polled::<W>(run, i).ctx),
    ensures
        branches_polled::<W>(flagged(run, true), i) == flagged(
            branches_polled::<W>(run, i),
            true,
        ),
    decreases run.live.len() - i,
{
    if i < run.live.len() {
        let branch = run.live[i as int];
        let step = W::branch_polled(run.state, branch, run.ctx);
        let other = W::branch_polled(run.state, branch, run.ctx.with_replaying(true));
        let live = if step.out {
            run.live.remove(i as int)
        } else {
            run.live
        };
        let j: nat = if step.out {
            i
        } else {
            i + 1
        };
        let next = RunView { state: step.state, ctx: step.ctx, live };
        assert(branches_polled::<W>(run, i) == branches_polled::<W>(next, j));
        lemma_branches_lead::<W>(next, j);
        lemma_asked_stays(step.ctx, branches_polled::<W>(next, j).ctx);
        assert(step.ctx.patches_emitted =~= Set::<Seq<char>>::empty());
        assert(run.ctx.leads_to(step.ctx));
        lemma_branches_hide_frontier::<W>(next, j);
        assert(branches_polled::<W>(flagged(run, true), i) == branches_polled::<W>(
            flagged(next, true),
            j,
        ));
    }
}

proof fn lemma_turn_hides_frontier<W: Definition>(run: RunView<W::State>)
    requires
        comes_to_rest::<W>(),
        well_behaved::<W>(),
        sees_markers_through_patched::<W>(),
        asks_for_nothing_new(run.ctx, turn::<W>(run).0.ctx),
    ensures
        turn::<W>(flagged(run, true)) == (flagged(turn::<W>(run).0, true), turn::<W>(run).1),
    decreases turn_measure::<W>(run),
{
    let step = W::polled(run.state, run.ctx);
    let other = W::polled(run.state, run.ctx.with_replaying(true));
    let joined = run.joined(step);
    let after = round::<W>(run);
    lemma_round_leads::<W>(run);
    lemma_asked_stays(run.ctx, step.ctx);
    lemma_asked_stays(step.ctx, after.ctx);
    if step.out is None {
        if progressed(run, joined, after) {
            turns_lead::<W>(after);
            lemma_asked_stays(after.ctx, turn::<W>(after).0.ctx);
        }
        assert(after.ctx.patches_emitted =~= Set::<Seq<char>>::empty());
        assert(step.ctx.patches_emitted =~= Set::<Seq<char>>::empty());
        assert(flagged(run, true).joined(other) == flagged(joined, true));
        lemma_branches_hide_frontier::<W>(joined, 0);
        if progressed(run, joined, after) {
            lemma_round_pays::<W>(run);
            lemma_turn_hides_frontier::<W>(after);
        }
    }
}

/// A replay that asks for no marker that is not recorded does not see, in its last
/// turn, whether more history follows.
pub proof fn lemma_recorded_markers_hide_frontier<W: Definition>(
    run: RunView<W::State>,
    stream: Seq<EventView>,
    cursor: nat,
)
    requires
        comes_to_rest::<W>(),
        well_behaved::<W>(),
        sees_markers_through_patched::<W>(),
        run.ctx.commands.len() == 0,
        run.ctx.patches_emitted == Set::<Seq<char>>::empty(),
        forall|i: int|
            0 <= i < drive::<W>(run, stream, cursor).commands.len() ==> !((#[trigger] drive::<W>(
                run,
                stream,
                cursor,
            ).commands[i]) is RecordPatch),
    ensures
        frontier_is_indifferent::<W>(run, stream, cursor),
    decreases stream.len() - cursor,
{
    let b = cursor < stream.len();
    let here = flagged(run, b);
    let whole = drive::<W>(run, stream, cursor);
    let (rested, output) = turn::<W>(here);
    turns_lead::<W>(here);
    let before = here.ctx.taken_up();
    let after = rested.ctx.taken_up();
    let now = rested.ctx.commands;
    assert(before.new_commands(after) =~= now);
    assert forall|i: int| 0 <= i < now.len() implies !((#[trigger] now[i]) is RecordPatch) by {
        assert(whole.commands[i] == now[i]);
    }
    assert(rested.ctx.patches_emitted =~= Set::<Seq<char>>::empty()) by {
        assert forall|id: Seq<char>| !rested.ctx.patches_emitted.contains(id) by {
            if rested.ctx.patches_emitted.contains(id) {
                let k = CommandKey::Marker(id);
                assert(after.has_emitted(k));
                assert(!before.has_emitted(k));
                assert(keys(now).contains(k));
                let i = choose|i: int| 0 <= i < keys(now).len() && keys(now)[i] == k;
                assert(now[i] is RecordPatch);
            }
        }
    }
    if b {
        if output is None {
            let next = resumed(rested, stream[cursor as int]);
            let rest = drive::<W>(next, stream, cursor + 1);
            assert(whole.commands == now + rest.commands);
            assert forall|i: int| 0 <= i < rest.commands.len() implies !((
            #[trigger] rest.commands[i]) is RecordPatch) by {
                assert(whole.commands[now.len() + i] == rest.commands[i]);
            }
            lemma_recorded_markers_hide_frontier::<W>(next, stream, cursor + 1);
        }
    } else {
        lemma_turn_hides_frontier::<W>(here);
        assert(flagged(here, true) == flagged(run, true));
    }
}

} // verus!
