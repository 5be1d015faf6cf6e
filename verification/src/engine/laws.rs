//! What holds of every turn.
use crate::engine::drive::{announced, turned, AnswerView, AskView, TurnView};
use crate::engine::plan::{
    child_id, children, dead_letter_commit, deadline, planned, tasks, timers, verdict,
};
use crate::engine::registry::EngineView;
use crate::engine::types::{NewActivityTaskView, NewTimer, RunMetaView};
use crate::store::history::turn_writes;
use crate::store::model::{ids_are_new, notice, turn_commits_at_once, Db};
use crate::text::{decimal, digit_char};
use crate::workflow::command::CommandView;
use crate::workflow::def::{comes_to_rest, well_behaved, Definition};
use crate::workflow::event::EventView;
use crate::workflow::info::InfoView;
use crate::workflow::laws::{
    after_turn, frontier_is_indifferent, next_turn_settles, settled, standing_turn_adds_nothing,
    turn_stands,
};
use crate::workflow::markers::without_markers;
use crate::workflow::replay::{outcomes, replay, replay_start, ReplayOutcomeView};
use vstd::prelude::*;

verus! {

/// A turn stores a result if, and only if, it ends the run; and a run that ends tells
/// its parent, if it has one.
pub proof fn end_comes_with_result_and_notice(
    workflow_id: Seq<char>,
    parent_run_id: Option<Seq<char>>,
    parent_seq: Option<i64>,
    history: Seq<EventView>,
    outcome: ReplayOutcomeView,
    now: i64,
    ids: Seq<Seq<char>>,
)
    ensures
        ({
            let commit = planned(
                workflow_id,
                parent_run_id,
                parent_seq,
                history,
                outcome,
                now,
                ids,
            );
            &&& commit.result is Some <==> commit.status.terminal()
            &&& commit.parent_notify is Some <==> commit.status.terminal() && parent_run_id is Some
                && parent_seq is Some
        }),
{
}

/// A run that cannot go on ends like any other: with a result, and telling its
/// parent that it failed.
pub proof fn dead_letter_is_an_end(
    parent_run_id: Option<Seq<char>>,
    parent_seq: Option<i64>,
    message: Seq<char>,
)
    ensures
        ({
            let commit = dead_letter_commit(parent_run_id, parent_seq, message);
            &&& commit.status.terminal()
            &&& commit.result is Some
            &&& commit.events.len() == 0
            &&& (parent_run_id is Some && parent_seq is Some) ==> {
                &&& commit.parent_notify is Some
                &&& commit.parent_notify->0.parent_run_id == parent_run_id->0
                &&& commit.parent_notify->0.event == (EventView::ChildCompleted {
                    seq: parent_seq->0 as u64,
                    result: Err(message),
                })
            }
        }),
{
}

/// An end is announced with the commit that makes it, with that commit's standing
/// and result, and once: nothing is announced of a run that goes on or that was over
/// before.
pub proof fn ends_are_announced_once(
    engine: EngineView,
    turn: TurnView,
    answer: AnswerView,
    ids: Seq<Seq<char>>,
)
    ensures
        ({
            let (next, ask) = turned(engine, turn, answer, ids);
            &&& next matches TurnView::Committing { announcement: Some(a) } ==> {
                &&& ask matches AskView::Commit { commit, .. } && commit.status.terminal()
                    && a.status == commit.status && a.result == commit.result
                &&& engine.observed
                &&& !(turn is Settling)
            }
            &&& ask matches AskView::Announce { announcement } ==> turn == (
            TurnView::Committing { announcement: Some(announcement) })
        }),
{
}

/// Every command that a turn records gets the work it asks for, and the work is
/// that of the command.
pub proof fn commands_get_their_work(
    new: Seq<CommandView>,
    workflow_id: Seq<char>,
    now: i64,
    ids: Seq<Seq<char>>,
)
    ensures
        forall|i: int|
            0 <= i < new.len() ==> match #[trigger] new[i] {
                CommandView::ScheduleActivity { seq, activity_type, input, .. } => tasks(
                    new,
                ).contains(
                    NewActivityTaskView { seq: seq as i64, activity_type, input, next_run_at: 0 },
                ),
                CommandView::StartTimer { seq, duration_ms } => timers(new, now).contains(
                    NewTimer { seq: seq as i64, fire_at: deadline(now, duration_ms) },
                ),
                CommandView::StartChild { seq, workflow_type, input } => exists|j: int|
                    0 <= j < children(new, workflow_id, ids).len() && {
                        let child = #[trigger] children(new, workflow_id, ids)[j];
                        &&& child.seq == seq as i64
                        &&& child.child_run_id == ids[j]
                        &&& child.child_workflow_id == child_id(workflow_id, seq)
                        &&& child.workflow_type == workflow_type
                        &&& child.input == input
                    },
                CommandView::RecordPatch { .. } => true,
            },
    decreases new.len(),
{
    if new.len() > 0 {
        let before = new.drop_last();
        let last = new.len() - 1;
        commands_get_their_work(before, workflow_id, now, ids);
        assert forall|i: int| 0 <= i < new.len() implies match #[trigger] new[i] {
            CommandView::ScheduleActivity { seq, activity_type, input, .. } => tasks(new).contains(
                NewActivityTaskView { seq: seq as i64, activity_type, input, next_run_at: 0 },
            ),
            CommandView::StartTimer { seq, duration_ms } => timers(new, now).contains(
                NewTimer { seq: seq as i64, fire_at: deadline(now, duration_ms) },
            ),
            CommandView::StartChild { seq, workflow_type, input } => exists|j: int|
                0 <= j < children(new, workflow_id, ids).len() && {
                    let child = #[trigger] children(new, workflow_id, ids)[j];
                    &&& child.seq == seq as i64
                    &&& child.child_run_id == ids[j]
                    &&& child.child_workflow_id == child_id(workflow_id, seq)
                    &&& child.workflow_type == workflow_type
                    &&& child.input == input
                },
            CommandView::RecordPatch { .. } => true,
        } by {
            let t = tasks(before);
            let m = timers(before, now);
            let c = children(before, workflow_id, ids);
            if i < last {
                assert(before[i] == new[i]);
                match new[i] {
                    CommandView::ScheduleActivity { seq, activity_type, input, .. } => {
                        let task = NewActivityTaskView {
                            seq: seq as i64,
                            activity_type,
                            input,
                            next_run_at: 0,
                        };
                        let k = choose|k: int| 0 <= k < t.len() && t[k] == task;
                        assert(tasks(new)[k] == task);
                    },
                    CommandView::StartTimer { seq, duration_ms } => {
                        let timer = NewTimer {
                            seq: seq as i64,
                            fire_at: deadline(now, duration_ms),
                        };
                        let k = choose|k: int| 0 <= k < m.len() && m[k] == timer;
                        assert(timers(new, now)[k] == timer);
                    },
                    CommandView::StartChild { seq, workflow_type, input } => {
                        let k = choose|k: int|
                            0 <= k < c.len() && {
                                let child = #[trigger] c[k];
                                &&& child.seq == seq as i64
                                &&& child.child_run_id == ids[k]
                                &&& child.child_workflow_id == child_id(workflow_id, seq)
                                &&& child.workflow_type == workflow_type
                                &&& child.input == input
                            };
                        assert(children(new, workflow_id, ids)[k] == c[k]);
                    },
                    CommandView::RecordPatch { .. } => {},
                }
            } else {
                match new[i] {
                    CommandView::ScheduleActivity { .. } => {
                        assert(tasks(new)[t.len() as int] == tasks(new).last());
                    },
                    CommandView::StartTimer { .. } => {
                        assert(timers(new, now)[m.len() as int] == timers(new, now).last());
                    },
                    CommandView::StartChild { .. } => {
                        assert(children(new, workflow_id, ids)[c.len() as int] == children(
                            new,
                            workflow_id,
                            ids,
                        ).last());
                    },
                    CommandView::RecordPatch { .. } => {},
                }
            }
        }
    }
}

proof fn lemma_numerals_differ(a: nat, b: nat)
    requires
        a != b,
    ensures
        decimal(a) != decimal(b),
    decreases a,
{
    if decimal(a) == decimal(b) {
        assert(decimal(a).last() == digit_char(a % 10));
        assert(decimal(b).last() == digit_char(b % 10));
        assert((48 + a % 10) as char as int == 48 + a % 10);
        assert((48 + b % 10) as char as int == 48 + b % 10);
        if a >= 10 && b >= 10 {
            lemma_numerals_differ(a / 10, b / 10);
            assert(decimal(a).drop_last() =~= decimal(a / 10));
            assert(decimal(b).drop_last() =~= decimal(b / 10));
        } else if a >= 10 {
            assert(decimal(a).len() == decimal(a / 10).len() + 1);
            lemma_numeral_is_not_empty(a / 10);
        } else if b >= 10 {
            assert(decimal(b).len() == decimal(b / 10).len() + 1);
            lemma_numeral_is_not_empty(b / 10);
        }
    }
}

proof fn lemma_numeral_is_not_empty(n: nat)
    ensures
        decimal(n).len() > 0,
{
}

/// The children that a run starts under different numbers have different workflow
/// ids.
pub proof fn children_have_ids_of_their_own(workflow_id: Seq<char>, a: u64, b: u64)
    requires
        a != b,
    ensures
        child_id(workflow_id, a) != child_id(workflow_id, b),
{
    lemma_numerals_differ(a as nat, b as nat);
    let before = workflow_id + "::child::"@;
    if child_id(workflow_id, a) == child_id(workflow_id, b) {
        assert(child_id(workflow_id, a).skip(before.len() as int) =~= decimal(a as nat));
        assert(child_id(workflow_id, b).skip(before.len() as int) =~= decimal(b as nat));
    }
}

/// A turn that is taken again after its commit commits nothing new: no event, no
/// task, no timer, no child. It leaves the run where it stood. This leaves out a turn
/// that asks for a change marker that was asked for before.
pub proof fn nothing_is_scheduled_twice<W: Definition>(
    info: InfoView,
    history: Seq<EventView>,
    workflow_id: Seq<char>,
    parent_run_id: Option<Seq<char>>,
    parent_seq: Option<i64>,
    now: i64,
    ids: Seq<Seq<char>>,
)
    requires
        comes_to_rest::<W>(),
        well_behaved::<W>(),
        replay::<W>(info, history) is Ok,
        turn_stands::<W>(info, history),
    ensures
        ({
            let full = after_turn::<W>(info, history);
            let commit = planned(
                workflow_id,
                parent_run_id,
                parent_seq,
                full,
                replay::<W>(info, full)->Ok_0,
                now,
                ids,
            );
            &&& replay::<W>(info, full) is Ok
            &&& replay::<W>(info, full)->Ok_0.completion == replay::<W>(
                info,
                history,
            )->Ok_0.completion
            &&& (commit.status, commit.result) == verdict(
                replay::<W>(info, history)->Ok_0.completion,
            )
            &&& commit.events.len() == 0
            &&& commit.new_tasks.len() == 0
            &&& commit.new_timers.len() == 0
            &&& commit.new_children.len() == 0
        }),
{
    standing_turn_adds_nothing::<W>(info, history);
}

/// A run whose history holds what its workflow did stays so: whatever comes in for
/// it, the next turn neither diverges nor loses a command, and when the turn is
/// committed, the history in the store again holds what the workflow did, and a
/// replay of it comes to the standing and the result that the store has. The turn is
/// one that stands when it has been recorded.
///
/// The run ids and the workflow ids of new children are taken to be new to the store,
/// and the parent to be another run. What [`next_turn_settles`] leaves out is left out here.
pub proof fn committed_turns_keep_runs_replayable<W: Definition>(
    info: InfoView,
    db: Db,
    run_id: Seq<char>,
    before: Seq<EventView>,
    more: Seq<EventView>,
    meta: RunMetaView,
    parent_last_event_id: i64,
    now: i64,
    ids: Seq<Seq<char>>,
)
    requires
        comes_to_rest::<W>(),
        well_behaved::<W>(),
        settled::<W>(info, before),
        db.events(run_id) == before + more,
        forall|i: int| 0 <= i < more.len() ==> (#[trigger] more[i]).is_outcome(),
        frontier_is_indifferent::<W>(
            replay_start::<W>(
                info,
                before,
                W::started(before[0]->WorkflowStarted_input)->Ok_0,
            ),
            outcomes(before),
            0,
        ),
        turn_stands::<W>(info, before + more),
        db.executions.contains_key(run_id),
        ({
            let commit = planned(
                meta.workflow_id,
                meta.parent_run_id,
                meta.parent_seq,
                before + more,
                replay::<W>(info, before + more)->Ok_0,
                now,
                ids,
            );
            &&& db.history(run_id).len() + commit.events.len() < i64::MAX
            &&& ids_are_new(db, commit.new_children)
            &&& commit.parent_notify matches Some(notify) ==> {
                &&& notify.parent_run_id != run_id
                &&& db.last_event_id(notify.parent_run_id) == parent_last_event_id
                &&& parent_last_event_id < i64::MAX
            }
        }),
    ensures
        replay::<W>(info, before + more) is Ok,
        ({
            let commit = planned(
                meta.workflow_id,
                meta.parent_run_id,
                meta.parent_seq,
                before + more,
                replay::<W>(info, before + more)->Ok_0,
                now,
                ids,
            );
            let after = db.after_all(
                turn_writes(
                    run_id,
                    commit,
                    db.last_event_id(run_id) as i64,
                    parent_last_event_id,
                    now,
                ),
            );
            &&& settled::<W>(info, after.events(run_id))
            &&& replay::<W>(info, after.events(run_id))->Ok_0 == (ReplayOutcomeView {
                commands: without_markers(replay::<W>(info, before + more)->Ok_0.commands),
                completion: replay::<W>(info, before + more)->Ok_0.completion,
            })
            &&& (after.executions[run_id].status, after.executions[run_id].result) == verdict(
                replay::<W>(info, after.events(run_id))->Ok_0.completion,
            )
        }),
{
    next_turn_settles::<W>(info, before, more);
    let history = before + more;
    standing_turn_adds_nothing::<W>(info, history);
    let commit = planned(
        meta.workflow_id,
        meta.parent_run_id,
        meta.parent_seq,
        history,
        replay::<W>(info, history)->Ok_0,
        now,
        ids,
    );
    turn_commits_at_once(
        db,
        run_id,
        commit,
        db.last_event_id(run_id) as i64,
        parent_last_event_id,
        now,
    );
    assert(history + commit.events + notice(commit, run_id) =~= history + commit.events);
}

} // verus!
