//! What writes come to.
use crate::activity::error::ErrorView;
use crate::engine::types::{
    ExecStatus, NewActivityTaskView, NewChildView, NewTimer, ParentNotifyView, TurnCommitView,
};
use crate::store::history::{
    arrival, birth, child_writes, closing_writes, creation_writes, event_writes, notify_writes,
    place_before_notice, started_run, starts_run, task_writes, timer_writes, turn_writes,
};
use crate::store::queue::{completion_writes, firing_writes, outcome_event};
use crate::store::reads::{is_earliest, is_next_due, times, Waiting};
use crate::store::write::WriteView;
use crate::workflow::event::EventView;
use vstd::prelude::*;

verus! {

/// A run.
pub struct ExecutionRow {
    pub workflow_id: Seq<char>,
    pub workflow_type: Seq<char>,
    pub parent_run_id: Option<Seq<char>>,
    pub parent_seq: Option<i64>,
    pub input: Seq<u8>,
    pub status: ExecStatus,
    pub result: Option<Seq<u8>>,
}

/// An event in its place.
pub struct HistoryRow {
    pub event_id: i64,
    pub event: EventView,
    pub ts: i64,
}

/// Where a task stands.
pub enum TaskStatus {
    Pending,
    Running,
    Done,
}

/// A task.
pub struct TaskRow {
    pub activity_type: Seq<char>,
    pub input: Seq<u8>,
    pub attempt: i64,
    pub next_run_at: i64,
    pub status: TaskStatus,
    pub lease_expires_at: Option<i64>,
}

/// What a store holds.
#[verifier::ext_equal]
pub struct Db {
    /// Runs, by id.
    pub executions: Map<Seq<char>, ExecutionRow>,
    /// Histories, by run.
    pub histories: Map<Seq<char>, Seq<HistoryRow>>,
    /// Tasks, by run and number.
    pub tasks: Map<(Seq<char>, i64), TaskRow>,
    /// When timers fire, by run and number.
    pub timers: Map<(Seq<char>, i64), i64>,
    /// Runs that have something new, and since when.
    pub runnable: Map<Seq<char>, i64>,
}

impl Db {
    /// The history of a run.
    pub open spec fn history(self, run_id: Seq<char>) -> Seq<HistoryRow> {
        if self.histories.contains_key(run_id) {
            self.histories[run_id]
        } else {
            Seq::empty()
        }
    }

    /// The events of a run.
    pub open spec fn events(self, run_id: Seq<char>) -> Seq<EventView> {
        self.history(run_id).map_values(|row: HistoryRow| row.event)
    }

    /// The last place of a run's history.
    pub open spec fn last_event_id(self, run_id: Seq<char>) -> int {
        self.history(run_id).len() as int
    }

    /// Whether the places of a run's history are counted from 1 without a gap.
    pub open spec fn dense(self, run_id: Seq<char>) -> bool {
        forall|i: int|
            0 <= i < self.history(run_id).len() ==> (#[trigger] self.history(run_id)[i]).event_id
                == i + 1
    }

    /// Whether there is that run, of that workflow id.
    pub open spec fn runs(self, run_id: Seq<char>, workflow_id: Seq<char>) -> bool {
        self.executions.contains_key(run_id) && self.executions[run_id].workflow_id == workflow_id
    }

    /// Whether there is a run of that workflow id.
    pub open spec fn holds_workflow(self, workflow_id: Seq<char>) -> bool {
        exists|run_id: Seq<char>| #[trigger] self.runs(run_id, workflow_id)
    }

    /// Whether no two runs are of one workflow id.
    pub open spec fn one_run_each(self) -> bool {
        forall|a: Seq<char>, b: Seq<char>, workflow_id: Seq<char>| #[trigger]
            self.runs(a, workflow_id) && #[trigger] self.runs(b, workflow_id) ==> a == b
    }

    /// The run of a workflow id.
    pub open spec fn run_of(self, workflow_id: Seq<char>) -> Option<Seq<char>> {
        if self.holds_workflow(workflow_id) {
            Some(choose|run_id: Seq<char>| #[trigger] self.runs(run_id, workflow_id))
        } else {
            None
        }
    }

    /// Whether a task waits for a worker, to run at `at` or later. Its run is there.
    pub open spec fn is_pending(self, key: (Seq<char>, i64), at: i64) -> bool {
        &&& self.tasks.contains_key(key)
        &&& self.tasks[key].status is Pending
        &&& self.tasks[key].next_run_at == at
        &&& self.executions.contains_key(key.0)
    }

    /// Whether a write is not refused for what the store holds: a new run has an id
    /// and a workflow id that no other run has, and an event has a place of its own.
    #[verifier::opaque]
    pub open spec fn accepts(self, write: WriteView) -> bool {
        match write {
            WriteView::InsertExecution { run_id, workflow_id, .. } => {
                !self.executions.contains_key(run_id) && !self.holds_workflow(workflow_id)
            },
            WriteView::AppendEvent { run_id, event_id, .. } => forall|k: int|
                0 <= k < self.history(run_id).len() ==> (#[trigger] self.history(
                    run_id,
                )[k]).event_id != event_id,
            _ => true,
        }
    }

    /// Whether the write at `i` is not refused, after those before it.
    pub open spec fn accepts_at(self, writes: Seq<WriteView>, i: int) -> bool {
        self.after_all(writes.take(i)).accepts(writes[i])
    }

    /// Whether a list of writes, made in one transaction, is taken: none of them is
    /// refused. Otherwise the store takes none of them.
    pub open spec fn takes(self, writes: Seq<WriteView>) -> bool {
        forall|i: int| 0 <= i < writes.len() ==> #[trigger] self.accepts_at(writes, i)
    }

    /// Whether the places of all histories are counted from 1 without a gap.
    pub open spec fn all_dense(self) -> bool {
        forall|run_id: Seq<char>| #[trigger] self.dense(run_id)
    }

    /// After one write that is not refused.
    pub open spec fn after(self, write: WriteView) -> Db {
        match write {
            WriteView::InsertExecution {
                run_id,
                workflow_id,
                workflow_type,
                parent_run_id,
                parent_seq,
                input,
            } => Db {
                executions: self.executions.insert(
                    run_id,
                    ExecutionRow {
                        workflow_id,
                        workflow_type,
                        parent_run_id,
                        parent_seq,
                        input,
                        status: ExecStatus::Running,
                        result: None,
                    },
                ),
                ..self
            },
            WriteView::AppendEvent { run_id, event_id, event, ts } => Db {
                histories: self.histories.insert(
                    run_id,
                    self.history(run_id).push(HistoryRow { event_id, event, ts }),
                ),
                ..self
            },
            WriteView::PutTask { run_id, seq, activity_type, input, next_run_at } => Db {
                tasks: self.tasks.insert(
                    (run_id, seq),
                    TaskRow {
                        activity_type,
                        input,
                        attempt: 0,
                        next_run_at,
                        status: TaskStatus::Pending,
                        lease_expires_at: None,
                    },
                ),
                ..self
            },
            WriteView::PutTimer { run_id, seq, fire_at } => Db {
                timers: self.timers.insert((run_id, seq), fire_at),
                ..self
            },
            WriteView::MarkRunnable { run_id, since } => Db {
                runnable: self.runnable.insert(run_id, since),
                ..self
            },
            WriteView::SetStatus { run_id, status, result } => if self.executions.contains_key(
                run_id,
            ) {
                Db {
                    executions: self.executions.insert(
                        run_id,
                        ExecutionRow { status, result, ..self.executions[run_id] },
                    ),
                    ..self
                }
            } else {
                self
            },
            WriteView::ClearRunnable { run_id } => Db {
                runnable: self.runnable.remove(run_id),
                ..self
            },
            WriteView::LeaseTask { run_id, seq, attempt, lease_expires_at } =>
                if self.tasks.contains_key((run_id, seq)) {
                    Db {
                        tasks: self.tasks.insert(
                            (run_id, seq),
                            TaskRow {
                                attempt,
                                status: TaskStatus::Running,
                                lease_expires_at: Some(lease_expires_at),
                                ..self.tasks[(run_id, seq)]
                            },
                        ),
                        ..self
                    }
                } else {
                    self
                },
            WriteView::FinishTask { run_id, seq } => if self.tasks.contains_key((run_id, seq)) {
                Db {
                    tasks: self.tasks.insert(
                        (run_id, seq),
                        TaskRow { status: TaskStatus::Done, ..self.tasks[(run_id, seq)] },
                    ),
                    ..self
                }
            } else {
                self
            },
            WriteView::RequeueTask { run_id, seq, next_run_at } => if self.tasks.contains_key(
                (run_id, seq),
            ) {
                Db {
                    tasks: self.tasks.insert(
                        (run_id, seq),
                        TaskRow {
                            next_run_at,
                            status: TaskStatus::Pending,
                            lease_expires_at: None,
                            ..self.tasks[(run_id, seq)]
                        },
                    ),
                    ..self
                }
            } else {
                self
            },
            WriteView::ReleaseTask { run_id, seq } => if self.tasks.contains_key((run_id, seq)) {
                Db {
                    tasks: self.tasks.insert(
                        (run_id, seq),
                        TaskRow {
                            status: TaskStatus::Pending,
                            lease_expires_at: None,
                            ..self.tasks[(run_id, seq)]
                        },
                    ),
                    ..self
                }
            } else {
                self
            },
            WriteView::DeleteTimer { run_id, seq } => Db {
                timers: self.timers.remove((run_id, seq)),
                ..self
            },
        }
    }

    /// After a list of writes.
    pub open spec fn after_all(self, writes: Seq<WriteView>) -> Db
        decreases writes.len(),
    {
        if writes.len() == 0 {
            self
        } else {
            self.after_all(writes.drop_last()).after(writes.last())
        }
    }
}

/// Writes one after the other.
proof fn lemma_after_both(db: Db, first: Seq<WriteView>, second: Seq<WriteView>)
    ensures
        db.after_all(first + second) == db.after_all(first).after_all(second),
    decreases second.len(),
{
    if second.len() == 0 {
        assert(first + second =~= first);
    } else {
        assert((first + second).drop_last() =~= first + second.drop_last());
        lemma_after_both(db, first, second.drop_last());
    }
}

/// A list is taken if what comes before its last write is, and then the last write.
proof fn lemma_takes_last(db: Db, writes: Seq<WriteView>)
    requires
        writes.len() > 0,
    ensures
        db.takes(writes) <==> db.takes(writes.drop_last()) && db.after_all(
            writes.drop_last(),
        ).accepts(writes.last()),
{
    let before = writes.drop_last();
    let last = writes.len() - 1;
    assert(writes.take(last) =~= before);
    assert(db.accepts_at(writes, last) == db.after_all(before).accepts(writes.last()));
    assert forall|i: int| 0 <= i < last implies #[trigger] db.accepts_at(writes, i)
        == db.accepts_at(before, i) by {
        assert(before.take(i) =~= writes.take(i));
    }
    if db.takes(writes) {
        assert forall|i: int| 0 <= i < before.len() implies #[trigger] db.accepts_at(
            before,
            i,
        ) by {
            assert(db.accepts_at(writes, i));
        }
    }
}

/// Two lists are taken one after the other.
proof fn lemma_takes_both(db: Db, first: Seq<WriteView>, second: Seq<WriteView>)
    ensures
        db.takes(first + second) <==> db.takes(first) && db.after_all(first).takes(second),
    decreases second.len(),
{
    if second.len() == 0 {
        assert(first + second =~= first);
    } else {
        let both = first + second;
        assert(both.drop_last() =~= first + second.drop_last());
        lemma_takes_both(db, first, second.drop_last());
        lemma_after_both(db, first, second.drop_last());
        lemma_takes_last(db, both);
        lemma_takes_last(db.after_all(first), second);
    }
}

/// An arrival is taken.
proof fn lemma_takes_arrival(
    db: Db,
    run_id: Seq<char>,
    last_event_id: i64,
    event: EventView,
    now: i64,
)
    requires
        db.dense(run_id),
        db.last_event_id(run_id) == last_event_id,
        last_event_id < i64::MAX,
    ensures
        db.takes(arrival(run_id, last_event_id, event, now)),
{
    reveal(Db::accepts);
    let writes = arrival(run_id, last_event_id, event, now);
    assert(writes.take(0) =~= Seq::empty());
    assert forall|i: int| 0 <= i < writes.len() implies #[trigger] db.accepts_at(writes, i) by {
        if i == 0 {
            assert(db.after_all(writes.take(0)) == db);
        }
    }
}

/// A birth is taken if, and only if, its run and its workflow id are new.
proof fn lemma_takes_birth(
    db: Db,
    run_id: Seq<char>,
    workflow_id: Seq<char>,
    workflow_type: Seq<char>,
    parent_run_id: Option<Seq<char>>,
    parent_seq: Option<i64>,
    input: Seq<u8>,
    now: i64,
)
    requires
        db.dense(run_id),
    ensures
        db.takes(
            birth(run_id, workflow_id, workflow_type, parent_run_id, parent_seq, input, now),
        ) <==> {
            &&& !db.executions.contains_key(run_id)
            &&& !db.holds_workflow(workflow_id)
            &&& db.history(run_id).len() == 0
        },
{
    reveal(Db::accepts);
    let writes = birth(
        run_id,
        workflow_id,
        workflow_type,
        parent_run_id,
        parent_seq,
        input,
        now,
    );
    assert(writes.take(0) =~= Seq::empty());
    assert(db.after_all(writes.take(0)) == db);
    let one = writes.take(1);
    assert(one.drop_last() =~= Seq::empty());
    assert(one.last() == writes[0]);
    reveal_with_fuel(Db::after_all, 2);
    let mid = db.after(writes[0]);
    assert(db.after_all(one) == mid);
    assert(mid.history(run_id) == db.history(run_id));
    if db.takes(writes) {
        assert(db.accepts_at(writes, 0));
        assert(db.accepts_at(writes, 1));
        if db.history(run_id).len() > 0 {
            assert(db.history(run_id)[0].event_id == 1);
            assert(mid.history(run_id)[0].event_id != 1);
        }
    } else {
        let i = choose|i: int|
            0 <= i < writes.len() && !#[trigger] db.accepts_at(writes, i);
        assert(i == 0 || i == 1);
    }
}

/// Whatever is written, no two runs come to be of one workflow id.
pub proof fn workflow_ids_stay_unique(db: Db, write: WriteView)
    requires
        db.one_run_each(),
        db.accepts(write),
    ensures
        db.after(write).one_run_each(),
{
    reveal(Db::accepts);
    let after = db.after(write);
    assert forall|a: Seq<char>, b: Seq<char>, workflow_id: Seq<char>| #[trigger]
        after.runs(a, workflow_id) && #[trigger] after.runs(b, workflow_id) implies a == b by {
        match write {
            WriteView::InsertExecution { run_id, workflow_id: new, .. } => {
                if a != run_id {
                    assert(db.runs(a, workflow_id));
                }
                if b != run_id {
                    assert(db.runs(b, workflow_id));
                }
            },
            _ => {
                assert(db.runs(a, workflow_id));
                assert(db.runs(b, workflow_id));
            },
        }
    }
}

/// What an arrival comes to: the event is the last of the run's history, and the run
/// has something new. Nothing else changes.
pub proof fn arrival_adds_one_event(
    db: Db,
    run_id: Seq<char>,
    last_event_id: i64,
    event: EventView,
    now: i64,
)
    requires
        db.last_event_id(run_id) == last_event_id,
        last_event_id < i64::MAX,
    ensures
        ({
            let after = db.after_all(arrival(run_id, last_event_id, event, now));
            &&& after.history(run_id) == db.history(run_id).push(
                HistoryRow { event_id: (last_event_id + 1) as i64, event, ts: now },
            )
            &&& after.events(run_id) == db.events(run_id).push(event)
            &&& db.dense(run_id) ==> after.dense(run_id)
            &&& db.dense(run_id) ==> db.takes(arrival(run_id, last_event_id, event, now))
            &&& after.runnable == db.runnable.insert(run_id, now)
            &&& after.executions == db.executions
            &&& after.tasks == db.tasks
            &&& after.timers == db.timers
            &&& forall|other: Seq<char>| other != run_id ==> #[trigger] after.history(other)
                == db.history(other)
        }),
{
    let writes = arrival(run_id, last_event_id, event, now);
    reveal_with_fuel(Db::after_all, 3);
    assert(writes.drop_last() =~= seq![writes[0]]);
    assert(writes.drop_last().drop_last() =~= Seq::empty());
    let after = db.after_all(writes);
    assert(after == db.after(writes[0]).after(writes[1]));
    assert(after.events(run_id) =~= db.events(run_id).push(event));
    if db.dense(run_id) {
        lemma_takes_arrival(db, run_id, last_event_id, event, now);
    }
}

/// What a birth comes to: the run is there, running, with its input as the one
/// event of its history, and has something new. Nothing else changes. The run and
/// its workflow id are taken to be new to the store, which refuses others.
pub proof fn birth_makes_a_run(
    db: Db,
    run_id: Seq<char>,
    workflow_id: Seq<char>,
    workflow_type: Seq<char>,
    parent_run_id: Option<Seq<char>>,
    parent_seq: Option<i64>,
    input: Seq<u8>,
    now: i64,
)
    requires
        !db.executions.contains_key(run_id),
        !db.holds_workflow(workflow_id),
        db.history(run_id).len() == 0,
    ensures
        ({
            let after = db.after_all(
                birth(
                    run_id,
                    workflow_id,
                    workflow_type,
                    parent_run_id,
                    parent_seq,
                    input,
                    now,
                ),
            );
            &&& after.executions == db.executions.insert(
                run_id,
                ExecutionRow {
                    workflow_id,
                    workflow_type,
                    parent_run_id,
                    parent_seq,
                    input,
                    status: ExecStatus::Running,
                    result: None,
                },
            )
            &&& after.events(run_id) == seq![EventView::WorkflowStarted { input }]
            &&& after.dense(run_id)
            &&& db.one_run_each() ==> after.one_run_each()
            &&& after.runnable == db.runnable.insert(run_id, now)
            &&& after.tasks == db.tasks
            &&& after.timers == db.timers
            &&& forall|other: Seq<char>| other != run_id ==> #[trigger] after.history(other)
                == db.history(other)
        }),
{
    let writes = birth(
        run_id,
        workflow_id,
        workflow_type,
        parent_run_id,
        parent_seq,
        input,
        now,
    );
    reveal_with_fuel(Db::after_all, 4);
    assert(writes.drop_last() =~= seq![writes[0], writes[1]]);
    assert(writes.drop_last().drop_last() =~= seq![writes[0]]);
    assert(writes.drop_last().drop_last().drop_last() =~= Seq::empty());
    let after = db.after_all(writes);
    assert(after == db.after(writes[0]).after(writes[1]).after(writes[2]));
    assert(after.events(run_id) =~= seq![EventView::WorkflowStarted { input }]);
    if db.one_run_each() {
        assert(db.accepts(writes[0]) && db.after(writes[0]).accepts(writes[1]) && db.after(
            writes[0],
        ).after(writes[1]).accepts(writes[2])) by {
            reveal(Db::accepts);
        }
        workflow_ids_stay_unique(db, writes[0]);
        workflow_ids_stay_unique(db.after(writes[0]), writes[1]);
        workflow_ids_stay_unique(db.after(writes[0]).after(writes[1]), writes[2]);
    }
}

/// Starting a workflow finds or makes the one run of its workflow id. Whoever starts
/// it again is given that run, and the store stays as it is.
pub proof fn starts_come_to_one_run(
    db: Db,
    candidate_run_id: Seq<char>,
    workflow_id: Seq<char>,
    workflow_type: Seq<char>,
    input: Seq<u8>,
    now: i64,
)
    requires
        db.one_run_each(),
        !db.executions.contains_key(candidate_run_id),
        db.history(candidate_run_id).len() == 0,
    ensures
        ({
            let existing = db.run_of(workflow_id);
            let run_id = started_run(candidate_run_id, existing);
            let after = db.after_all(
                creation_writes(
                    candidate_run_id,
                    workflow_id,
                    workflow_type,
                    input,
                    existing,
                    now,
                ),
            );
            &&& db.takes(
                creation_writes(
                    candidate_run_id,
                    workflow_id,
                    workflow_type,
                    input,
                    existing,
                    now,
                ),
            )
            &&& after.one_run_each()
            &&& after.runs(run_id, workflow_id)
            &&& after.run_of(workflow_id) == Some(run_id)
            &&& existing is Some ==> after == db
            &&& forall|
                candidate: Seq<char>,
                other_type: Seq<char>,
                other_input: Seq<u8>,
                later: i64,
            |
                after.after_all(
                    #[trigger] creation_writes(
                        candidate,
                        workflow_id,
                        other_type,
                        other_input,
                        after.run_of(workflow_id),
                        later,
                    ),
                ) == after && started_run(candidate, after.run_of(workflow_id)) == run_id
        }),
{
    match db.run_of(workflow_id) {
        Some(run_id) => {
            assert(db.runs(run_id, workflow_id));
        },
        None => {
            lemma_takes_birth(
                db,
                candidate_run_id,
                workflow_id,
                workflow_type,
                None,
                None,
                input,
                now,
            );
            birth_makes_a_run(
                db,
                candidate_run_id,
                workflow_id,
                workflow_type,
                None,
                None,
                input,
                now,
            );
            let after = db.after_all(
                birth(candidate_run_id, workflow_id, workflow_type, None, None, input, now),
            );
            assert(after.runs(candidate_run_id, workflow_id));
        },
    }
}

/// The terminal outcome of a task is recorded once and for all: the event is the
/// last of the run's history, the run has something new, and the task is done.
/// Nothing else changes.
pub proof fn completion_is_recorded(
    db: Db,
    run_id: Seq<char>,
    seq: i64,
    result: Result<Seq<u8>, ErrorView>,
    last_event_id: i64,
    now: i64,
)
    requires
        db.last_event_id(run_id) == last_event_id,
        last_event_id < i64::MAX,
        db.tasks.contains_key((run_id, seq)),
    ensures
        ({
            let after = db.after_all(completion_writes(run_id, seq, result, last_event_id, now));
            &&& after.events(run_id) == db.events(run_id).push(outcome_event(seq, result))
            &&& db.dense(run_id) ==> after.dense(run_id)
            &&& db.dense(run_id) ==> db.takes(
                completion_writes(run_id, seq, result, last_event_id, now),
            )
            &&& after.runnable == db.runnable.insert(run_id, now)
            &&& after.tasks == db.tasks.insert(
                (run_id, seq),
                TaskRow { status: TaskStatus::Done, ..db.tasks[(run_id, seq)] },
            )
            &&& after.timers == db.timers
            &&& after.executions == db.executions
            &&& forall|other: Seq<char>| other != run_id ==> #[trigger] after.history(other)
                == db.history(other)
        }),
{
    let event = outcome_event(seq, result);
    let writes = completion_writes(run_id, seq, result, last_event_id, now);
    assert(writes.drop_last() =~= arrival(run_id, last_event_id, event, now));
    arrival_adds_one_event(db, run_id, last_event_id, event, now);
    lemma_takes_last(db, writes);
    reveal(Db::accepts);
    let mid = db.after_all(writes.drop_last());
    let after = db.after_all(writes);
    assert(after == mid.after(writes.last()));
    assert forall|other: Seq<char>| #[trigger] after.history(other) == mid.history(other) by {}
}

/// A timer fires once: its end is the last event of the run's history, the run has
/// something new, and the timer is gone. Nothing else changes.
pub proof fn timer_fires_once(
    db: Db,
    run_id: Seq<char>,
    seq: i64,
    last_event_id: i64,
    now: i64,
)
    requires
        db.last_event_id(run_id) == last_event_id,
        last_event_id < i64::MAX,
    ensures
        ({
            let after = db.after_all(firing_writes(run_id, seq, last_event_id, now));
            &&& after.events(run_id) == db.events(run_id).push(
                EventView::TimerFired { seq: seq as u64 },
            )
            &&& db.dense(run_id) ==> after.dense(run_id)
            &&& db.dense(run_id) ==> db.takes(firing_writes(run_id, seq, last_event_id, now))
            &&& after.runnable == db.runnable.insert(run_id, now)
            &&& after.timers == db.timers.remove((run_id, seq))
            &&& after.executions == db.executions
            &&& after.tasks == db.tasks
            &&& forall|other: Seq<char>| other != run_id ==> #[trigger] after.history(other)
                == db.history(other)
        }),
{
    let event = EventView::TimerFired { seq: seq as u64 };
    let writes = firing_writes(run_id, seq, last_event_id, now);
    assert(writes.drop_last() =~= arrival(run_id, last_event_id, event, now));
    arrival_adds_one_event(db, run_id, last_event_id, event, now);
    lemma_takes_last(db, writes);
    reveal(Db::accepts);
    let mid = db.after_all(writes.drop_last());
    let after = db.after_all(writes);
    assert(after == mid.after(writes.last()));
    assert forall|other: Seq<char>| #[trigger] after.history(other) == mid.history(other) by {}
}

/// The events of a turn follow the run's history in their order.
proof fn lemma_event_writes(
    db: Db,
    run_id: Seq<char>,
    last_event_id: i64,
    events: Seq<EventView>,
    now: i64,
)
    requires
        db.last_event_id(run_id) == last_event_id,
        last_event_id + events.len() < i64::MAX,
    ensures
        ({
            let after = db.after_all(event_writes(run_id, last_event_id, events, now));
            &&& after.events(run_id) == db.events(run_id) + events
            &&& after.history(run_id).len() == db.history(run_id).len() + events.len()
            &&& db.dense(run_id) ==> after.dense(run_id)
            &&& after.executions == db.executions
            &&& after.tasks == db.tasks
            &&& after.timers == db.timers
            &&& after.runnable == db.runnable
            &&& forall|other: Seq<char>| other != run_id ==> #[trigger] after.history(other)
                == db.history(other)
        }),
    decreases events.len(),
{
    let writes = event_writes(run_id, last_event_id, events, now);
    let after = db.after_all(writes);
    if events.len() == 0 {
        assert(writes =~= Seq::empty());
        assert(db.events(run_id) + events =~= db.events(run_id));
    } else {
        let before = events.drop_last();
        assert(writes.drop_last() =~= event_writes(run_id, last_event_id, before, now));
        lemma_event_writes(db, run_id, last_event_id, before, now);
        let mid = db.after_all(writes.drop_last());
        assert(after == mid.after(writes.last()));
        assert(after.events(run_id) =~= mid.events(run_id).push(events.last()));
        assert(after.events(run_id) =~= db.events(run_id) + events);
        assert forall|other: Seq<char>| other != run_id implies #[trigger] after.history(other)
            == db.history(other) by {
            assert(mid.history(other) == db.history(other));
        }
    }
}

/// The row of a task that a turn puts in: not tried yet.
pub open spec fn new_task_row(task: NewActivityTaskView) -> TaskRow {
    TaskRow {
        activity_type: task.activity_type,
        input: task.input,
        attempt: 0,
        next_run_at: task.next_run_at,
        status: TaskStatus::Pending,
        lease_expires_at: None,
    }
}

/// Whether the task at `i` is the last of its number: it is the one that stays.
pub open spec fn is_last_task(tasks: Seq<NewActivityTaskView>, i: int) -> bool {
    &&& 0 <= i < tasks.len()
    &&& forall|j: int| i < j < tasks.len() ==> (#[trigger] tasks[j]).seq != tasks[i].seq
}

/// Whether the timer at `i` is the last of its number: it is the one that stays.
pub open spec fn is_last_timer(timers: Seq<NewTimer>, i: int) -> bool {
    &&& 0 <= i < timers.len()
    &&& forall|j: int| i < j < timers.len() ==> (#[trigger] timers[j]).seq != timers[i].seq
}

/// Whether one of the tasks has that key.
pub open spec fn puts_task(
    run_id: Seq<char>,
    tasks: Seq<NewActivityTaskView>,
    key: (Seq<char>, i64),
) -> bool {
    exists|i: int| 0 <= i < tasks.len() && key == (run_id, (#[trigger] tasks[i]).seq)
}

/// Whether one of the timers has that key.
pub open spec fn puts_timer(run_id: Seq<char>, timers: Seq<NewTimer>, key: (Seq<char>, i64)) -> bool {
    exists|i: int| 0 <= i < timers.len() && key == (run_id, (#[trigger] timers[i]).seq)
}

/// The tasks of a turn are there as they were put in, and the others stay.
proof fn lemma_task_writes(db: Db, run_id: Seq<char>, tasks: Seq<NewActivityTaskView>)
    ensures
        ({
            let after = db.after_all(task_writes(run_id, tasks));
            &&& after.executions == db.executions
            &&& after.histories == db.histories
            &&& after.timers == db.timers
            &&& after.runnable == db.runnable
            &&& forall|i: int| #[trigger]
                is_last_task(tasks, i) ==> {
                    let key = (run_id, tasks[i].seq);
                    after.tasks.contains_key(key) && after.tasks[key] == new_task_row(tasks[i])
                }
            &&& forall|key: (Seq<char>, i64)| !#[trigger]
                puts_task(run_id, tasks, key) ==> {
                    &&& after.tasks.contains_key(key) == db.tasks.contains_key(key)
                    &&& after.tasks[key] == db.tasks[key]
                }
        }),
    decreases tasks.len(),
{
    let writes = task_writes(run_id, tasks);
    let after = db.after_all(writes);
    if tasks.len() == 0 {
        assert(writes =~= Seq::empty());
    } else {
        let before = tasks.drop_last();
        assert(writes.drop_last() =~= task_writes(run_id, before));
        lemma_task_writes(db, run_id, before);
        let mid = db.after_all(writes.drop_last());
        assert(after == mid.after(writes.last()));
        assert forall|i: int| #[trigger] is_last_task(tasks, i) implies {
            let key = (run_id, tasks[i].seq);
            after.tasks.contains_key(key) && after.tasks[key] == new_task_row(tasks[i])
        } by {
            if i < before.len() {
                assert(tasks[tasks.len() - 1].seq != tasks[i].seq);
                assert forall|j: int| i < j < before.len() implies (#[trigger] before[j]).seq
                    != before[i].seq by {
                    assert(tasks[j].seq != tasks[i].seq);
                }
                assert(is_last_task(before, i));
            }
        }
        assert forall|key: (Seq<char>, i64)| !#[trigger] puts_task(run_id, tasks, key) implies {
            &&& after.tasks.contains_key(key) == db.tasks.contains_key(key)
            &&& after.tasks[key] == db.tasks[key]
        } by {
            assert(key != (run_id, tasks[tasks.len() - 1].seq));
            assert(!puts_task(run_id, before, key)) by {
                assert forall|i: int| 0 <= i < before.len() implies key != (
                    run_id,
                    (#[trigger] before[i]).seq,
                ) by {
                    assert(before[i] == tasks[i]);
                }
            }
        }
    }
}

/// The timers of a turn are there as they were started, and the others stay.
proof fn lemma_timer_writes(db: Db, run_id: Seq<char>, timers: Seq<NewTimer>)
    ensures
        ({
            let after = db.after_all(timer_writes(run_id, timers));
            &&& after.executions == db.executions
            &&& after.histories == db.histories
            &&& after.tasks == db.tasks
            &&& after.runnable == db.runnable
            &&& forall|i: int| #[trigger]
                is_last_timer(timers, i) ==> {
                    let key = (run_id, timers[i].seq);
                    after.timers.contains_key(key) && after.timers[key] == timers[i].fire_at
                }
            &&& forall|key: (Seq<char>, i64)| !#[trigger]
                puts_timer(run_id, timers, key) ==> {
                    &&& after.timers.contains_key(key) == db.timers.contains_key(key)
                    &&& after.timers[key] == db.timers[key]
                }
        }),
    decreases timers.len(),
{
    let writes = timer_writes(run_id, timers);
    let after = db.after_all(writes);
    if timers.len() == 0 {
        assert(writes =~= Seq::empty());
    } else {
        let before = timers.drop_last();
        assert(writes.drop_last() =~= timer_writes(run_id, before));
        lemma_timer_writes(db, run_id, before);
        let mid = db.after_all(writes.drop_last());
        assert(after == mid.after(writes.last()));
        assert forall|i: int| #[trigger] is_last_timer(timers, i) implies {
            let key = (run_id, timers[i].seq);
            after.timers.contains_key(key) && after.timers[key] == timers[i].fire_at
        } by {
            if i < before.len() {
                assert(timers[timers.len() - 1].seq != timers[i].seq);
                assert forall|j: int| i < j < before.len() implies (#[trigger] before[j]).seq
                    != before[i].seq by {
                    assert(timers[j].seq != timers[i].seq);
                }
                assert(is_last_timer(before, i));
            }
        }
        assert forall|key: (Seq<char>, i64)| !#[trigger] puts_timer(run_id, timers, key) implies {
            &&& after.timers.contains_key(key) == db.timers.contains_key(key)
            &&& after.timers[key] == db.timers[key]
        } by {
            assert(key != (run_id, timers[timers.len() - 1].seq));
            assert(!puts_timer(run_id, before, key)) by {
                assert forall|i: int| 0 <= i < before.len() implies key != (
                    run_id,
                    (#[trigger] before[i]).seq,
                ) by {
                    assert(before[i] == timers[i]);
                }
            }
        }
    }
}

/// Whether a child of the run `run_id` is there, running, and has something new.
pub open spec fn is_born(db: Db, run_id: Seq<char>, child: NewChildView) -> bool {
    &&& db.executions.contains_key(child.child_run_id)
    &&& db.executions[child.child_run_id] == (ExecutionRow {
        workflow_id: child.child_workflow_id,
        workflow_type: child.workflow_type,
        parent_run_id: Some(run_id),
        parent_seq: Some(child.seq),
        input: child.input,
        status: ExecStatus::Running,
        result: None,
    })
    &&& db.dense(child.child_run_id)
    &&& db.runnable.contains_key(child.child_run_id)
}

/// Whether the run ids and the workflow ids of children are new to a store and tell
/// the children apart.
pub open spec fn ids_are_new(db: Db, children: Seq<NewChildView>) -> bool {
    &&& forall|i: int|
        0 <= i < children.len() ==> {
            &&& !db.executions.contains_key((#[trigger] children[i]).child_run_id)
            &&& db.history(children[i].child_run_id).len() == 0
            &&& !db.holds_workflow(children[i].child_workflow_id)
        }
    &&& forall|i: int, j: int|
        0 <= i < j < children.len() ==> {
            &&& (#[trigger] children[i]).child_run_id != (#[trigger] children[j]).child_run_id
            &&& children[i].child_workflow_id != children[j].child_workflow_id
        }
}

/// The children of a turn are born, and nothing else changes.
proof fn lemma_child_writes(db: Db, run_id: Seq<char>, children: Seq<NewChildView>, now: i64)
    requires
        ids_are_new(db, children),
    ensures
        ({
            let after = db.after_all(child_writes(run_id, children, now));
            &&& after.tasks == db.tasks
            &&& after.timers == db.timers
            &&& db.one_run_each() ==> after.one_run_each()
            &&& forall|i: int|
                0 <= i < children.len() ==> {
                    &&& is_born(after, run_id, #[trigger] children[i])
                    &&& after.events(children[i].child_run_id) == seq![
                        EventView::WorkflowStarted { input: children[i].input },
                    ]
                }
            &&& forall|other: Seq<char>| !#[trigger]
                starts_run(children, other) ==> {
                    &&& after.history(other) == db.history(other)
                    &&& after.executions.contains_key(other) == db.executions.contains_key(other)
                    &&& after.executions[other] == db.executions[other]
                    &&& after.runnable.contains_key(other) == db.runnable.contains_key(other)
                    &&& after.runnable[other] == db.runnable[other]
                }
        }),
    decreases children.len(),
{
    let writes = child_writes(run_id, children, now);
    let after = db.after_all(writes);
    if children.len() > 0 {
        let before = children.drop_last();
        let child = children.last();
        let last = children.len() - 1;
        assert forall|i: int| 0 <= i < before.len() implies {
            &&& !db.executions.contains_key((#[trigger] before[i]).child_run_id)
            &&& db.history(before[i].child_run_id).len() == 0
            &&& !db.holds_workflow(before[i].child_workflow_id)
            &&& before[i].child_run_id != child.child_run_id
            &&& before[i].child_workflow_id != child.child_workflow_id
        } by {
            assert(before[i] == children[i]);
            assert(children[i].child_run_id != children[last].child_run_id);
        }
        assert forall|i: int, j: int| 0 <= i < j < before.len() implies {
            &&& (#[trigger] before[i]).child_run_id != (#[trigger] before[j]).child_run_id
            &&& before[i].child_workflow_id != before[j].child_workflow_id
        } by {
            assert(children[i].child_run_id != children[j].child_run_id);
        }
        lemma_child_writes(db, run_id, before, now);
        let mid = db.after_all(child_writes(run_id, before, now));
        let born = birth(
            child.child_run_id,
            child.child_workflow_id,
            child.workflow_type,
            Some(run_id),
            Some(child.seq),
            child.input,
            now,
        );
        lemma_after_both(db, child_writes(run_id, before, now), born);
        assert(db.history(children[last].child_run_id).len() == 0);
        assert(!starts_run(before, child.child_run_id));
        assert(!mid.holds_workflow(child.child_workflow_id)) by {
            assert forall|r: Seq<char>| !#[trigger] mid.runs(r, child.child_workflow_id) by {
                if starts_run(before, r) {
                    let i = choose|i: int|
                        0 <= i < before.len() && (#[trigger] before[i]).child_run_id == r;
                    assert(is_born(mid, run_id, before[i]));
                } else {
                    assert(!db.holds_workflow(children[last].child_workflow_id));
                    assert(!db.runs(r, child.child_workflow_id));
                }
            }
        }
        birth_makes_a_run(
            mid,
            child.child_run_id,
            child.child_workflow_id,
            child.workflow_type,
            Some(run_id),
            Some(child.seq),
            child.input,
            now,
        );
        assert forall|i: int| 0 <= i < children.len() implies {
            &&& is_born(after, run_id, #[trigger] children[i])
            &&& after.events(children[i].child_run_id) == seq![
                EventView::WorkflowStarted { input: children[i].input },
            ]
        } by {
            if i < before.len() {
                assert(before[i] == children[i]);
                assert(is_born(mid, run_id, before[i]));
                assert(after.history(before[i].child_run_id) == mid.history(
                    before[i].child_run_id,
                ));
            }
        }
        assert forall|other: Seq<char>| !#[trigger] starts_run(children, other) implies {
            &&& after.history(other) == db.history(other)
            &&& after.executions.contains_key(other) == db.executions.contains_key(other)
            &&& after.executions[other] == db.executions[other]
            &&& after.runnable.contains_key(other) == db.runnable.contains_key(other)
            &&& after.runnable[other] == db.runnable[other]
        } by {
            assert(other != children[last].child_run_id);
            assert(!starts_run(before, other)) by {
                assert forall|i: int| 0 <= i < before.len() implies (
                #[trigger] before[i]).child_run_id != other by {
                    assert(before[i] == children[i]);
                }
            }
        }
    }
}

/// The run stands where the turn left it, with nothing new, and nothing else changes.
proof fn lemma_closing_writes(
    db: Db,
    run_id: Seq<char>,
    status: ExecStatus,
    result: Option<Seq<u8>>,
)
    requires
        db.executions.contains_key(run_id),
    ensures
        ({
            let after = db.after_all(closing_writes(run_id, status, result));
            &&& after.histories == db.histories
            &&& after.tasks == db.tasks
            &&& after.timers == db.timers
            &&& after.runnable == db.runnable.remove(run_id)
            &&& after.executions == db.executions.insert(
                run_id,
                ExecutionRow { status, result, ..db.executions[run_id] },
            )
        }),
{
    let writes = closing_writes(run_id, status, result);
    reveal_with_fuel(Db::after_all, 3);
    assert(writes.drop_last() =~= seq![writes[0]]);
    assert(writes.drop_last().drop_last() =~= Seq::empty());
    assert(db.after_all(writes) == db.after(writes[0]).after(writes[1]));
}

/// What the end of a run comes to in the history of its parent.
proof fn lemma_notify_writes(
    db: Db,
    notify: Option<ParentNotifyView>,
    parent_last_event_id: i64,
    now: i64,
)
    requires
        notify matches Some(n) ==> db.last_event_id(n.parent_run_id) == parent_last_event_id
            && parent_last_event_id < i64::MAX,
    ensures
        ({
            let after = db.after_all(notify_writes(notify, parent_last_event_id, now));
            &&& after.executions == db.executions
            &&& after.tasks == db.tasks
            &&& after.timers == db.timers
            &&& match notify {
                Some(n) => {
                    &&& after.events(n.parent_run_id) == db.events(n.parent_run_id).push(n.event)
                    &&& db.dense(n.parent_run_id) ==> after.dense(n.parent_run_id)
                    &&& after.runnable == db.runnable.insert(n.parent_run_id, now)
                    &&& forall|other: Seq<char>|
                        other != n.parent_run_id ==> #[trigger] after.history(other) == db.history(
                            other,
                        )
                },
                None => after == db,
            }
        }),
{
    match notify {
        Some(n) => {
            arrival_adds_one_event(db, n.parent_run_id, parent_last_event_id, n.event, now);
        },
        None => {
            assert(notify_writes(notify, parent_last_event_id, now) =~= Seq::empty());
        },
    }
}

/// A turn's writes, part by part.
proof fn lemma_turn_in_parts(
    db: Db,
    run_id: Seq<char>,
    commit: TurnCommitView,
    last_event_id: i64,
    parent_last_event_id: i64,
    now: i64,
)
    ensures
        db.after_all(turn_writes(run_id, commit, last_event_id, parent_last_event_id, now))
            == db.after_all(event_writes(run_id, last_event_id, commit.events, now)).after_all(
            task_writes(run_id, commit.new_tasks),
        ).after_all(timer_writes(run_id, commit.new_timers)).after_all(
            child_writes(run_id, commit.new_children, now),
        ).after_all(
            notify_writes(
                commit.parent_notify,
                place_before_notice(run_id, commit, last_event_id, parent_last_event_id),
                now,
            ),
        ).after_all(closing_writes(run_id, commit.status, commit.result)),
{
    let w1 = event_writes(run_id, last_event_id, commit.events, now);
    let w2 = task_writes(run_id, commit.new_tasks);
    let w3 = timer_writes(run_id, commit.new_timers);
    let w4 = child_writes(run_id, commit.new_children, now);
    let place = place_before_notice(run_id, commit, last_event_id, parent_last_event_id);
    let w5 = notify_writes(commit.parent_notify, place, now);
    let w6 = closing_writes(run_id, commit.status, commit.result);
    lemma_after_both(db, w1, w2);
    lemma_after_both(db, w1 + w2, w3);
    lemma_after_both(db, w1 + w2 + w3, w4);
    lemma_after_both(db, w1 + w2 + w3 + w4, w5);
    lemma_after_both(db, w1 + w2 + w3 + w4 + w5, w6);
}

/// What a turn adds to the history of a run as the parent that it notifies.
pub open spec fn notice(commit: TurnCommitView, run_id: Seq<char>) -> Seq<EventView> {
    match commit.parent_notify {
        Some(notify) => if notify.parent_run_id == run_id {
            seq![notify.event]
        } else {
            Seq::empty()
        },
        None => Seq::empty(),
    }
}

/// What a turn commits, it commits at once: the run's history goes on with the
/// turn's events, its tasks and timers are there, its children are born, its parent
/// is told, and the run stands where the turn left it, with nothing new. Nothing else
/// changes.
///
/// The run ids and the workflow ids of new children are taken to be new to the
/// store, which refuses the turn otherwise.
pub proof fn turn_commits_at_once(
    db: Db,
    run_id: Seq<char>,
    commit: TurnCommitView,
    last_event_id: i64,
    parent_last_event_id: i64,
    now: i64,
)
    requires
        db.executions.contains_key(run_id),
        db.last_event_id(run_id) == last_event_id,
        last_event_id + commit.events.len() < i64::MAX,
        ids_are_new(db, commit.new_children),
        commit.parent_notify matches Some(notify) ==> {
            &&& db.last_event_id(notify.parent_run_id) == parent_last_event_id
            &&& parent_last_event_id < i64::MAX
        },
    ensures
        ({
            let after = db.after_all(
                turn_writes(run_id, commit, last_event_id, parent_last_event_id, now),
            );
            &&& after.events(run_id) == db.events(run_id) + commit.events + notice(commit, run_id)
            &&& db.dense(run_id) ==> after.dense(run_id)
            &&& !after.runnable.contains_key(run_id)
            &&& after.executions.contains_key(run_id)
            &&& after.executions[run_id] == (ExecutionRow {
                status: commit.status,
                result: commit.result,
                ..db.executions[run_id]
            })
            &&& forall|i: int| #[trigger]
                is_last_task(commit.new_tasks, i) ==> {
                    let key = (run_id, commit.new_tasks[i].seq);
                    &&& after.tasks.contains_key(key)
                    &&& after.tasks[key] == new_task_row(commit.new_tasks[i])
                }
            &&& forall|key: (Seq<char>, i64)| !#[trigger]
                puts_task(run_id, commit.new_tasks, key) ==> {
                    &&& after.tasks.contains_key(key) == db.tasks.contains_key(key)
                    &&& after.tasks[key] == db.tasks[key]
                }
            &&& forall|i: int| #[trigger]
                is_last_timer(commit.new_timers, i) ==> {
                    let key = (run_id, commit.new_timers[i].seq);
                    &&& after.timers.contains_key(key)
                    &&& after.timers[key] == commit.new_timers[i].fire_at
                }
            &&& forall|key: (Seq<char>, i64)| !#[trigger]
                puts_timer(run_id, commit.new_timers, key) ==> {
                    &&& after.timers.contains_key(key) == db.timers.contains_key(key)
                    &&& after.timers[key] == db.timers[key]
                }
            &&& forall|i: int|
                0 <= i < commit.new_children.len() ==> {
                    let child = #[trigger] commit.new_children[i];
                    &&& is_born(after, run_id, child)
                    &&& after.events(child.child_run_id) == seq![
                        EventView::WorkflowStarted { input: child.input },
                    ] + notice(commit, child.child_run_id)
                }
            &&& commit.parent_notify matches Some(notify) ==> {
                &&& db.dense(notify.parent_run_id) ==> after.dense(notify.parent_run_id)
                &&& notify.parent_run_id != run_id ==> after.runnable.contains_key(
                    notify.parent_run_id,
                )
            }
            &&& forall|other: Seq<char>|
                other != run_id && !#[trigger] starts_run(commit.new_children, other) ==> {
                    &&& after.events(other) == db.events(other) + notice(commit, other)
                    &&& after.executions.contains_key(other) == db.executions.contains_key(other)
                    &&& after.executions[other] == db.executions[other]
                    &&& notice(commit, other).len() == 0 ==> {
                        &&& after.history(other) == db.history(other)
                        &&& after.runnable.contains_key(other) == db.runnable.contains_key(other)
                        &&& after.runnable[other] == db.runnable[other]
                    }
                }
            &&& db.one_run_each() ==> after.one_run_each()
        }),
{
    lemma_turn_in_parts(db, run_id, commit, last_event_id, parent_last_event_id, now);
    let place = place_before_notice(run_id, commit, last_event_id, parent_last_event_id);
    let d1 = db.after_all(event_writes(run_id, last_event_id, commit.events, now));
    let d2 = d1.after_all(task_writes(run_id, commit.new_tasks));
    let d3 = d2.after_all(timer_writes(run_id, commit.new_timers));
    let d4 = d3.after_all(child_writes(run_id, commit.new_children, now));
    let d5 = d4.after_all(notify_writes(commit.parent_notify, place, now));
    let d6 = d5.after_all(closing_writes(run_id, commit.status, commit.result));
    lemma_event_writes(db, run_id, last_event_id, commit.events, now);
    lemma_task_writes(d1, run_id, commit.new_tasks);
    lemma_timer_writes(d2, run_id, commit.new_timers);
    assert forall|r: Seq<char>| #[trigger] d3.history(r) == d1.history(r) by {}
    assert forall|r: Seq<char>, w: Seq<char>| #[trigger] d3.runs(r, w) == db.runs(r, w) by {}
    assert(ids_are_new(d3, commit.new_children)) by {
        assert forall|i: int| 0 <= i < commit.new_children.len() implies {
            &&& !d3.executions.contains_key((#[trigger] commit.new_children[i]).child_run_id)
            &&& d3.history(commit.new_children[i].child_run_id).len() == 0
            &&& !d3.holds_workflow(commit.new_children[i].child_workflow_id)
        } by {
            let child = commit.new_children[i];
            assert(child.child_run_id != run_id);
            assert(d1.history(child.child_run_id) == db.history(child.child_run_id));
            assert(!db.holds_workflow(child.child_workflow_id));
            assert forall|r: Seq<char>| !#[trigger] d3.runs(r, child.child_workflow_id) by {
                assert(!db.runs(r, child.child_workflow_id));
            }
        }
    }
    lemma_child_writes(d3, run_id, commit.new_children, now);
    assert(!starts_run(commit.new_children, run_id));
    assert(d4.history(run_id) == d1.history(run_id));
    assert(d4.executions.contains_key(run_id));
    assert(d4.events(run_id) == d1.events(run_id));
    assert forall|r: Seq<char>|
        r != run_id && !#[trigger] starts_run(commit.new_children, r) implies d4.history(r)
        == db.history(r) && d4.events(r) == db.events(r) by {
        assert(d1.history(r) == db.history(r));
    }
    if commit.parent_notify is Some {
        let parent = commit.parent_notify->0.parent_run_id;
        if parent == run_id {
            assert(d4.last_event_id(parent) == place);
        } else if starts_run(commit.new_children, parent) {
            let i = choose|i: int|
                0 <= i < commit.new_children.len() && (
                #[trigger] commit.new_children[i]).child_run_id == parent;
            assert(db.history(commit.new_children[i].child_run_id).len() == 0);
            assert(d4.events(commit.new_children[i].child_run_id).len() == 1);
            assert(d4.last_event_id(parent) == 1);
            assert(place == 1);
        } else {
            assert(d4.last_event_id(parent) == place);
        }
    }
    lemma_notify_writes(d4, commit.parent_notify, place, now);
    lemma_closing_writes(d5, run_id, commit.status, commit.result);
    assert forall|r: Seq<char>| #[trigger] d6.history(r) == d5.history(r) by {}
    assert forall|r: Seq<char>| #[trigger] d6.events(r) == d4.events(r) + notice(commit, r) by {
        if notice(commit, r).len() == 0 {
            assert(d5.history(r) == d4.history(r));
            assert(d4.events(r) + notice(commit, r) =~= d4.events(r));
            assert(d6.events(r) == d5.events(r));
        } else {
            assert(d5.events(r) =~= d4.events(r) + notice(commit, r));
            assert(d6.events(r) == d5.events(r));
        }
    }
    assert forall|i: int| 0 <= i < commit.new_children.len() implies is_born(
        d6,
        run_id,
        #[trigger] commit.new_children[i],
    ) by {
        let child = commit.new_children[i];
        assert(is_born(d4, run_id, child));
        if notice(commit, child.child_run_id).len() == 0 {
            assert(d5.history(child.child_run_id) == d4.history(child.child_run_id));
        }
        assert(d6.history(child.child_run_id) == d5.history(child.child_run_id));
        assert(d6.dense(child.child_run_id));
    }
    assert forall|other: Seq<char>|
        other != run_id && !#[trigger] starts_run(commit.new_children, other) && notice(
            commit,
            other,
        ).len() == 0 implies d6.history(other) == db.history(other) by {
        assert(d6.history(other) == d5.history(other));
        assert(d5.history(other) == d4.history(other));
    }
    if notice(commit, run_id).len() == 0 {
        assert(d5.history(run_id) == d4.history(run_id));
    }
    assert(d6.history(run_id) == d5.history(run_id));
    if commit.parent_notify is Some {
        let parent = commit.parent_notify->0.parent_run_id;
        assert(d6.history(parent) == d5.history(parent));
        if parent != run_id && !starts_run(commit.new_children, parent) {
            assert(d4.history(parent) == db.history(parent));
        }
    }
    if db.one_run_each() {
        assert(d3.one_run_each());
        assert(d4.one_run_each());
        assert forall|r: Seq<char>, w: Seq<char>| #[trigger] d6.runs(r, w) == d4.runs(r, w) by {}
        assert(d6.one_run_each());
    }
}

/// Whether the workflow ids of runs are new depends on the runs alone.
proof fn lemma_same_workflows(a: Db, b: Db)
    requires
        a.executions == b.executions,
    ensures
        forall|workflow_id: Seq<char>| #[trigger]
            a.holds_workflow(workflow_id) == b.holds_workflow(workflow_id),
{
    assert forall|workflow_id: Seq<char>| #[trigger]
        a.holds_workflow(workflow_id) == b.holds_workflow(workflow_id) by {
        if a.holds_workflow(workflow_id) {
            let r = choose|r: Seq<char>| #[trigger] a.runs(r, workflow_id);
            assert(b.runs(r, workflow_id));
        }
        if b.holds_workflow(workflow_id) {
            let r = choose|r: Seq<char>| #[trigger] b.runs(r, workflow_id);
            assert(a.runs(r, workflow_id));
        }
    }
}

/// Tasks, timers, standings and marks are never refused.
proof fn lemma_takes_the_rest(db: Db, writes: Seq<WriteView>)
    requires
        forall|i: int|
            0 <= i < writes.len() ==> !((#[trigger] writes[i]) is InsertExecution) && !(
            writes[i] is AppendEvent),
    ensures
        db.takes(writes),
{
    reveal(Db::accepts);
}

/// The events of a turn are taken.
proof fn lemma_takes_events(
    db: Db,
    run_id: Seq<char>,
    last_event_id: i64,
    events: Seq<EventView>,
    now: i64,
)
    requires
        db.dense(run_id),
        db.last_event_id(run_id) == last_event_id,
        last_event_id + events.len() < i64::MAX,
    ensures
        db.takes(event_writes(run_id, last_event_id, events, now)),
    decreases events.len(),
{
    let writes = event_writes(run_id, last_event_id, events, now);
    if events.len() > 0 {
        let before = events.drop_last();
        assert(writes.drop_last() =~= event_writes(run_id, last_event_id, before, now));
        lemma_takes_events(db, run_id, last_event_id, before, now);
        lemma_event_writes(db, run_id, last_event_id, before, now);
        lemma_takes_last(db, writes);
        reveal(Db::accepts);
    }
}

/// The births of a turn's children are taken if, and only if, their ids are new and
/// tell them apart.
proof fn lemma_takes_children(db: Db, run_id: Seq<char>, children: Seq<NewChildView>, now: i64)
    requires
        db.all_dense(),
    ensures
        db.takes(child_writes(run_id, children, now)) <==> ids_are_new(db, children),
    decreases children.len(),
{
    let writes = child_writes(run_id, children, now);
    if children.len() > 0 {
        let before = children.drop_last();
        let child = children.last();
        let last = children.len() - 1;
        let earlier = child_writes(run_id, before, now);
        let born = birth(
            child.child_run_id,
            child.child_workflow_id,
            child.workflow_type,
            Some(run_id),
            Some(child.seq),
            child.input,
            now,
        );
        let mid = db.after_all(earlier);
        lemma_takes_children(db, run_id, before, now);
        lemma_takes_both(db, earlier, born);
        if ids_are_new(db, children) {
            assert forall|i: int| 0 <= i < before.len() implies {
                &&& !db.executions.contains_key((#[trigger] before[i]).child_run_id)
                &&& db.history(before[i].child_run_id).len() == 0
                &&& !db.holds_workflow(before[i].child_workflow_id)
            } by {
                assert(before[i] == children[i]);
            }
            assert forall|i: int, j: int| 0 <= i < j < before.len() implies {
                &&& (#[trigger] before[i]).child_run_id != (#[trigger] before[j]).child_run_id
                &&& before[i].child_workflow_id != before[j].child_workflow_id
            } by {
                assert(children[i].child_run_id != children[j].child_run_id);
            }
            assert(ids_are_new(db, before));
        }
        if ids_are_new(db, before) {
            lemma_child_writes(db, run_id, before, now);
            assert(mid.dense(child.child_run_id)) by {
                if starts_run(before, child.child_run_id) {
                    let i = choose|i: int|
                        0 <= i < before.len() && (#[trigger] before[i]).child_run_id
                            == child.child_run_id;
                    assert(is_born(mid, run_id, before[i]));
                } else {
                    assert(db.dense(child.child_run_id));
                }
            }
            lemma_takes_birth(
                mid,
                child.child_run_id,
                child.child_workflow_id,
                child.workflow_type,
                Some(run_id),
                Some(child.seq),
                child.input,
                now,
            );
            if ids_are_new(db, children) {
                assert forall|i: int| 0 <= i < before.len() implies (
                #[trigger] before[i]).child_run_id != child.child_run_id
                    && before[i].child_workflow_id != child.child_workflow_id by {
                    assert(before[i] == children[i]);
                    assert(children[i].child_run_id != children[last].child_run_id);
                }
                assert(!starts_run(before, child.child_run_id));
                assert(!db.executions.contains_key(children[last].child_run_id));
                assert forall|r: Seq<char>| !#[trigger] mid.runs(r, child.child_workflow_id) by {
                    if starts_run(before, r) {
                        let i = choose|i: int|
                            0 <= i < before.len() && (#[trigger] before[i]).child_run_id == r;
                        assert(is_born(mid, run_id, before[i]));
                    } else {
                        assert(!db.holds_workflow(children[last].child_workflow_id));
                        assert(!db.runs(r, child.child_workflow_id));
                    }
                }
                assert(!mid.holds_workflow(child.child_workflow_id));
            }
            if mid.takes(born) {
                assert forall|i: int| 0 <= i < before.len() implies (
                #[trigger] before[i]).child_run_id != child.child_run_id
                    && before[i].child_workflow_id != child.child_workflow_id by {
                    assert(is_born(mid, run_id, before[i]));
                    if before[i].child_workflow_id == child.child_workflow_id {
                        assert(mid.runs(before[i].child_run_id, child.child_workflow_id));
                    }
                }
                assert(!starts_run(before, child.child_run_id));
                assert(!db.holds_workflow(child.child_workflow_id)) by {
                    assert forall|r: Seq<char>| !#[trigger] db.runs(
                        r,
                        child.child_workflow_id,
                    ) by {
                        if db.runs(r, child.child_workflow_id) {
                            assert(!starts_run(before, r)) by {
                                if starts_run(before, r) {
                                    let i = choose|i: int|
                                        0 <= i < before.len() && (
                                        #[trigger] before[i]).child_run_id == r;
                                    assert(!db.executions.contains_key(before[i].child_run_id));
                                }
                            }
                            assert(mid.runs(r, child.child_workflow_id));
                        }
                    }
                }
                assert forall|i: int| 0 <= i < children.len() implies {
                    &&& !db.executions.contains_key((#[trigger] children[i]).child_run_id)
                    &&& db.history(children[i].child_run_id).len() == 0
                    &&& !db.holds_workflow(children[i].child_workflow_id)
                } by {
                    if i < last {
                        assert(before[i] == children[i]);
                    }
                }
                assert forall|i: int, j: int| 0 <= i < j < children.len() implies {
                    &&& (#[trigger] children[i]).child_run_id != (
                    #[trigger] children[j]).child_run_id
                    &&& children[i].child_workflow_id != children[j].child_workflow_id
                } by {
                    assert(before[i] == children[i]);
                    if j < last {
                        assert(before[j] == children[j]);
                    }
                }
                assert(ids_are_new(db, children));
            }
        }
    }
}

/// A turn is taken if its parts are, one after the other.
proof fn lemma_turn_taken_in_parts(
    db: Db,
    run_id: Seq<char>,
    commit: TurnCommitView,
    last_event_id: i64,
    parent_last_event_id: i64,
    now: i64,
)
    ensures
        ({
            let place = place_before_notice(run_id, commit, last_event_id, parent_last_event_id);
            let w1 = event_writes(run_id, last_event_id, commit.events, now);
            let w2 = task_writes(run_id, commit.new_tasks);
            let w3 = timer_writes(run_id, commit.new_timers);
            let w4 = child_writes(run_id, commit.new_children, now);
            let w5 = notify_writes(commit.parent_notify, place, now);
            let w6 = closing_writes(run_id, commit.status, commit.result);
            let d1 = db.after_all(w1);
            let d2 = d1.after_all(w2);
            let d3 = d2.after_all(w3);
            let d4 = d3.after_all(w4);
            let d5 = d4.after_all(w5);
            db.takes(turn_writes(run_id, commit, last_event_id, parent_last_event_id, now)) <==> {
                &&& db.takes(w1)
                &&& d1.takes(w2)
                &&& d2.takes(w3)
                &&& d3.takes(w4)
                &&& d4.takes(w5)
                &&& d5.takes(w6)
            }
        }),
{
    let place = place_before_notice(run_id, commit, last_event_id, parent_last_event_id);
    let w1 = event_writes(run_id, last_event_id, commit.events, now);
    let w2 = task_writes(run_id, commit.new_tasks);
    let w3 = timer_writes(run_id, commit.new_timers);
    let w4 = child_writes(run_id, commit.new_children, now);
    let w5 = notify_writes(commit.parent_notify, place, now);
    let w6 = closing_writes(run_id, commit.status, commit.result);
    lemma_after_both(db, w1, w2);
    lemma_after_both(db, w1 + w2, w3);
    lemma_after_both(db, w1 + w2 + w3, w4);
    lemma_after_both(db, w1 + w2 + w3 + w4, w5);
    lemma_takes_both(db, w1, w2);
    lemma_takes_both(db, w1 + w2, w3);
    lemma_takes_both(db, w1 + w2 + w3, w4);
    lemma_takes_both(db, w1 + w2 + w3 + w4, w5);
    lemma_takes_both(db, w1 + w2 + w3 + w4 + w5, w6);
}

/// The notice to the parent is taken, once the children are born.
proof fn lemma_takes_notice(
    db: Db,
    run_id: Seq<char>,
    commit: TurnCommitView,
    last_event_id: i64,
    parent_last_event_id: i64,
    now: i64,
    d3: Db,
)
    requires
        db.executions.contains_key(run_id),
        last_event_id + commit.events.len() < i64::MAX,
        commit.parent_notify matches Some(notify) ==> {
            &&& db.last_event_id(notify.parent_run_id) == parent_last_event_id
            &&& parent_last_event_id < i64::MAX
        },
        ids_are_new(db, commit.new_children),
        ids_are_new(d3, commit.new_children),
        d3.all_dense(),
        d3.last_event_id(run_id) == last_event_id + commit.events.len(),
        forall|r: Seq<char>| r != run_id ==> #[trigger] d3.history(r) == db.history(r),
    ensures
        d3.after_all(child_writes(run_id, commit.new_children, now)).takes(
            notify_writes(
                commit.parent_notify,
                place_before_notice(run_id, commit, last_event_id, parent_last_event_id),
                now,
            ),
        ),
{
    let place = place_before_notice(run_id, commit, last_event_id, parent_last_event_id);
    let d4 = d3.after_all(child_writes(run_id, commit.new_children, now));
    lemma_child_writes(d3, run_id, commit.new_children, now);
    if commit.parent_notify is Some {
        let notify = commit.parent_notify->0;
        let parent = notify.parent_run_id;
        assert(!starts_run(commit.new_children, run_id));
        if starts_run(commit.new_children, parent) {
            let i = choose|i: int|
                0 <= i < commit.new_children.len() && (
                #[trigger] commit.new_children[i]).child_run_id == parent;
            assert(is_born(d4, run_id, commit.new_children[i]));
            assert(db.history(commit.new_children[i].child_run_id).len() == 0);
            assert(d4.events(commit.new_children[i].child_run_id).len() == 1);
            assert(d4.last_event_id(parent) == place);
        } else {
            assert(d4.history(parent) == d3.history(parent));
            assert(d3.dense(parent));
            assert(d4.last_event_id(parent) == place);
        }
        assert(d4.dense(parent));
        lemma_takes_arrival(d4, parent, place, notify.event, now);
    }
}

/// A turn is taken whole or refused whole: it is taken if the run ids and the workflow
/// ids of its children are new to the store and tell the children apart, and refused
/// if not.
pub proof fn turn_is_taken_or_refused(
    db: Db,
    run_id: Seq<char>,
    commit: TurnCommitView,
    last_event_id: i64,
    parent_last_event_id: i64,
    now: i64,
)
    requires
        db.all_dense(),
        db.executions.contains_key(run_id),
        db.last_event_id(run_id) == last_event_id,
        last_event_id + commit.events.len() < i64::MAX,
        commit.parent_notify matches Some(notify) ==> {
            &&& db.last_event_id(notify.parent_run_id) == parent_last_event_id
            &&& parent_last_event_id < i64::MAX
        },
    ensures
        db.takes(turn_writes(run_id, commit, last_event_id, parent_last_event_id, now))
            <==> ids_are_new(db, commit.new_children),
{
    let w1 = event_writes(run_id, last_event_id, commit.events, now);
    let w2 = task_writes(run_id, commit.new_tasks);
    let w3 = timer_writes(run_id, commit.new_timers);
    let w4 = child_writes(run_id, commit.new_children, now);
    let w6 = closing_writes(run_id, commit.status, commit.result);
    let d1 = db.after_all(w1);
    let d2 = d1.after_all(w2);
    let d3 = d2.after_all(w3);
    lemma_turn_taken_in_parts(db, run_id, commit, last_event_id, parent_last_event_id, now);
    assert(db.dense(run_id));
    lemma_takes_events(db, run_id, last_event_id, commit.events, now);
    lemma_event_writes(db, run_id, last_event_id, commit.events, now);
    lemma_task_writes(d1, run_id, commit.new_tasks);
    lemma_timer_writes(d2, run_id, commit.new_timers);
    lemma_takes_the_rest(d1, w2);
    lemma_takes_the_rest(d2, w3);
    let place = place_before_notice(run_id, commit, last_event_id, parent_last_event_id);
    lemma_takes_the_rest(
        d3.after_all(w4).after_all(notify_writes(commit.parent_notify, place, now)),
        w6,
    );
    assert forall|r: Seq<char>| r != run_id implies #[trigger] d3.history(r) == db.history(r) by {
        assert(d3.history(r) == d1.history(r));
        assert(d1.history(r) == db.history(r));
    }
    assert(d3.history(run_id) == d1.history(run_id));
    assert(d3.all_dense()) by {
        assert forall|r: Seq<char>| #[trigger] d3.dense(r) by {
            assert(db.dense(r));
            if r == run_id {
                assert(d1.dense(r));
            } else {
                assert(d3.history(r) == db.history(r));
            }
        }
    }
    lemma_same_workflows(d3, db);
    lemma_takes_children(d3, run_id, commit.new_children, now);
    lemma_new_to_both(db, d3, run_id, commit.new_children);
    if ids_are_new(db, commit.new_children) {
        lemma_takes_notice(
            db,
            run_id,
            commit,
            last_event_id,
            parent_last_event_id,
            now,
            d3,
        );
    }
}

/// Ids are new to both of two stores that differ in the history of one run at most.
proof fn lemma_new_to_both(a: Db, b: Db, run_id: Seq<char>, children: Seq<NewChildView>)
    requires
        a.executions == b.executions,
        a.executions.contains_key(run_id),
        forall|r: Seq<char>| r != run_id ==> #[trigger] b.history(r) == a.history(r),
    ensures
        ids_are_new(a, children) <==> ids_are_new(b, children),
{
    lemma_same_workflows(a, b);
    if ids_are_new(a, children) {
        assert forall|i: int| 0 <= i < children.len() implies {
            &&& !b.executions.contains_key((#[trigger] children[i]).child_run_id)
            &&& b.history(children[i].child_run_id).len() == 0
            &&& !b.holds_workflow(children[i].child_workflow_id)
        } by {
            assert(b.history(children[i].child_run_id) == a.history(children[i].child_run_id));
            assert(!a.holds_workflow(children[i].child_workflow_id));
        }
    }
    if ids_are_new(b, children) {
        assert forall|i: int| 0 <= i < children.len() implies {
            &&& !a.executions.contains_key((#[trigger] children[i]).child_run_id)
            &&& a.history(children[i].child_run_id).len() == 0
            &&& !a.holds_workflow(children[i].child_workflow_id)
        } by {
            assert(b.history(children[i].child_run_id) == a.history(children[i].child_run_id));
            assert(!b.holds_workflow(children[i].child_workflow_id));
        }
    }
}

/// A task that is handed out is counted as one more attempt, and is not pending; one
/// that is taken back from its worker can be handed out again, at the time it was
/// due before, and keeps the count. Nothing else changes.
pub proof fn lost_task_is_tried_again(
    db: Db,
    run_id: Seq<char>,
    seq: i64,
    attempt: i64,
    lease_expires_at: i64,
)
    requires
        db.tasks.contains_key((run_id, seq)),
    ensures
        ({
            let key = (run_id, seq);
            let leased = db.after(
                WriteView::LeaseTask { run_id, seq, attempt, lease_expires_at },
            );
            &&& leased == (Db {
                tasks: db.tasks.insert(
                    key,
                    TaskRow {
                        attempt,
                        status: TaskStatus::Running,
                        lease_expires_at: Some(lease_expires_at),
                        ..db.tasks[key]
                    },
                ),
                ..db
            })
            &&& leased.after(WriteView::ReleaseTask { run_id, seq }) == (Db {
                tasks: db.tasks.insert(
                    key,
                    TaskRow {
                        attempt,
                        status: TaskStatus::Pending,
                        lease_expires_at: None,
                        ..db.tasks[key]
                    },
                ),
                ..db
            })
        }),
{
    let key = (run_id, seq);
    let leased = db.after(WriteView::LeaseTask { run_id, seq, attempt, lease_expires_at });
    let back = leased.after(WriteView::ReleaseTask { run_id, seq });
    assert(back.tasks =~= db.tasks.insert(key, back.tasks[key]));
}

/// Whether `rows` are the tasks that wait for a worker.
pub open spec fn lists_pending(db: Db, rows: Seq<Waiting>) -> bool {
    &&& forall|i: int|
        0 <= i < rows.len() ==> db.is_pending(
            ((#[trigger] rows[i]).run_id@, rows[i].seq),
            rows[i].at,
        )
    &&& forall|key: (Seq<char>, i64), at: i64| #[trigger]
        db.is_pending(key, at) ==> exists|i: int|
            0 <= i < rows.len() && key == ((#[trigger] rows[i]).run_id@, rows[i].seq) && at
                == rows[i].at
}

/// Only a task that waits for a worker and is due is handed out, and none that was
/// due before it waits; if none is handed out, none is due.
pub proof fn due_tasks_are_handed_out(
    db: Db,
    rows: Seq<Waiting>,
    now: i64,
    due: Option<(Seq<char>, i64)>,
)
    requires
        lists_pending(db, rows),
        is_next_due(rows, now, due),
    ensures
        match due {
            Some(key) => {
                &&& db.tasks[key].next_run_at <= now
                &&& db.is_pending(key, db.tasks[key].next_run_at)
                &&& forall|other: (Seq<char>, i64), at: i64| #[trigger]
                    db.is_pending(other, at) ==> db.tasks[key].next_run_at <= at
            },
            None => forall|other: (Seq<char>, i64), at: i64| #[trigger]
                db.is_pending(other, at) ==> now < at,
        },
{
    match due {
        Some(key) => {
            let i = choose|i: int|
                {
                    &&& #[trigger] is_earliest(times(rows), i)
                    &&& rows[i].at <= now
                    &&& key.0 == rows[i].run_id@
                    &&& key.1 == rows[i].seq
                };
            assert(times(rows)[i] == rows[i].at);
            assert(db.is_pending((rows[i].run_id@, rows[i].seq), rows[i].at));
            assert(key == (rows[i].run_id@, rows[i].seq));
            assert forall|other: (Seq<char>, i64), at: i64| #[trigger]
                db.is_pending(other, at) implies db.tasks[key].next_run_at <= at by {
                let j = choose|j: int|
                    0 <= j < rows.len() && other == ((#[trigger] rows[j]).run_id@, rows[j].seq)
                        && at == rows[j].at;
                assert(times(rows)[j] == rows[j].at);
            }
        },
        None => {},
    }
}

/// Whether a write makes a task wait for a worker: it is put in, put back for another
/// attempt, or taken from its worker.
pub open spec fn gives_back(write: WriteView, key: (Seq<char>, i64)) -> bool {
    match write {
        WriteView::PutTask { run_id, seq, .. } => key == (run_id, seq),
        WriteView::RequeueTask { run_id, seq, .. } => key == (run_id, seq),
        WriteView::ReleaseTask { run_id, seq } => key == (run_id, seq),
        _ => false,
    }
}

/// A task that a worker has, or that is done, stays so until it is given back.
proof fn lemma_task_is_kept(db: Db, writes: Seq<WriteView>, key: (Seq<char>, i64))
    requires
        db.tasks.contains_key(key),
        !(db.tasks[key].status is Pending),
        forall|i: int| 0 <= i < writes.len() ==> !gives_back(#[trigger] writes[i], key),
    ensures
        db.after_all(writes).tasks.contains_key(key),
        !(db.after_all(writes).tasks[key].status is Pending),
    decreases writes.len(),
{
    if writes.len() > 0 {
        let before = writes.drop_last();
        assert forall|i: int| 0 <= i < before.len() implies !gives_back(
            #[trigger] before[i],
            key,
        ) by {
            assert(before[i] == writes[i]);
        }
        lemma_task_is_kept(db, before, key);
        assert(!gives_back(writes[writes.len() - 1], key));
    }
}

/// A task is with one worker at a time: once it has been handed out, it is not handed
/// out again, whatever else is written, before it is put back for another attempt or
/// taken from its worker.
pub proof fn leased_task_is_with_one_worker(
    db: Db,
    run_id: Seq<char>,
    seq: i64,
    attempt: i64,
    lease_expires_at: i64,
    writes: Seq<WriteView>,
    rows: Seq<Waiting>,
    now: i64,
    due: (Seq<char>, i64),
)
    requires
        db.tasks.contains_key((run_id, seq)),
        forall|i: int| 0 <= i < writes.len() ==> !gives_back(#[trigger] writes[i], (run_id, seq)),
        lists_pending(
            db.after(
                WriteView::LeaseTask { run_id, seq, attempt, lease_expires_at },
            ).after_all(writes),
            rows,
        ),
        is_next_due(rows, now, Some(due)),
    ensures
        due != (run_id, seq),
{
    let leased = db.after(WriteView::LeaseTask { run_id, seq, attempt, lease_expires_at });
    lemma_task_is_kept(leased, writes, (run_id, seq));
    due_tasks_are_handed_out(leased.after_all(writes), rows, now, Some(due));
}

} // verus!
