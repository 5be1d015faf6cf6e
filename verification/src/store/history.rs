//! Creating runs, committing turns and taking in signals.
use crate::bytes::{copy_bytes, copy_opt_bytes};
use crate::engine::types::{
    child_views, opt_text, status_text_is_unambiguous, task_views, CreateOutcome, ExecStatus,
    NewActivityTaskView, NewChild, NewChildView, NewTimer, ParentNotifyView, SignalOutcome,
    TurnCommit, TurnCommitView,
};
use crate::store::write::{lemma_write_pushed, write_views, Write, WriteView};
use crate::workflow::event::{event_views, Event, EventView};
use vstd::prelude::*;
use vstd::string::*;

verus! {

/// What starts a run: it is inserted, its history starts with its input, and it has
/// something new.
pub open spec fn birth(
    run_id: Seq<char>,
    workflow_id: Seq<char>,
    workflow_type: Seq<char>,
    parent_run_id: Option<Seq<char>>,
    parent_seq: Option<i64>,
    input: Seq<u8>,
    now: i64,
) -> Seq<WriteView> {
    seq![
        WriteView::InsertExecution {
            run_id,
            workflow_id,
            workflow_type,
            parent_run_id,
            parent_seq,
            input,
        },
        WriteView::AppendEvent {
            run_id,
            event_id: 1,
            event: EventView::WorkflowStarted { input },
            ts: now,
        },
        WriteView::MarkRunnable { run_id, since: now },
    ]
}

/// What adds an inbound event or an outcome to a run's history.
pub open spec fn arrival(
    run_id: Seq<char>,
    last_event_id: i64,
    event: EventView,
    now: i64,
) -> Seq<WriteView> {
    seq![
        WriteView::AppendEvent { run_id, event_id: (last_event_id + 1) as i64, event, ts: now },
        WriteView::MarkRunnable { run_id, since: now },
    ]
}

/// What starting a run writes: its birth, unless there is a run of that workflow id.
pub open spec fn creation_writes(
    candidate_run_id: Seq<char>,
    workflow_id: Seq<char>,
    workflow_type: Seq<char>,
    input: Seq<u8>,
    existing: Option<Seq<char>>,
    now: i64,
) -> Seq<WriteView> {
    match existing {
        Some(_) => Seq::empty(),
        None => birth(candidate_run_id, workflow_id, workflow_type, None, None, input, now),
    }
}

/// The run that starting a run comes to: the one that there is, or the new one.
pub open spec fn started_run(candidate_run_id: Seq<char>, existing: Option<Seq<char>>) -> Seq<
    char,
> {
    match existing {
        Some(run_id) => run_id,
        None => candidate_run_id,
    }
}

/// Starts a run, or finds the run that there is. `existing` is the run of that
/// workflow id, if there is one.
pub fn create_execution(
    candidate_run_id: &str,
    workflow_id: &str,
    workflow_type: &str,
    input: &Vec<u8>,
    existing: Option<String>,
    now: i64,
) -> (created: (CreateOutcome, String, Vec<Write>))
    ensures
        created.0 == match existing {
            Some(_) => CreateOutcome::AlreadyExists,
            None => CreateOutcome::Created,
        },
        created.1@ == started_run(candidate_run_id@, opt_text(existing)),
        write_views(created.2@) == creation_writes(
            candidate_run_id@,
            workflow_id@,
            workflow_type@,
            input@,
            opt_text(existing),
            now,
        ),
{
    match existing {
        Some(run_id) => {
            let writes: Vec<Write> = Vec::new();
            assert(write_views(writes@) =~= Seq::empty());
            (CreateOutcome::AlreadyExists, run_id, writes)
        },
        None => {
            let mut writes: Vec<Write> = Vec::new();
            assert(write_views(writes@) =~= Seq::empty());
            push_birth(
                &mut writes,
                candidate_run_id,
                workflow_id,
                workflow_type,
                None,
                None,
                input,
                now,
            );
            assert(write_views(writes@) =~= birth(
                candidate_run_id@,
                workflow_id@,
                workflow_type@,
                None,
                None,
                input@,
                now,
            ));
            (CreateOutcome::Created, String::from_str(candidate_run_id), writes)
        },
    }
}

fn push(writes: &mut Vec<Write>, w: Write)
    ensures
        write_views(final(writes)@) == write_views(old(writes)@).push(w@),
{
    proof {
        lemma_write_pushed(writes@, w);
    }
    writes.push(w);
}

fn push_birth(
    writes: &mut Vec<Write>,
    run_id: &str,
    workflow_id: &str,
    workflow_type: &str,
    parent_run_id: Option<String>,
    parent_seq: Option<i64>,
    input: &Vec<u8>,
    now: i64,
)
    ensures
        write_views(final(writes)@) == write_views(old(writes)@) + birth(
            run_id@,
            workflow_id@,
            workflow_type@,
            opt_text(parent_run_id),
            parent_seq,
            input@,
            now,
        ),
{
    push(
        writes,
        Write::InsertExecution {
            run_id: String::from_str(run_id),
            workflow_id: String::from_str(workflow_id),
            workflow_type: String::from_str(workflow_type),
            parent_run_id,
            parent_seq,
            input: copy_bytes(input),
        },
    );
    push(
        writes,
        Write::AppendEvent {
            run_id: String::from_str(run_id),
            event_id: 1,
            event: Event::WorkflowStarted { input: copy_bytes(input) },
            ts: now,
        },
    );
    push(writes, Write::MarkRunnable { run_id: String::from_str(run_id), since: now });
    assert(write_views(writes@) =~= write_views(old(writes)@) + birth(
        run_id@,
        workflow_id@,
        workflow_type@,
        opt_text(parent_run_id),
        parent_seq,
        input@,
        now,
    ));
}

/// Adds an inbound event or an outcome to a run's history, whose last place is
/// `last_event_id`.
pub fn push_arrival(
    writes: &mut Vec<Write>,
    run_id: &str,
    last_event_id: i64,
    event: Event,
    now: i64,
)
    requires
        last_event_id < i64::MAX,
    ensures
        write_views(final(writes)@) == write_views(old(writes)@) + arrival(
            run_id@,
            last_event_id,
            event@,
            now,
        ),
{
    let event_id: i64 = last_event_id + 1;
    push(
        writes,
        Write::AppendEvent { run_id: String::from_str(run_id), event_id, event, ts: now },
    );
    push(writes, Write::MarkRunnable { run_id: String::from_str(run_id), since: now });
    assert(write_views(writes@) =~= write_views(old(writes)@) + arrival(
        run_id@,
        last_event_id,
        event@,
        now,
    ));
}

/// The events of a turn, at the places that follow `last_event_id`.
pub open spec fn event_writes(
    run_id: Seq<char>,
    last_event_id: i64,
    events: Seq<EventView>,
    now: i64,
) -> Seq<WriteView> {
    Seq::new(
        events.len(),
        |i: int|
            WriteView::AppendEvent {
                run_id,
                event_id: (last_event_id + 1 + i) as i64,
                event: events[i],
                ts: now,
            },
    )
}

/// The tasks of a turn.
pub open spec fn task_writes(run_id: Seq<char>, tasks: Seq<NewActivityTaskView>) -> Seq<WriteView> {
    tasks.map_values(
        |t: NewActivityTaskView|
            WriteView::PutTask {
                run_id,
                seq: t.seq,
                activity_type: t.activity_type,
                input: t.input,
                next_run_at: t.next_run_at,
            },
    )
}

/// The timers of a turn.
pub open spec fn timer_writes(run_id: Seq<char>, timers: Seq<NewTimer>) -> Seq<WriteView> {
    timers.map_values(
        |t: NewTimer| WriteView::PutTimer { run_id, seq: t.seq, fire_at: t.fire_at },
    )
}

/// The births of the children of a turn.
pub open spec fn child_writes(run_id: Seq<char>, children: Seq<NewChildView>, now: i64) -> Seq<
    WriteView,
>
    decreases children.len(),
{
    if children.len() == 0 {
        Seq::empty()
    } else {
        let child = children.last();
        child_writes(run_id, children.drop_last(), now) + birth(
            child.child_run_id,
            child.child_workflow_id,
            child.workflow_type,
            Some(run_id),
            Some(child.seq),
            child.input,
            now,
        )
    }
}

/// What a run that ends adds to the history of its parent.
pub open spec fn notify_writes(
    notify: Option<ParentNotifyView>,
    parent_last_event_id: i64,
    now: i64,
) -> Seq<WriteView> {
    match notify {
        Some(notify) => arrival(notify.parent_run_id, parent_last_event_id, notify.event, now),
        None => Seq::empty(),
    }
}

/// Where the run stands after the turn; what was new to it has been dealt with.
pub open spec fn closing_writes(
    run_id: Seq<char>,
    status: ExecStatus,
    result: Option<Seq<u8>>,
) -> Seq<WriteView> {
    seq![
        WriteView::SetStatus { run_id, status, result },
        WriteView::ClearRunnable { run_id },
    ]
}

/// Whether a turn starts a child under that run id.
pub open spec fn starts_run(children: Seq<NewChildView>, run_id: Seq<char>) -> bool {
    exists|i: int| 0 <= i < children.len() && (#[trigger] children[i]).child_run_id == run_id
}

/// The last place of the notified parent's history when the notice is written. What
/// the turn has written before it counts: the turn's own events, where the parent is
/// the run itself, and the first event of a child, where it is a child of the turn.
pub open spec fn place_before_notice(
    run_id: Seq<char>,
    commit: TurnCommitView,
    last_event_id: i64,
    parent_last_event_id: i64,
) -> i64 {
    match commit.parent_notify {
        Some(notify) => if notify.parent_run_id == run_id {
            (last_event_id + commit.events.len()) as i64
        } else if parent_last_event_id < 1 && starts_run(
            commit.new_children,
            notify.parent_run_id,
        ) {
            1
        } else {
            parent_last_event_id
        },
        None => parent_last_event_id,
    }
}

/// Everything that a turn writes.
pub open spec fn turn_writes(
    run_id: Seq<char>,
    commit: TurnCommitView,
    last_event_id: i64,
    parent_last_event_id: i64,
    now: i64,
) -> Seq<WriteView> {
    event_writes(run_id, last_event_id, commit.events, now) + task_writes(run_id, commit.new_tasks)
        + timer_writes(run_id, commit.new_timers) + child_writes(run_id, commit.new_children, now)
        + notify_writes(
        commit.parent_notify,
        place_before_notice(run_id, commit, last_event_id, parent_last_event_id),
        now,
    ) + closing_writes(run_id, commit.status, commit.result)
}

fn push_children(writes: &mut Vec<Write>, run_id: &str, children: &Vec<NewChild>, now: i64)
    ensures
        write_views(final(writes)@) == write_views(old(writes)@) + child_writes(
            run_id@,
            child_views(children@),
            now,
        ),
{
    let ghost all = child_views(children@);
    let ghost before = write_views(writes@);
    let mut i: usize = 0;
    proof {
        assert(all.take(0) =~= Seq::empty());
        assert(before + child_writes(run_id@, all.take(0), now) =~= before);
    }
    while i < children.len()
        invariant
            i <= children.len(),
            all == child_views(children@),
            write_views(writes@) == before + child_writes(run_id@, all.take(i as int), now),
        decreases children.len() - i,
    {
        let child = &children[i];
        let ghost held = write_views(writes@);
        push_birth(
            writes,
            child.child_run_id.as_str(),
            child.child_workflow_id.as_str(),
            child.workflow_type.as_str(),
            Some(String::from_str(run_id)),
            Some(child.seq),
            &child.input,
            now,
        );
        proof {
            let next = all.take(i + 1);
            assert(next.drop_last() =~= all.take(i as int));
            assert(next.last() == child@);
            assert(write_views(writes@) =~= before + child_writes(run_id@, next, now));
        }
        i = i + 1;
    }
    assert(all.take(i as int) =~= all);
}

fn starts_child(children: &Vec<NewChild>, run_id: &String) -> (starts: bool)
    ensures
        starts == starts_run(child_views(children@), run_id@),
{
    let ghost all = child_views(children@);
    let mut i: usize = 0;
    while i < children.len()
        invariant
            i <= children.len(),
            all == child_views(children@),
            forall|j: int| 0 <= j < i ==> (#[trigger] all[j]).child_run_id != run_id@,
        decreases children.len() - i,
    {
        assert(all[i as int] == children@[i as int]@);
        if children[i].child_run_id == *run_id {
            return true;
        }
        i = i + 1;
    }
    false
}

/// Everything that a turn writes. `last_event_id` is the last place of the run's
/// history, `parent_last_event_id` that of its parent's, both before the turn.
pub fn commit_turn(
    run_id: &str,
    commit: &TurnCommit,
    last_event_id: i64,
    parent_last_event_id: i64,
    now: i64,
) -> (writes: Vec<Write>)
    requires
        0 <= last_event_id,
        last_event_id + commit.events@.len() < i64::MAX,
        parent_last_event_id < i64::MAX,
    ensures
        write_views(writes@) == turn_writes(
            run_id@,
            commit@,
            last_event_id,
            parent_last_event_id,
            now,
        ),
{
    let ghost view = commit@;
    let mut writes: Vec<Write> = Vec::new();
    let mut i: usize = 0;
    let ghost part = event_writes(run_id@, last_event_id, view.events, now);
    assert(write_views(writes@) =~= part.take(0));
    while i < commit.events.len()
        invariant
            i <= commit.events.len(),
            view.events == event_views(commit.events@),
            0 <= last_event_id,
            last_event_id + commit.events@.len() < i64::MAX,
            part == event_writes(run_id@, last_event_id, view.events, now),
            write_views(writes@) == part.take(i as int),
        decreases commit.events.len() - i,
    {
        let event_id: i64 = last_event_id + 1 + i as i64;
        push(
            &mut writes,
            Write::AppendEvent {
                run_id: String::from_str(run_id),
                event_id,
                event: commit.events[i].clone(),
                ts: now,
            },
        );
        assert(write_views(writes@) =~= part.take(i + 1));
        i = i + 1;
    }
    assert(part.take(i as int) =~= part);

    let ghost before = write_views(writes@);
    let ghost part = task_writes(run_id@, view.new_tasks);
    let mut i: usize = 0;
    assert(write_views(writes@) =~= before + part.take(0));
    while i < commit.new_tasks.len()
        invariant
            i <= commit.new_tasks.len(),
            view.new_tasks == task_views(commit.new_tasks@),
            part == task_writes(run_id@, view.new_tasks),
            write_views(writes@) == before + part.take(i as int),
        decreases commit.new_tasks.len() - i,
    {
        let task = &commit.new_tasks[i];
        push(
            &mut writes,
            Write::PutTask {
                run_id: String::from_str(run_id),
                seq: task.seq,
                activity_type: task.activity_type.clone(),
                input: copy_bytes(&task.input),
                next_run_at: task.next_run_at,
            },
        );
        assert(write_views(writes@) =~= before + part.take(i + 1));
        i = i + 1;
    }
    assert(part.take(i as int) =~= part);

    let ghost before = write_views(writes@);
    let ghost part = timer_writes(run_id@, view.new_timers);
    let mut i: usize = 0;
    assert(write_views(writes@) =~= before + part.take(0));
    while i < commit.new_timers.len()
        invariant
            i <= commit.new_timers.len(),
            view.new_timers == commit.new_timers@,
            part == timer_writes(run_id@, view.new_timers),
            write_views(writes@) == before + part.take(i as int),
        decreases commit.new_timers.len() - i,
    {
        let timer = &commit.new_timers[i];
        push(
            &mut writes,
            Write::PutTimer {
                run_id: String::from_str(run_id),
                seq: timer.seq,
                fire_at: timer.fire_at,
            },
        );
        assert(write_views(writes@) =~= before + part.take(i + 1));
        i = i + 1;
    }
    assert(part.take(i as int) =~= part);

    push_children(&mut writes, run_id, &commit.new_children, now);
    match &commit.parent_notify {
        Some(notify) => {
            let place: i64 = if notify.parent_run_id == String::from_str(run_id) {
                last_event_id + commit.events.len() as i64
            } else if parent_last_event_id < 1 && starts_child(
                &commit.new_children,
                &notify.parent_run_id,
            ) {
                1
            } else {
                parent_last_event_id
            };
            assert(place == place_before_notice(
                run_id@,
                view,
                last_event_id,
                parent_last_event_id,
            ));
            push_arrival(
                &mut writes,
                notify.parent_run_id.as_str(),
                place,
                notify.event.clone(),
                now,
            );
        },
        None => {
            assert(write_views(writes@) =~= write_views(writes@) + notify_writes(
                None,
                parent_last_event_id,
                now,
            ));
        },
    }
    push(
        &mut writes,
        Write::SetStatus {
            run_id: String::from_str(run_id),
            status: commit.status,
            result: copy_opt_bytes(&commit.result),
        },
    );
    push(&mut writes, Write::ClearRunnable { run_id: String::from_str(run_id) });
    assert(write_views(writes@) =~= turn_writes(
        run_id@,
        view,
        last_event_id,
        parent_last_event_id,
        now,
    ));
    writes
}

/// Takes in a signal for a workflow. `found` is its run and the run's stored
/// status, if there is one; `last_event_id` is the last place of the run's history.
/// A signal is taken in only while the run is running.
pub fn append_signal(
    found: Option<(String, String)>,
    name: &str,
    payload: &Vec<u8>,
    last_event_id: i64,
    now: i64,
) -> (taken: (SignalOutcome, Vec<Write>))
    requires
        last_event_id < i64::MAX,
    ensures
        match found {
            None => taken.0 == SignalOutcome::WorkflowNotFound && taken.1@.len() == 0,
            Some((run_id, status)) => if status@ == ExecStatus::Running.text() {
                &&& taken.0 == SignalOutcome::Delivered
                &&& write_views(taken.1@) == arrival(
                    run_id@,
                    last_event_id,
                    EventView::SignalReceived { name: name@, payload: payload@ },
                    now,
                )
            } else {
                taken.0 == SignalOutcome::NotRunning && taken.1@.len() == 0
            },
        },
{
    match found {
        None => (SignalOutcome::WorkflowNotFound, Vec::new()),
        Some((run_id, status)) => match ExecStatus::from_str(status.as_str()) {
            Some(ExecStatus::Running) => {
                let mut writes: Vec<Write> = Vec::new();
                assert(write_views(writes@) =~= Seq::empty());
                let event = Event::SignalReceived {
                    name: String::from_str(name),
                    payload: copy_bytes(payload),
                };
                push_arrival(&mut writes, run_id.as_str(), last_event_id, event, now);
                assert(write_views(writes@) =~= arrival(run_id@, last_event_id, event@, now));
                (SignalOutcome::Delivered, writes)
            },
            Some(other) => {
                proof {
                    if status@ == ExecStatus::Running.text() {
                        status_text_is_unambiguous(
                            other,
                            ExecStatus::Running,
                        );
                    }
                }
                (SignalOutcome::NotRunning, Vec::new())
            },
            None => (SignalOutcome::NotRunning, Vec::new()),
        },
    }
}

} // verus!
