//! What a store reads out: which run, task or timer is next, and what the history
//! viewer sees.
use crate::engine::types::{opt_text, ExecStatus, ExecutionSummary, HistoryRecord};
use crate::store::write::{read_status, status_of};
use crate::workflow::event::{Event, EventView};
use vstd::prelude::*;
use vstd::seq_lib::{to_multiset_build, to_multiset_contains, to_multiset_remove};
use vstd::string::*;

verus! {

/// Whether the least of `times` stands at `i`, and not before it.
pub open spec fn is_earliest(times: Seq<i64>, i: int) -> bool {
    &&& 0 <= i < times.len()
    &&& forall|j: int| 0 <= j < times.len() ==> times[i] <= #[trigger] times[j]
    &&& forall|j: int| 0 <= j < i ==> times[i] < #[trigger] times[j]
}

/// Something of a run that waits for its time: a run that has something new in its
/// history since `at`, a task that is not to run before `at`, a timer that fires at
/// `at`. `seq` numbers tasks and timers within their run.
pub struct Waiting {
    pub run_id: String,
    pub seq: i64,
    pub at: i64,
}

/// The times of what waits.
pub open spec fn times(rows: Seq<Waiting>) -> Seq<i64> {
    rows.map_values(|row: Waiting| row.at)
}

/// The place of what has waited longest.
fn earliest(rows: &Vec<Waiting>) -> (place: Option<usize>)
    ensures
        match place {
            None => rows@.len() == 0,
            Some(i) => is_earliest(times(rows@), i as int),
        },
{
    if rows.len() == 0 {
        return None;
    }
    let mut best: usize = 0;
    let mut i: usize = 1;
    while i < rows.len()
        invariant
            1 <= i <= rows.len(),
            best < i,
            forall|j: int| 0 <= j < i ==> rows@[best as int].at <= (#[trigger] rows@[j]).at,
            forall|j: int| 0 <= j < best ==> rows@[best as int].at < (#[trigger] rows@[j]).at,
        decreases rows.len() - i,
    {
        if rows[i].at < rows[best].at {
            best = i;
        }
        i = i + 1;
    }
    assert(is_earliest(times(rows@), best as int));
    Some(best)
}

/// The run to work on next: the one that has had something new for longest.
pub fn next_runnable(runnable: &Vec<Waiting>) -> (run_id: Option<String>)
    ensures
        match run_id {
            None => runnable@.len() == 0,
            Some(run_id) => exists|i: int|
                #[trigger] is_earliest(times(runnable@), i) && run_id@ == runnable@[i].run_id@,
        },
        run_id matches Some(id) ==> exists|i: int|
            0 <= i < runnable@.len() && id@ == (#[trigger] runnable@[i]).run_id@ && forall|j: int|
                0 <= j < runnable@.len() ==> runnable@[i].at <= (#[trigger] runnable@[j]).at,
{
    match earliest(runnable) {
        None => None,
        Some(i) => {
            assert forall|j: int| 0 <= j < runnable@.len() implies runnable@[i as int].at <= (
            #[trigger] runnable@[j]).at by {
                assert(times(runnable@)[j] == runnable@[j].at);
                assert(times(runnable@)[i as int] == runnable@[i as int].at);
            }
            Some(runnable[i].run_id.clone())
        },
    }
}

/// Whether `due` is what is next at `now`: of what waits and whose time has come that
/// whose time came first, or nothing, if nothing is due.
pub open spec fn is_next_due(rows: Seq<Waiting>, now: i64, due: Option<(Seq<char>, i64)>) -> bool {
    match due {
        None => forall|i: int| 0 <= i < rows.len() ==> (#[trigger] rows[i]).at > now,
        Some((run_id, seq)) => exists|i: int|
            {
                &&& #[trigger] is_earliest(times(rows), i)
                &&& rows[i].at <= now
                &&& run_id == rows[i].run_id@
                &&& seq == rows[i].seq
            },
    }
}

/// The contents of what is due.
pub open spec fn due_view(due: Option<(String, i64)>) -> Option<(Seq<char>, i64)> {
    match due {
        Some((run_id, seq)) => Some((run_id@, seq)),
        None => None,
    }
}

/// The task to run, or the timer to fire, at `now`: of those whose time has come the
/// one whose time came first.
pub fn next_due(rows: &Vec<Waiting>, now: i64) -> (due: Option<(String, i64)>)
    ensures
        is_next_due(rows@, now, due_view(due)),
{
    match earliest(rows) {
        None => None,
        Some(i) => {
            if rows[i].at <= now {
                assert(is_earliest(times(rows@), i as int));
                Some((rows[i].run_id.clone(), rows[i].seq))
            } else {
                assert forall|j: int| 0 <= j < rows@.len() implies (#[trigger] rows@[j]).at
                    > now by {
                    assert(times(rows@)[j] == rows@[j].at);
                }
                None
            }
        },
    }
}

/// A run as it is stored, with the times of its events.
pub struct StoredRun {
    pub run_id: String,
    pub workflow_id: String,
    pub workflow_type: String,
    pub status: String,
    pub parent_run_id: Option<String>,
    pub stamps: Vec<i64>,
}

/// The contents of an [`ExecutionSummary`].
#[verifier::ext_equal]
pub struct SummaryView {
    pub run_id: Seq<char>,
    pub workflow_id: Seq<char>,
    pub workflow_type: Seq<char>,
    pub status: ExecStatus,
    pub started_at: i64,
    pub last_event_at: i64,
    pub event_count: i64,
}

impl View for ExecutionSummary {
    type V = SummaryView;

    open spec fn view(&self) -> SummaryView {
        SummaryView {
            run_id: self.run_id@,
            workflow_id: self.workflow_id@,
            workflow_type: self.workflow_type@,
            status: self.status,
            started_at: self.started_at,
            last_event_at: self.last_event_at,
            event_count: self.event_count,
        }
    }
}

/// The contents of a list of summaries.
pub open spec fn summary_views(list: Seq<ExecutionSummary>) -> Seq<SummaryView> {
    list.map_values(|s: ExecutionSummary| s@)
}

/// The least of some times.
pub open spec fn first_time(stamps: Seq<i64>) -> i64
    decreases stamps.len(),
{
    if stamps.len() <= 1 || stamps.last() < first_time(stamps.drop_last()) {
        stamps.last()
    } else {
        first_time(stamps.drop_last())
    }
}

/// The greatest of some times.
pub open spec fn last_time(stamps: Seq<i64>) -> i64
    decreases stamps.len(),
{
    if stamps.len() <= 1 || stamps.last() > last_time(stamps.drop_last()) {
        stamps.last()
    } else {
        last_time(stamps.drop_last())
    }
}

/// Whether a run is on the list: no other run has started it, and it has a history.
pub open spec fn is_listed(run: StoredRun) -> bool {
    run.parent_run_id is None && run.stamps@.len() > 0
}

/// The line of a run.
pub open spec fn summary_of(run: StoredRun) -> SummaryView {
    SummaryView {
        run_id: run.run_id@,
        workflow_id: run.workflow_id@,
        workflow_type: run.workflow_type@,
        status: status_of(run.status@),
        started_at: first_time(run.stamps@),
        last_event_at: last_time(run.stamps@),
        event_count: run.stamps@.len() as i64,
    }
}

/// The lines of the runs that are on the list.
pub open spec fn summaries(runs: Seq<StoredRun>) -> Seq<SummaryView>
    decreases runs.len(),
{
    if runs.len() == 0 {
        Seq::empty()
    } else if is_listed(runs.last()) {
        summaries(runs.drop_last()).push(summary_of(runs.last()))
    } else {
        summaries(runs.drop_last())
    }
}

/// Whether a list is in its order: what was started last comes first.
pub open spec fn newest_first(list: Seq<SummaryView>) -> bool {
    forall|i: int, j: int|
        0 <= i <= j < list.len() ==> (#[trigger] list[i]).started_at >= (
        #[trigger] list[j]).started_at
}

fn summarize(run: &StoredRun) -> (summary: ExecutionSummary)
    requires
        0 < run.stamps@.len() <= i64::MAX,
    ensures
        summary@ == summary_of(*run),
{
    let mut first: i64 = run.stamps[0];
    let mut last: i64 = run.stamps[0];
    let mut i: usize = 1;
    assert(run.stamps@.take(1).last() == first);
    while i < run.stamps.len()
        invariant
            1 <= i <= run.stamps.len(),
            first == first_time(run.stamps@.take(i as int)),
            last == last_time(run.stamps@.take(i as int)),
        decreases run.stamps.len() - i,
    {
        let stamp: i64 = run.stamps[i];
        assert(run.stamps@.take(i + 1).drop_last() =~= run.stamps@.take(i as int));
        if stamp < first {
            first = stamp;
        }
        if stamp > last {
            last = stamp;
        }
        i = i + 1;
    }
    assert(run.stamps@.take(i as int) =~= run.stamps@);
    ExecutionSummary {
        run_id: run.run_id.clone(),
        workflow_id: run.workflow_id.clone(),
        workflow_type: run.workflow_type.clone(),
        status: read_status(run.status.as_str()),
        started_at: first,
        last_event_at: last,
        event_count: run.stamps.len() as i64,
    }
}

/// One more element, wherever it goes, is one more of it.
proof fn lemma_inserted<A>(s: Seq<A>, i: int, a: A)
    requires
        0 <= i <= s.len(),
    ensures
        s.insert(i, a).to_multiset() == s.to_multiset().insert(a),
{
    let t = s.insert(i, a);
    assert(t.remove(i) =~= s);
    to_multiset_remove(t, i);
    assert(t[i] == a);
    assert(t.contains(a));
    to_multiset_contains(t, a);
    assert(t.to_multiset() =~= s.to_multiset().insert(a));
}

/// Puts a line in its place: after those that are not older.
fn place(list: &mut Vec<ExecutionSummary>, summary: ExecutionSummary)
    requires
        newest_first(summary_views(old(list)@)),
    ensures
        newest_first(summary_views(final(list)@)),
        summary_views(final(list)@).to_multiset() == summary_views(
            old(list)@,
        ).to_multiset().insert(summary@),
{
    let ghost before = summary_views(list@);
    let mut i: usize = 0;
    while i < list.len() && list[i].started_at >= summary.started_at
        invariant
            i <= list.len(),
            before == summary_views(list@),
            forall|j: int|
                0 <= j < i ==> (#[trigger] before[j]).started_at >= summary.started_at,
        decreases list.len() - i,
    {
        assert(before[i as int] == list@[i as int]@);
        i = i + 1;
    }
    let ghost s = summary@;
    proof {
        if i < list.len() {
            assert(before[i as int] == list@[i as int]@);
        }
    }
    list.insert(i, summary);
    proof {
        let after = summary_views(list@);
        assert(after =~= before.insert(i as int, s));
        lemma_inserted(before, i as int, s);
        assert forall|j: int, k: int| 0 <= j <= k < after.len() implies (
        #[trigger] after[j]).started_at >= (#[trigger] after[k]).started_at by {
            if j < i && k == i {
                assert(before[j].started_at >= s.started_at);
            } else if j == i && k > i {
                assert(before[i as int].started_at >= before[k - 1].started_at);
            } else if j < i && k > i {
                assert(before[j].started_at >= before[k - 1].started_at);
            } else if j > i {
                assert(before[j - 1].started_at >= before[k - 1].started_at);
            }
        }
    }
}

/// The list of runs: those that no other run has started, newest first.
pub fn list_executions(runs: &Vec<StoredRun>) -> (list: Vec<ExecutionSummary>)
    requires
        forall|i: int| 0 <= i < runs@.len() ==> (#[trigger] runs@[i]).stamps@.len() <= i64::MAX,
    ensures
        summary_views(list@).to_multiset() == summaries(runs@).to_multiset(),
        newest_first(summary_views(list@)),
        forall|i: int, j: int|
            0 <= i < j < list@.len() ==> (#[trigger] list@[i]).started_at >= (
            #[trigger] list@[j]).started_at,
{
    let mut list: Vec<ExecutionSummary> = Vec::new();
    let mut i: usize = 0;
    proof {
        assert(runs@.take(0) =~= Seq::empty());
        assert(summary_views(list@) =~= Seq::empty());
    }
    while i < runs.len()
        invariant
            i <= runs.len(),
            forall|i: int|
                0 <= i < runs@.len() ==> (#[trigger] runs@[i]).stamps@.len() <= i64::MAX,
            summary_views(list@).to_multiset() == summaries(runs@.take(i as int)).to_multiset(),
            newest_first(summary_views(list@)),
        decreases runs.len() - i,
    {
        let run = &runs[i];
        proof {
            assert(runs@.take(i + 1).drop_last() =~= runs@.take(i as int));
            assert(runs@.take(i + 1).last() == *run);
            to_multiset_build(summaries(runs@.take(i as int)), summary_of(*run));
        }
        if run.parent_run_id.is_none() && run.stamps.len() > 0 {
            place(&mut list, summarize(run));
        }
        i = i + 1;
    }
    assert(runs@.take(i as int) =~= runs@);
    assert forall|i: int, j: int| 0 <= i < j < list@.len() implies (
    #[trigger] list@[i]).started_at >= (#[trigger] list@[j]).started_at by {
        assert(summary_views(list@)[i] == list@[i]@);
        assert(summary_views(list@)[j] == list@[j]@);
    }
    list
}

/// An event in its place, with its time.
pub struct EventRow {
    pub event_id: i64,
    pub event: Event,
    pub ts: i64,
}

/// A child: the number under which its parent started it, and its run.
pub struct ChildRow {
    pub parent_seq: i64,
    pub run_id: String,
}

/// The run of the child that was started under `seq`.
pub open spec fn child_under(children: Seq<ChildRow>, seq: i64) -> Option<Seq<char>>
    decreases children.len(),
{
    if children.len() == 0 {
        None
    } else if children[0].parent_seq == seq {
        Some(children[0].run_id@)
    } else {
        child_under(children.drop_first(), seq)
    }
}

/// The child's run that is shown with an event: that of the child it speaks of.
pub open spec fn child_shown(children: Seq<ChildRow>, event: EventView) -> Option<Seq<char>> {
    match event {
        EventView::ChildScheduled { seq, .. } => child_under(children, seq as i64),
        EventView::ChildCompleted { seq, .. } => child_under(children, seq as i64),
        _ => None,
    }
}

fn find_child(children: &Vec<ChildRow>, seq: i64) -> (run_id: Option<String>)
    ensures
        opt_text(run_id) == child_under(children@, seq),
{
    let mut i: usize = 0;
    assert(children@.skip(0) =~= children@);
    while i < children.len()
        invariant
            i <= children.len(),
            child_under(children@, seq) == child_under(children@.skip(i as int), seq),
        decreases children.len() - i,
    {
        assert(children@.skip(i as int)[0] == children@[i as int]);
        assert(children@.skip(i as int).drop_first() =~= children@.skip(i + 1));
        if children[i].parent_seq == seq {
            return Some(children[i].run_id.clone());
        }
        i = i + 1;
    }
    None
}

/// The history of a run as the viewer shows it: each event with its time and, where
/// it speaks of a child, the child's run.
pub fn read_events(rows: Vec<EventRow>, children: &Vec<ChildRow>) -> (records: Vec<HistoryRecord>)
    ensures
        records@.len() == rows@.len(),
        forall|i: int|
            #![trigger records@[i]]
            0 <= i < rows@.len() ==> {
                &&& records@[i].event_id == rows@[i].event_id
                &&& records@[i].ts == rows@[i].ts
                &&& records@[i].event@ == rows@[i].event@
                &&& opt_text(records@[i].child_run_id) == child_shown(children@, rows@[i].event@)
            },
{
    let mut records: Vec<HistoryRecord> = Vec::new();
    let mut i: usize = 0;
    while i < rows.len()
        invariant
            i <= rows.len(),
            records.len() == i,
            forall|j: int|
                #![trigger records@[j]]
                0 <= j < i ==> {
                    &&& records@[j].event_id == rows@[j].event_id
                    &&& records@[j].ts == rows@[j].ts
                    &&& records@[j].event@ == rows@[j].event@
                    &&& opt_text(records@[j].child_run_id) == child_shown(
                        children@,
                        rows@[j].event@,
                    )
                },
        decreases rows.len() - i,
    {
        let row = &rows[i];
        let child_run_id = match &row.event {
            Event::ChildScheduled { seq, .. } => find_child(children, *seq as i64),
            Event::ChildCompleted { seq, .. } => find_child(children, *seq as i64),
            _ => None,
        };
        records.push(
            HistoryRecord {
                event_id: row.event_id,
                ts: row.ts,
                event: row.event.clone(),
                child_run_id,
            },
        );
        i = i + 1;
    }
    records
}

} // verus!
