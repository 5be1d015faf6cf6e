use std::cell::RefCell;
use std::collections::HashMap;
use std::future::Future;
use std::marker::PhantomData;
use std::pin::Pin;
use std::rc::Rc;
use std::task::Poll as TaskPoll;

use durable_workflow::activity;
use durable_workflow::chat::session::{wait, Wake};
use durable_workflow::chat::{
    ChatSession, ChatSessionParams, LlmResult, RecordResult, SessionAction, SessionEvent,
    UserMessage,
};
use durable_workflow::chat_service::{record_message, ChatMessage, RecordArgs};
use durable_workflow::demo;
use durable_workflow::engine::{
    outcome_to_result, pause_ms, ActivityLease, Answer, Ask, CreateOutcome, Engine, ExecStatus,
    ExecutionSummary, Handle, HistoryRecord, Job, NewActivityTask, NewChild, NewTimer, ParentNotify, Report, Round,
    RunCompleted, RunMeta, SignalError, SignalOutcome, StartOptions, StoredEvent, Turn, TurnCommit,
    Waited, Work,
};
use durable_workflow::store::history::{append_signal, commit_turn, create_execution};
use durable_workflow::store::queue::{
    complete_activity, fire_due_timer, lease_activity, reclaim_expired_activities,
    reschedule_activity, DueTask, LeasedTask,
};
use durable_workflow::store::reads::{
    list_executions, next_due, next_runnable, read_events, ChildRow, EventRow, StoredRun, Waiting,
};
use durable_workflow::store::write::{columns, read_status};
use durable_workflow::store::Write;
use durable_workflow::workflow::{
    cold_replay, ActivityFuture, ChildFuture, ChildResult, CommandResult, Context, Definition,
    Error, Event, Execution, Info, Nondeterminism, Poll, ReplayOutcome, RetryPolicy, SignalRecv,
    TimerFuture,
};
use serde::de::DeserializeOwned;
use serde::Serialize;

// Bodies written as async functions. While a body is polled, its context lies where its
// futures find it.

type Branch = Pin<Box<dyn Future<Output = ()>>>;

struct Shared {
    ctx: Context,
    started: Vec<(u64, Branch)>,
}

#[derive(Clone)]
struct Ctx(Rc<RefCell<Shared>>);

fn task_poll<T>(poll: Poll<T>) -> TaskPoll<T> {
    match poll {
        Poll::Ready(v) => TaskPoll::Ready(v),
        Poll::Pending => TaskPoll::Pending,
    }
}

fn parsed<T: DeserializeOwned>(bytes: &[u8]) -> Result<T, String> {
    serde_json::from_slice(bytes).map_err(|e| e.to_string())
}

impl Ctx {
    async fn activity<T: DeserializeOwned>(
        &self,
        name: &str,
        input: &impl Serialize,
    ) -> Result<T, activity::Error> {
        let input = serde_json::to_vec(input).unwrap();
        let future = self.0.borrow_mut().ctx.activity(name, input);
        let bytes =
            std::future::poll_fn(|_| task_poll(future.poll(&mut self.0.borrow_mut().ctx))).await?;
        ActivityFuture::decoded(parsed(&bytes))
    }

    async fn child<T: DeserializeOwned>(
        &self,
        name: &str,
        input: &impl Serialize,
    ) -> Result<T, Error> {
        let input = serde_json::to_vec(input).unwrap();
        let future = self.0.borrow_mut().ctx.child_workflow(name, input);
        let bytes =
            std::future::poll_fn(|_| task_poll(future.poll(&mut self.0.borrow_mut().ctx))).await?;
        ChildFuture::decoded(parsed(&bytes))
    }

    fn timer(&self, ms: u64) -> TimerFuture {
        self.0.borrow_mut().ctx.timer(ms)
    }

    async fn sleep(&self, ms: u64) {
        let future = self.0.borrow_mut().ctx.sleep(ms);
        std::future::poll_fn(|_| task_poll(future.poll(&mut self.0.borrow_mut().ctx))).await
    }

    fn channel(&self, name: &str) -> SignalRecv {
        self.0.borrow().ctx.signal_channel(name).recv()
    }

    async fn recv<T: DeserializeOwned>(&self, name: &str) -> Result<T, Error> {
        let recv = self.channel(name);
        let bytes =
            std::future::poll_fn(|_| task_poll(recv.poll(&mut self.0.borrow_mut().ctx))).await;
        recv.decoded(parsed(&bytes))
    }

    fn spawn<T: 'static>(&self, fut: impl Future<Output = T> + 'static) -> impl Future<Output = T> {
        let handle = Rc::new(RefCell::new(self.0.borrow_mut().ctx.spawn::<T>()));
        let branch = handle.borrow().branch;
        let writer = handle.clone();
        self.0.borrow_mut().started.push((
            branch,
            Box::pin(async move {
                let v = fut.await;
                writer.borrow_mut().complete(v);
            }),
        ));
        std::future::poll_fn(move |_| task_poll(handle.borrow_mut().poll()))
    }

    fn info(&self) -> Info {
        self.0.borrow().ctx.info().clone()
    }

    fn patched(&self, change_id: &str) -> bool {
        self.0.borrow_mut().ctx.patched(change_id)
    }
}

trait Flow: 'static {
    const TYPE: &'static str;
    type Input: DeserializeOwned;
    type Output: Serialize;
    fn run(ctx: Ctx, input: Self::Input) -> Pin<Box<dyn Future<Output = Result<Self::Output, Error>>>>;
}

struct Body<F: Flow> {
    shared: Rc<RefCell<Shared>>,
    main: Pin<Box<dyn Future<Output = Result<F::Output, Error>>>>,
    branches: Vec<(u64, Branch)>,
    flow: PhantomData<F>,
}

impl<F: Flow> Body<F> {
    fn swap(&self, ctx: &mut Context) {
        std::mem::swap(ctx, &mut self.shared.borrow_mut().ctx);
    }

    fn take_up(&mut self) {
        let started: Vec<(u64, Branch)> = self.shared.borrow_mut().started.drain(..).collect();
        self.branches.extend(started);
    }
}

impl<F: Flow> Definition for Body<F> {
    type State = ();

    fn start(input: Vec<u8>) -> Result<Self, String> {
        let input: F::Input = parsed(&input)?;
        let shared = Rc::new(RefCell::new(Shared {
            ctx: Context::new(named("")),
            started: Vec::new(),
        }));
        let main = F::run(Ctx(shared.clone()), input);
        Ok(Body { shared, main, branches: Vec::new(), flow: PhantomData })
    }

    fn poll(&mut self, ctx: &mut Context) -> Poll<Result<Vec<u8>, Error>> {
        self.swap(ctx);
        let waker = futures::task::noop_waker();
        let mut tcx = std::task::Context::from_waker(&waker);
        let poll = self.main.as_mut().poll(&mut tcx);
        self.swap(ctx);
        self.take_up();
        match poll {
            TaskPoll::Ready(Ok(v)) => Poll::Ready(Ok(serde_json::to_vec(&v).unwrap())),
            TaskPoll::Ready(Err(e)) => Poll::Ready(Err(e)),
            TaskPoll::Pending => Poll::Pending,
        }
    }

    fn poll_branch(&mut self, branch: u64, ctx: &mut Context) -> bool {
        let i = match self.branches.iter().position(|b| b.0 == branch) {
            Some(i) => i,
            None => return true,
        };
        self.swap(ctx);
        let waker = futures::task::noop_waker();
        let mut tcx = std::task::Context::from_waker(&waker);
        let done = self.branches[i].1.as_mut().poll(&mut tcx).is_ready();
        self.swap(ctx);
        if done {
            let _ = self.branches.remove(i);
        }
        self.take_up();
        done
    }
}

fn named(workflow_type: &str) -> Info {
    Info {
        execution: Execution {
            workflow_id: "w".into(),
            run_id: "r".into(),
        },
        parent: None,
        workflow_type: workflow_type.into(),
    }
}


// A store in memory.

#[derive(Clone)]
struct ExecutionRow {
    run_id: String,
    workflow_id: String,
    workflow_type: String,
    parent_run_id: Option<String>,
    parent_seq: Option<i64>,
    status: String,
    result: Option<Vec<u8>>,
}

struct HistoryRow {
    run_id: String,
    event_id: i64,
    event: Event,
    ts: i64,
}

struct TaskRow {
    run_id: String,
    seq: i64,
    activity_type: String,
    input: Vec<u8>,
    attempt: i64,
    next_run_at: i64,
    status: &'static str,
    lease_expires_at: Option<i64>,
}

#[derive(Default)]
struct Store {
    executions: Vec<ExecutionRow>,
    history: Vec<HistoryRow>,
    tasks: Vec<TaskRow>,
    timers: Vec<(String, i64, i64)>,
    runnable: Vec<(String, i64)>,
    now: i64,
}

impl Store {
    fn tick(&mut self) -> i64 {
        self.now += 1;
        self.now
    }

    fn task(&mut self, run_id: &str, seq: i64) -> &mut TaskRow {
        self.tasks.iter_mut().find(|t| t.run_id == run_id && t.seq == seq).unwrap()
    }

    fn apply(&mut self, writes: Vec<Write>) {
        for w in writes {
            match w {
                Write::InsertExecution {
                    run_id,
                    workflow_id,
                    workflow_type,
                    parent_run_id,
                    parent_seq,
                    ..
                } => {
                    assert!(self.executions.iter().all(|e| e.workflow_id != workflow_id));
                    self.executions.push(ExecutionRow {
                        run_id,
                        workflow_id,
                        workflow_type,
                        parent_run_id,
                        parent_seq,
                        status: "running".into(),
                        result: None,
                    });
                }
                Write::AppendEvent { run_id, event_id, event, ts } => {
                    assert_eq!(event_id, self.last_event_id(&run_id) + 1);
                    self.history.push(HistoryRow { run_id, event_id, event, ts });
                }
                Write::PutTask { run_id, seq, activity_type, input, next_run_at } => {
                    self.tasks.retain(|t| t.run_id != run_id || t.seq != seq);
                    self.tasks.push(TaskRow {
                        run_id,
                        seq,
                        activity_type,
                        input,
                        attempt: 0,
                        next_run_at,
                        status: "pending",
                        lease_expires_at: None,
                    });
                }
                Write::PutTimer { run_id, seq, fire_at } => self.timers.push((run_id, seq, fire_at)),
                Write::MarkRunnable { run_id, since } => {
                    self.runnable.retain(|r| r.0 != run_id);
                    self.runnable.push((run_id, since));
                }
                Write::SetStatus { run_id, status, result } => {
                    for e in self.executions.iter_mut().filter(|e| e.run_id == run_id) {
                        e.status = status.as_str().to_string();
                        e.result = result.clone();
                    }
                }
                Write::ClearRunnable { run_id } => self.runnable.retain(|r| r.0 != run_id),
                Write::LeaseTask { run_id, seq, attempt, lease_expires_at } => {
                    let task = self.task(&run_id, seq);
                    task.status = "running";
                    task.attempt = attempt;
                    task.lease_expires_at = Some(lease_expires_at);
                }
                Write::FinishTask { run_id, seq } => self.task(&run_id, seq).status = "done",
                Write::RequeueTask { run_id, seq, next_run_at } => {
                    let task = self.task(&run_id, seq);
                    task.status = "pending";
                    task.next_run_at = next_run_at;
                    task.lease_expires_at = None;
                }
                Write::ReleaseTask { run_id, seq } => {
                    let task = self.task(&run_id, seq);
                    task.status = "pending";
                    task.lease_expires_at = None;
                }
                Write::DeleteTimer { run_id, seq } => {
                    self.timers.retain(|t| t.0 != run_id || t.1 != seq)
                }
            }
        }
    }

    fn last_event_id(&self, run_id: &str) -> i64 {
        self.history.iter().filter(|h| h.run_id == run_id).map(|h| h.event_id).max().unwrap_or(0)
    }

    fn create_execution(
        &mut self,
        candidate: &str,
        workflow_id: &str,
        workflow_type: &str,
        input: &[u8],
    ) -> (CreateOutcome, String) {
        let now = self.tick();
        let existing = self
            .executions
            .iter()
            .find(|e| e.workflow_id == workflow_id)
            .map(|e| e.run_id.clone());
        let (outcome, run_id, writes) =
            create_execution(candidate, workflow_id, workflow_type, &input.to_vec(), existing, now);
        self.apply(writes);
        (outcome, run_id)
    }

    fn read_history(&self, run_id: &str) -> Vec<StoredEvent> {
        self.history
            .iter()
            .filter(|h| h.run_id == run_id)
            .map(|h| StoredEvent { event_id: h.event_id, event: h.event.clone() })
            .collect()
    }

    fn read_events(&self, run_id: &str) -> Vec<HistoryRecord> {
        let rows = self
            .history
            .iter()
            .filter(|h| h.run_id == run_id)
            .map(|h| EventRow { event_id: h.event_id, event: h.event.clone(), ts: h.ts })
            .collect();
        let children = self
            .executions
            .iter()
            .filter(|e| e.parent_run_id.as_deref() == Some(run_id))
            .map(|e| ChildRow { parent_seq: e.parent_seq.unwrap(), run_id: e.run_id.clone() })
            .collect();
        read_events(rows, &children)
    }

    fn list_executions(&self) -> Vec<ExecutionSummary> {
        let runs = self
            .executions
            .iter()
            .map(|e| StoredRun {
                run_id: e.run_id.clone(),
                workflow_id: e.workflow_id.clone(),
                workflow_type: e.workflow_type.clone(),
                status: e.status.clone(),
                parent_run_id: e.parent_run_id.clone(),
                stamps: self
                    .history
                    .iter()
                    .filter(|h| h.run_id == e.run_id)
                    .map(|h| h.ts)
                    .collect(),
            })
            .collect();
        list_executions(&runs)
    }

    fn load_run(&self, run_id: &str) -> Option<RunMeta> {
        self.executions.iter().find(|e| e.run_id == run_id).map(|e| RunMeta {
            run_id: e.run_id.clone(),
            workflow_id: e.workflow_id.clone(),
            workflow_type: e.workflow_type.clone(),
            status: read_status(&e.status),
            parent_run_id: e.parent_run_id.clone(),
            parent_seq: e.parent_seq,
        })
    }

    fn find_execution(&self, workflow_id: &str) -> Option<(String, ExecStatus, Option<Vec<u8>>)> {
        self.executions
            .iter()
            .find(|e| e.workflow_id == workflow_id)
            .map(|e| (e.run_id.clone(), read_status(&e.status), e.result.clone()))
    }

    fn commit_turn(&mut self, run_id: &str, commit: &TurnCommit) {
        let now = self.tick();
        let last = self.last_event_id(run_id);
        let parent_last = match &commit.parent_notify {
            Some(n) => self.last_event_id(&n.parent_run_id),
            None => 0,
        };
        let writes = commit_turn(run_id, commit, last, parent_last, now);
        self.apply(writes);
    }

    fn append_signal(&mut self, workflow_id: &str, name: &str, payload: &[u8]) -> SignalOutcome {
        let now = self.tick();
        let found = self
            .executions
            .iter()
            .find(|e| e.workflow_id == workflow_id)
            .map(|e| (e.run_id.clone(), e.status.clone()));
        let last = found.as_ref().map(|f| self.last_event_id(&f.0)).unwrap_or(0);
        let (outcome, writes) = append_signal(found, name, &payload.to_vec(), last, now);
        self.apply(writes);
        outcome
    }

    fn next_runnable(&self) -> Option<String> {
        let rows = self
            .runnable
            .iter()
            .map(|r| Waiting { run_id: r.0.clone(), seq: 0, at: r.1 })
            .collect();
        next_runnable(&rows)
    }

    fn lease_activity(&mut self) -> Option<ActivityLease> {
        let now = self.tick();
        let pending = self
            .tasks
            .iter()
            .filter(|t| t.status == "pending")
            .map(|t| Waiting { run_id: t.run_id.clone(), seq: t.seq, at: t.next_run_at })
            .collect();
        let (run_id, seq) = next_due(&pending, now)?;
        let task = self.tasks.iter().find(|t| t.run_id == run_id && t.seq == seq).unwrap();
        let scheduled = self
            .history
            .iter()
            .find(|h| {
                h.run_id == task.run_id
                    && columns(&h.event) == (Some(task.seq), "ActivityScheduled")
            })
            .unwrap()
            .event
            .clone();
        let due = DueTask {
            run_id: task.run_id.clone(),
            workflow_id: self.load_run(&task.run_id).unwrap().workflow_id,
            seq: task.seq,
            activity_type: task.activity_type.clone(),
            input: task.input.clone(),
            attempt: task.attempt,
            scheduled,
        };
        let (lease, writes) = lease_activity(due, now);
        self.apply(writes);
        Some(lease)
    }

    fn complete_activity(&mut self, lease: &ActivityLease, result: CommandResult) {
        let now = self.tick();
        let last = self.last_event_id(&lease.run_id);
        let writes = complete_activity(&lease.run_id, lease.seq, result, last, now);
        self.apply(writes);
    }

    fn reschedule_activity(&mut self, lease: &ActivityLease, next_run_at: i64) {
        let writes = reschedule_activity(&lease.run_id, lease.seq, next_run_at);
        self.apply(writes);
    }

    fn fire_due_timer(&mut self) -> bool {
        let now = self.tick();
        let started = self
            .timers
            .iter()
            .map(|t| Waiting { run_id: t.0.clone(), seq: t.1, at: t.2 })
            .collect();
        let due = next_due(&started, now);
        let last = due.as_ref().map(|d| self.last_event_id(&d.0)).unwrap_or(0);
        let (fired, writes) = fire_due_timer(due, last, now);
        self.apply(writes);
        fired
    }

    fn reclaim_expired_activities(&mut self) -> usize {
        let now = self.tick();
        let leased = self
            .tasks
            .iter()
            .filter(|t| t.status == "running")
            .map(|t| LeasedTask {
                run_id: t.run_id.clone(),
                seq: t.seq,
                lease_expires_at: t.lease_expires_at,
            })
            .collect();
        let writes = reclaim_expired_activities(&leased, now);
        let count = writes.len();
        self.apply(writes);
        count
    }
}

// An engine on that store.

type ReplayFn = fn(Info, &[Event]) -> Result<ReplayOutcome, Nondeterminism>;
type Runner = Box<dyn Fn(Vec<u8>) -> Result<Vec<u8>, activity::Error>>;

struct Host {
    engine: Engine,
    workflows: HashMap<String, ReplayFn>,
    activities: HashMap<String, Runner>,
    announced: Vec<RunCompleted>,
}

fn replay_of<F: Flow>(info: Info, events: &[Event]) -> Result<ReplayOutcome, Nondeterminism> {
    cold_replay::<Body<F>>(info, events)
}

impl Host {
    fn new() -> Self {
        Host {
            engine: Engine::new(),
            workflows: HashMap::new(),
            activities: HashMap::new(),
            announced: Vec::new(),
        }
    }

    fn workflow<F: Flow>(mut self) -> Self {
        self.engine.register_workflow(F::TYPE);
        self.workflows.insert(F::TYPE.into(), replay_of::<F>);
        self
    }

    fn activity<I: DeserializeOwned + 'static, O: Serialize + 'static>(
        mut self,
        name: &str,
        f: impl Fn(I) -> Result<O, activity::Error> + 'static,
    ) -> Self {
        self.engine.register_activity(name);
        self.activities.insert(
            name.into(),
            Box::new(move |bytes| {
                let input = serde_json::from_slice(&bytes).unwrap();
                Ok(serde_json::to_vec(&f(input)?).unwrap())
            }),
        );
        self
    }

    fn start(&self, db: &mut Store, name: &str, input: &impl Serialize, id: &str) -> Handle {
        let new = self.engine.start_workflow(
            name,
            serde_json::to_vec(input).unwrap(),
            StartOptions { id: id.into() },
        );
        let (_, run_id) = db.create_execution(
            &new.candidate_run_id,
            &new.workflow_id,
            &new.workflow_type,
            &new.input,
        );
        Handle::new(run_id, new.workflow_id)
    }

    fn process_one_runnable(&mut self, db: &mut Store) -> Result<bool, String> {
        let (mut turn, mut ask) = self.engine.process_one_runnable(Turn::Start, Answer::Begin);
        loop {
            let answer = match ask {
                Ask::NextRunnable => Answer::Runnable(db.next_runnable()),
                Ask::LoadRun { run_id } => Answer::Run(db.load_run(&run_id)),
                Ask::FindExecution { workflow_id } => Answer::Execution(
                    db.find_execution(&workflow_id).map(|(_, status, result)| (status, result)),
                ),
                Ask::ReadHistory { run_id } => Answer::History(db.read_history(&run_id)),
                Ask::Replay { info, events } => {
                    let replay = self.workflows[&info.workflow_type];
                    Answer::Replayed { outcome: replay(info, &events), now: db.now }
                }
                Ask::Commit { run_id, commit } => {
                    db.commit_turn(&run_id, &commit);
                    Answer::Done
                }
                Ask::Announce { announcement } => {
                    self.announced.push(announcement);
                    Answer::Done
                }
                Ask::Finish { worked } => return Ok(worked),
                Ask::Fail { message } => return Err(message),
            };
            (turn, ask) = self.engine.process_one_runnable(turn, answer);
        }
    }

    fn process_one_activity(&mut self, db: &mut Store) -> bool {
        let (mut work, mut job) = self.engine.process_one_activity(Work::Start, Report::Begin);
        loop {
            let report = match job {
                Job::Lease => Report::Leased(db.lease_activity()),
                Job::Run { info, input } => Report::Ran {
                    result: self.activities[&info.activity_type](input),
                    now: db.now,
                },
                Job::Complete { lease, result } => {
                    db.complete_activity(&lease, result);
                    Report::Done
                }
                Job::Reschedule { lease, next_run_at } => {
                    db.reschedule_activity(&lease, next_run_at);
                    Report::Done
                }
                Job::Finish { worked } => return worked,
            };
            (work, job) = self.engine.process_one_activity(work, report);
        }
    }

    fn pump(&mut self, db: &mut Store) {
        loop {
            let drove = self.process_one_runnable(db).unwrap();
            let worked = self.process_one_activity(db);
            let timed = db.fire_due_timer();
            if !drove && !worked && !timed {
                return;
            }
        }
    }

    fn signal(&self, db: &mut Store, id: &str, name: &str, payload: &[u8]) -> Result<(), SignalError> {
        outcome_to_result(db.append_signal(id, name, payload))
    }
}

fn result<T: DeserializeOwned>(db: &Store, handle: &Handle) -> T {
    let found = db
        .find_execution(handle.workflow_id())
        .map(|(_, status, result)| (status, result));
    match handle.result(found) {
        Waited::Output(bytes) => serde_json::from_slice(&bytes).unwrap(),
        Waited::Failed(message) => panic!("{message}"),
        Waited::Again(ms) => panic!("still running, look again after {ms} ms"),
    }
}

fn status(db: &Store, id: &str) -> ExecStatus {
    db.find_execution(id).unwrap().1
}

fn output<T: DeserializeOwned>(db: &Store, id: &str) -> T {
    serde_json::from_slice(&db.find_execution(id).unwrap().2.unwrap()).unwrap()
}

fn idle() -> TurnCommit {
    TurnCommit {
        events: vec![],
        new_tasks: vec![],
        new_timers: vec![],
        new_children: vec![],
        parent_notify: None,
        status: ExecStatus::Running,
        result: None,
    }
}

fn add(i: (i64, i64)) -> Result<i64, activity::Error> {
    Ok(i.0 + i.1)
}

fn double(n: i64) -> Result<i64, activity::Error> {
    Ok(n * 2)
}

struct Sum;
impl Flow for Sum {
    const TYPE: &'static str = "Sum";
    type Input = ();
    type Output = i64;
    fn run(ctx: Ctx, _i: ()) -> Pin<Box<dyn Future<Output = Result<i64, Error>>>> {
        Box::pin(async move {
            let a: i64 = ctx.activity("Add", &(1, 2)).await?;
            let b: i64 = ctx.activity("Add", &(a, 10)).await?;
            Ok(b)
        })
    }
}

struct SumV1;
impl Flow for SumV1 {
    const TYPE: &'static str = "VersionedSum";
    type Input = ();
    type Output = i64;
    fn run(ctx: Ctx, _i: ()) -> Pin<Box<dyn Future<Output = Result<i64, Error>>>> {
        Box::pin(async move {
            ctx.activity("Add", &(1, 2)).await.map_err(Error::from)
        })
    }
}

struct SumV2;
impl Flow for SumV2 {
    const TYPE: &'static str = "VersionedSum";
    type Input = ();
    type Output = i64;
    fn run(ctx: Ctx, _i: ()) -> Pin<Box<dyn Future<Output = Result<i64, Error>>>> {
        Box::pin(async move {
            ctx.activity("Add", &(5, 5)).await.map_err(Error::from)
        })
    }
}

struct Nap;
impl Flow for Nap {
    const TYPE: &'static str = "Nap";
    type Input = ();
    type Output = i64;
    fn run(ctx: Ctx, _i: ()) -> Pin<Box<dyn Future<Output = Result<i64, Error>>>> {
        Box::pin(async move {
            ctx.sleep(0).await;
            let a: i64 = ctx.activity("Add", &(4, 5)).await?;
            Ok(a)
        })
    }
}

struct ShortNap;
impl Flow for ShortNap {
    const TYPE: &'static str = "ShortNap";
    type Input = ();
    type Output = i64;
    fn run(ctx: Ctx, _i: ()) -> Pin<Box<dyn Future<Output = Result<i64, Error>>>> {
        Box::pin(async move {
            ctx.sleep(0).await;
            let a: i64 = ctx.activity("Add", &(1, 2)).await?;
            Ok(a)
        })
    }
}

struct Child;
impl Flow for Child {
    const TYPE: &'static str = "Child";
    type Input = i64;
    type Output = i64;
    fn run(ctx: Ctx, n: i64) -> Pin<Box<dyn Future<Output = Result<i64, Error>>>> {
        Box::pin(async move {
            let v: i64 = ctx.activity("Double", &n).await?;
            Ok(v)
        })
    }
}

struct Parent;
impl Flow for Parent {
    const TYPE: &'static str = "Parent";
    type Input = i64;
    type Output = i64;
    fn run(ctx: Ctx, n: i64) -> Pin<Box<dyn Future<Output = Result<i64, Error>>>> {
        Box::pin(async move {
            let v: i64 = ctx.child("Child", &n).await?;
            Ok(v + 1)
        })
    }
}

struct ParentIdChild;
impl Flow for ParentIdChild {
    const TYPE: &'static str = "ParentIdChild";
    type Input = ();
    type Output = String;
    fn run(ctx: Ctx, _i: ()) -> Pin<Box<dyn Future<Output = Result<String, Error>>>> {
        Box::pin(async move {
            Ok(ctx.info().parent.map(|p| p.workflow_id).unwrap_or("<none>".into()))
        })
    }
}

struct ParentOfIdChild;
impl Flow for ParentOfIdChild {
    const TYPE: &'static str = "ParentOfIdChild";
    type Input = ();
    type Output = String;
    fn run(ctx: Ctx, _i: ()) -> Pin<Box<dyn Future<Output = Result<String, Error>>>> {
        Box::pin(async move {
            ctx.child("ParentIdChild", &()).await
        })
    }
}

struct FailChild;
impl Flow for FailChild {
    const TYPE: &'static str = "FailChild";
    type Input = ();
    type Output = i64;
    fn run(ctx: Ctx, _i: ()) -> Pin<Box<dyn Future<Output = Result<i64, Error>>>> {
        Box::pin(async move {
            let _ = ctx;
            Err(Error::new("child failed on purpose"))
        })
    }
}

struct ParentOfFail;
impl Flow for ParentOfFail {
    const TYPE: &'static str = "ParentOfFail";
    type Input = ();
    type Output = i64;
    fn run(ctx: Ctx, _i: ()) -> Pin<Box<dyn Future<Output = Result<i64, Error>>>> {
        Box::pin(async move {
            ctx.child("FailChild", &()).await
        })
    }
}

struct WaitApprove;
impl Flow for WaitApprove {
    const TYPE: &'static str = "WaitApprove";
    type Input = ();
    type Output = bool;
    fn run(ctx: Ctx, _i: ()) -> Pin<Box<dyn Future<Output = Result<bool, Error>>>> {
        Box::pin(async move {
            ctx.recv::<bool>("approve").await
        })
    }
}

struct SignalOrTimeout;
impl Flow for SignalOrTimeout {
    const TYPE: &'static str = "SignalOrTimeout";
    type Input = u64;
    type Output = String;
    fn run(ctx: Ctx, timeout_ms: u64) -> Pin<Box<dyn Future<Output = Result<String, Error>>>> {
        Box::pin(async move {
            let recv = ctx.channel("approve");
            let nap = ctx.timer(timeout_ms);
            let signal = std::future::poll_fn(|_| {
                let inner = &mut ctx.0.borrow_mut().ctx;
                if let Poll::Ready(bytes) = recv.poll(inner) {
                    return TaskPoll::Ready(Some(bytes));
                }
                task_poll(nap.poll(inner)).map(|_| None)
            })
            .await;
            let out = match signal {
                Some(bytes) if recv.decoded::<bool>(parsed(&bytes))? => "approved",
                Some(_) => "rejected",
                None => "timed_out",
            };
            Ok(out.to_string())
        })
    }
}

struct Marked;
impl Flow for Marked {
    const TYPE: &'static str = "Marked";
    type Input = ();
    type Output = i64;
    fn run(ctx: Ctx, _i: ()) -> Pin<Box<dyn Future<Output = Result<i64, Error>>>> {
        Box::pin(async move {
            if ctx.patched("v2") {
                Ok(1)
            } else {
                Ok(0)
            }
        })
    }
}

struct Joined;
impl Flow for Joined {
    const TYPE: &'static str = "Joined";
    type Input = ();
    type Output = i64;
    fn run(ctx: Ctx, _i: ()) -> Pin<Box<dyn Future<Output = Result<i64, Error>>>> {
        Box::pin(async move {
            let (c1, c2) = (ctx.clone(), ctx.clone());
            let a = ctx.spawn(async move { c1.activity::<i64>("Double", &1i64).await.unwrap() });
            let b = ctx.spawn(async move { c2.activity::<i64>("Double", &2i64).await.unwrap() });
            let vb = b.await;
            let va = a.await;
            Ok(va * 10 + vb)
        })
    }
}

struct Flaky;
impl Flow for Flaky {
    const TYPE: &'static str = "Flaky";
    type Input = ();
    type Output = i64;
    fn run(ctx: Ctx, _i: ()) -> Pin<Box<dyn Future<Output = Result<i64, Error>>>> {
        Box::pin(async move {
            let call = ctx.0.borrow_mut().ctx.activity("Fail", b"null".to_vec());
            let call = call.retry(RetryPolicy::exponential(3));
            let bytes =
                std::future::poll_fn(|_| task_poll(call.poll(&mut ctx.0.borrow_mut().ctx))).await?;
            ActivityFuture::decoded(parsed(&bytes)).map_err(Error::from)
        })
    }
}

// Two activities at once.
struct Pair;
impl Flow for Pair {
    const TYPE: &'static str = "Pair";
    type Input = ();
    type Output = i64;
    fn run(ctx: Ctx, _i: ()) -> Pin<Box<dyn Future<Output = Result<i64, Error>>>> {
        Box::pin(async move {
            let (a, b) = futures::future::join(
                ctx.activity::<i64>("Add", &(1, 2)),
                ctx.activity::<i64>("Add", &(10, 20)),
            )
            .await;
            Ok(a? + b?)
        })
    }
}

// An activity races a sleep of one day; the activity is looked at first.
struct Pick;
impl Flow for Pick {
    const TYPE: &'static str = "Pick";
    type Input = ();
    type Output = i64;
    fn run(ctx: Ctx, _i: ()) -> Pin<Box<dyn Future<Output = Result<i64, Error>>>> {
        Box::pin(async move {
            let input = serde_json::to_vec(&(7, 8)).unwrap();
            let act = ctx.0.borrow_mut().ctx.activity("Add", input);
            let nap = ctx.0.borrow_mut().ctx.sleep(86_400_000);
            let first = std::future::poll_fn(|_| {
                let inner = &mut ctx.0.borrow_mut().ctx;
                if let Poll::Ready(result) = act.poll(inner) {
                    return TaskPoll::Ready(Some(result));
                }
                task_poll(nap.poll(inner)).map(|_| None)
            })
            .await;
            match first {
                Some(result) => Ok(ActivityFuture::decoded(parsed(&result?))?),
                None => Ok(-1),
            }
        })
    }
}

// A detached branch runs an activity.
struct Detached;
impl Flow for Detached {
    const TYPE: &'static str = "Detached";
    type Input = ();
    type Output = i64;
    fn run(ctx: Ctx, _i: ()) -> Pin<Box<dyn Future<Output = Result<i64, Error>>>> {
        Box::pin(async move {
            let ctx2 = ctx.clone();
            let h =
                ctx.spawn(async move { ctx2.activity::<i64>("Add", &(3, 4)).await.unwrap() });
            Ok(h.await)
        })
    }
}

fn concurrent() -> Host {
    Host::new()
        .workflow::<Pair>()
        .workflow::<Pick>()
        .workflow::<Detached>()
        .activity("Add", add)
}

struct UseAddConst;
impl Flow for UseAddConst {
    const TYPE: &'static str = "UseAddConst";
    type Input = ();
    type Output = i64;
    fn run(ctx: Ctx, _i: ()) -> Pin<Box<dyn Future<Output = Result<i64, Error>>>> {
        Box::pin(async move { Ok(ctx.activity::<i64>("AddConst", &5).await?) })
    }
}

struct CallEcho;
impl Flow for CallEcho {
    const TYPE: &'static str = "CallEcho";
    type Input = ();
    type Output = i64;
    fn run(ctx: Ctx, _i: ()) -> Pin<Box<dyn Future<Output = Result<i64, Error>>>> {
        Box::pin(async move { Ok(ctx.activity::<i64>("Echo", &7).await?) })
    }
}

struct DemoSumChild;
impl Flow for DemoSumChild {
    const TYPE: &'static str = "SumChild";
    type Input = Vec<i64>;
    type Output = i64;
    fn run(ctx: Ctx, values: Vec<i64>) -> Pin<Box<dyn Future<Output = Result<i64, Error>>>> {
        Box::pin(async move {
            let call = demo::SumChild::begin(demo::SumChildParams { values });
            let summed = ctx.activity::<i64>("Sum", &call.values).await;
            demo::SumChild::summed(summed.map(|total| demo::SumResult { total }))
                .map(|r| r.total)
        })
    }
}

struct DemoParent;
impl Flow for DemoParent {
    const TYPE: &'static str = "Parent";
    type Input = String;
    type Output = i64;
    fn run(ctx: Ctx, text: String) -> Pin<Box<dyn Future<Output = Result<i64, Error>>>> {
        Box::pin(async move {
            let call = demo::Parent::begin(demo::ParentParams { text });
            let parsed = ctx.activity::<Vec<i64>>("Parse", &call.text).await;
            let child =
                demo::Parent::parsed(parsed.map(|values| demo::ParseResult { values }))?;
            let summed = ctx.child::<i64>("SumChild", &child.values).await;
            demo::Parent::summed(summed.map(|total| demo::SumChildResult { total }))
                .map(|r| r.total)
        })
    }
}

fn calculator() -> Host {
    Host::new()
        .workflow::<DemoParent>()
        .workflow::<DemoSumChild>()
        .activity("Parse", |text: String| {
            demo::Parse.run(demo::ParseParams { text }).map(|r| r.values)
        })
        .activity("Sum", |values: Vec<i64>| {
            Ok(demo::SumActivity.run(demo::SumParams { values }).unwrap().total)
        })
}

struct Session;
impl Flow for Session {
    const TYPE: &'static str = "ChatSession";
    type Input = String;
    type Output = ();
    fn run(ctx: Ctx, conversation_id: String) -> Pin<Box<dyn Future<Output = Result<(), Error>>>> {
        Box::pin(async move {
            let mut session = ChatSession::new(ChatSessionParams { conversation_id });
            let mut action = session.run(SessionEvent::Begin);
            loop {
                let event = match action {
                    SessionAction::Await => {
                        let wake = std::future::poll_fn(|_| {
                            task_poll(wait(&mut ctx.0.borrow_mut().ctx))
                        })
                        .await;
                        match wake {
                            Wake::Stop => SessionEvent::Stopped,
                            Wake::Message(payload) => SessionEvent::Message(
                                ctx.channel("message")
                                    .decoded(parsed::<serde_json::Value>(&payload))
                                    .map(|m| UserMessage {
                                        message_id: m["message_id"].as_str().unwrap().into(),
                                        text: m["text"].as_str().unwrap().into(),
                                    }),
                            ),
                        }
                    }
                    SessionAction::Record(args) => {
                        let args =
                            (args.conversation_id, args.message_id, args.role, args.content, args.status);
                        SessionEvent::Recorded(
                            ctx.activity::<()>("RecordMessage", &args)
                                .await
                                .map(|_| RecordResult {}),
                        )
                    }
                    SessionAction::Complete { params, .. } => SessionEvent::Replied(
                        ctx.activity::<String>("LlmComplete", &params.conversation_id)
                            .await
                            .map(|reply| LlmResult { reply }),
                    ),
                    SessionAction::Finish(result) => return result.map(|_| ()),
                };
                action = session.run(event);
            }
        })
    }
}

fn sums() -> Host {
    Host::new()
        .workflow::<Sum>()
        .workflow::<Nap>()
        .workflow::<ShortNap>()
        .activity("Add", add)
}

fn families() -> Host {
    Host::new()
        .workflow::<Parent>()
        .workflow::<Child>()
        .workflow::<ParentOfIdChild>()
        .workflow::<ParentIdChild>()
        .workflow::<ParentOfFail>()
        .workflow::<FailChild>()
        .activity("Double", double)
}

#[test]
fn activity_workflow_runs_to_completion() {
    let mut db = Store::default();
    let mut engine = sums();
    let handle = engine.start(&mut db, "Sum", &(), "sum-1");
    engine.pump(&mut db);
    let out: i64 = result(&db, &handle);
    assert_eq!(out, 13);
}

#[test]
fn cold_recovery_completes_identically() {
    let mut db = Store::default();
    {
        let mut engine = sums();
        engine.start(&mut db, "Sum", &(), "sum-2");
        assert!(engine.process_one_runnable(&mut db).unwrap());
        assert!(engine.process_one_activity(&mut db));
    }
    sums().pump(&mut db);
    assert_eq!(status(&db, "sum-2"), ExecStatus::Completed);
    assert_eq!(output::<i64>(&db, "sum-2"), 13);
}

#[test]
fn completion_observer_fires_on_terminal() {
    let mut db = Store::default();
    let mut engine = sums();
    engine.engine.on_run_completed();
    engine.start(&mut db, "Sum", &(), "sum-3");
    engine.pump(&mut db);
    assert_eq!(engine.announced.len(), 1, "observer should fire on completion");
    assert_eq!(engine.announced[0].status, ExecStatus::Completed);
    assert_eq!(engine.announced[0].workflow_id, "sum-3");
    assert_eq!(engine.announced[0].result.as_deref(), Some(&b"13"[..]));
}

#[test]
fn nothing_is_announced_unasked() {
    let mut db = Store::default();
    let mut engine = sums();
    engine.start(&mut db, "Sum", &(), "sum-4");
    engine.pump(&mut db);
    assert!(engine.announced.is_empty());
}

#[test]
fn start_is_idempotent_by_id() {
    let mut db = Store::default();
    let engine = sums();
    let h1 = engine.start(&mut db, "Sum", &(), "dup");
    let h2 = engine.start(&mut db, "Sum", &(), "dup");
    assert_eq!(h1.run_id(), h2.run_id(), "same id returns the existing run");
}

#[test]
fn run_ids_are_random_version_four_ids() {
    let engine = Engine::new();
    let new = || engine.start_workflow("T", vec![], StartOptions::default());
    let (a, b) = (new(), new());
    assert_eq!(a.workflow_id, "");
    assert_ne!(a.candidate_run_id, b.candidate_run_id);
    let id: Vec<char> = a.candidate_run_id.chars().collect();
    assert_eq!(id.len(), 36);
    assert_eq!(id[14], '4');
    assert!("89ab".contains(id[19]));
    for (i, c) in id.iter().enumerate() {
        if [8, 13, 18, 23].contains(&i) {
            assert_eq!(*c, '-');
        } else {
            assert!("0123456789abcdef".contains(*c));
        }
    }
}

#[test]
fn unregistered_workflow_is_dead_lettered() {
    let mut db = Store::default();
    let mut engine = Host::new().activity("Add", add);
    engine.engine.on_run_completed();
    engine.start(&mut db, SumV1::TYPE, &(), "dead-1");
    // One driver turn dead-letters instead of erroring/spinning.
    assert!(engine.process_one_runnable(&mut db).unwrap());
    // The run is no longer runnable (would-be spin is gone).
    assert!(!engine.process_one_runnable(&mut db).unwrap());
    assert_eq!(status(&db, "dead-1"), ExecStatus::Failed);
    assert_eq!(engine.announced[0].status, ExecStatus::Failed, "observer fires on dead-letter");
    assert_eq!(
        db.find_execution("dead-1").unwrap().2.unwrap(),
        b"{\"message\":\"unregistered workflow VersionedSum\"}"
    );
}

#[test]
fn nondeterminism_is_dead_lettered_not_spun() {
    let mut db = Store::default();
    {
        let mut engine = Host::new().workflow::<SumV1>().activity("Add", add);
        engine.start(&mut db, SumV1::TYPE, &(), "nd-1");
        assert!(engine.process_one_runnable(&mut db).unwrap()); // schedules Add seq 0
        assert!(engine.process_one_activity(&mut db)); // completes Add seq 0
    }
    let mut engine2 = Host::new().workflow::<SumV2>().activity("Add", add);
    assert!(engine2.process_one_runnable(&mut db).unwrap()); // dead-letters
    assert!(
        !engine2.process_one_runnable(&mut db).unwrap(),
        "no spin: run cleared from runnable"
    );
    assert_eq!(status(&db, "nd-1"), ExecStatus::Failed);
    let text = String::from_utf8(db.find_execution("nd-1").unwrap().2.unwrap()).unwrap();
    assert!(
        text.starts_with("{\"message\":\"nondeterminism in VersionedSum: nondeterminism at seq 0"),
        "got: {text}"
    );
}

#[test]
fn crashed_activity_lease_is_reclaimed_and_completes() {
    let mut db = Store::default();
    let mut engine = Host::new().workflow::<SumV1>().activity("Add", add);
    engine.start(&mut db, SumV1::TYPE, &(), "lease-1");
    assert!(engine.process_one_runnable(&mut db).unwrap()); // schedules Add seq 0
    let lease = db.lease_activity().unwrap();
    db.task(&lease.run_id, lease.seq).lease_expires_at = Some(0);
    assert_eq!(db.reclaim_expired_activities(), 1);
    assert!(engine.process_one_activity(&mut db)); // re-leases + runs Add
    assert!(engine.process_one_runnable(&mut db).unwrap()); // drives to completion
    assert_eq!(status(&db, "lease-1"), ExecStatus::Completed);
    assert_eq!(output::<i64>(&db, "lease-1"), 3);
}

#[test]
fn parent_completes_when_child_does() {
    let mut db = Store::default();
    let mut engine = families();
    let handle = engine.start(&mut db, "Parent", &5i64, "p-1");
    engine.pump(&mut db);
    let out: i64 = result(&db, &handle);
    assert_eq!(out, 11, "child Double(5)=10, parent adds 1");
    let (child_run, status, _) = db.find_execution("p-1::child::0").unwrap();
    assert_eq!(status, ExecStatus::Completed);
    assert_eq!(db.load_run(&child_run).unwrap().parent_seq, Some(0));
}

#[test]
fn child_info_parent_is_populated() {
    let mut db = Store::default();
    let mut engine = families();
    let handle = engine.start(&mut db, "ParentOfIdChild", &(), "pid-1");
    engine.pump(&mut db);
    let out: String = result(&db, &handle);
    assert_eq!(
        out, "pid-1",
        "the child observed its parent's workflow_id via ctx.info().parent"
    );
}

#[test]
fn child_failure_propagates_to_parent() {
    let mut db = Store::default();
    let mut engine = families();
    engine.start(&mut db, "ParentOfFail", &(), "pf-1");
    engine.pump(&mut db);
    assert_eq!(status(&db, "pf-1::child::0"), ExecStatus::Failed);
    assert_eq!(status(&db, "pf-1"), ExecStatus::Failed);
    assert_eq!(
        db.find_execution("pf-1").unwrap().2.unwrap(),
        b"{\"message\":\"child failed on purpose\"}"
    );
}

#[test]
fn dead_lettered_child_fails_its_parent() {
    let mut db = Store::default();
    let mut engine = Host::new().workflow::<Parent>();
    engine.start(&mut db, "Parent", &5i64, "pd-1");
    engine.pump(&mut db);
    assert_eq!(status(&db, "pd-1::child::0"), ExecStatus::Failed);
    assert_eq!(status(&db, "pd-1"), ExecStatus::Failed);
    assert_eq!(
        db.find_execution("pd-1").unwrap().2.unwrap(),
        b"{\"message\":\"unregistered workflow Child\"}"
    );
}

#[test]
fn cold_recovery_completes_parent_and_child() {
    let mut db = Store::default();
    {
        let mut engine = families();
        engine.start(&mut db, "Parent", &5i64, "p-2");
        assert!(engine.process_one_runnable(&mut db).unwrap()); // parent starts the child
        assert!(engine.process_one_runnable(&mut db).unwrap()); // child schedules its activity
    }
    families().pump(&mut db);
    assert_eq!(status(&db, "p-2"), ExecStatus::Completed);
    assert_eq!(output::<i64>(&db, "p-2"), 11);
}

#[test]
fn workflow_blocked_on_recv_resumes_when_signaled() {
    let mut db = Store::default();
    let mut engine = Host::new().workflow::<WaitApprove>();
    let handle = engine.start(&mut db, "WaitApprove", &(), "sig-1");
    engine.pump(&mut db);
    assert_eq!(
        status(&db, "sig-1"),
        ExecStatus::Running,
        "blocked on recv(), not yet complete"
    );
    assert!(matches!(
        handle.result(Some((ExecStatus::Running, None))),
        Waited::Again(5)
    ));
    engine.signal(&mut db, "sig-1", "approve", b"true").unwrap();
    engine.pump(&mut db);
    let out: bool = result(&db, &handle);
    assert!(out);
}

#[test]
fn signal_or_timeout_takes_the_signal() {
    let mut db = Store::default();
    let mut engine = Host::new().workflow::<SignalOrTimeout>();
    let handle = engine.start(&mut db, "SignalOrTimeout", &86_400_000u64, "sot-1");
    assert!(engine.process_one_runnable(&mut db).unwrap());
    engine.signal(&mut db, "sot-1", "approve", b"true").unwrap();
    engine.pump(&mut db);
    let out: String = result(&db, &handle);
    assert_eq!(out, "approved", "the signal wins; the day-long timer never fires");
}

#[test]
fn signal_or_timeout_times_out() {
    let mut db = Store::default();
    let mut engine = Host::new().workflow::<SignalOrTimeout>();
    let handle = engine.start(&mut db, "SignalOrTimeout", &0u64, "sot-2");
    engine.pump(&mut db);
    let out: String = result(&db, &handle);
    assert_eq!(out, "timed_out", "no signal arrives; the immediate timer wins");
}

#[test]
fn signal_before_crash_replays_to_completion() {
    let mut db = Store::default();
    {
        let mut engine = Host::new().workflow::<WaitApprove>();
        engine.start(&mut db, "WaitApprove", &(), "sig-3");
        assert!(engine.process_one_runnable(&mut db).unwrap());
        engine.signal(&mut db, "sig-3", "approve", b"true").unwrap();
    }
    Host::new().workflow::<WaitApprove>().pump(&mut db);
    assert_eq!(status(&db, "sig-3"), ExecStatus::Completed);
    assert!(output::<bool>(&db, "sig-3"));
}

#[test]
fn signal_after_crash_delivers_to_recovered_run() {
    let mut db = Store::default();
    {
        let mut engine = Host::new().workflow::<WaitApprove>();
        engine.start(&mut db, "WaitApprove", &(), "sig-5");
        assert!(engine.process_one_runnable(&mut db).unwrap());
    }
    assert_eq!(
        status(&db, "sig-5"),
        ExecStatus::Running,
        "recovered run is still blocked on recv()"
    );
    let mut engine2 = Host::new().workflow::<WaitApprove>();
    engine2.signal(&mut db, "sig-5", "approve", b"true").unwrap();
    engine2.pump(&mut db);
    assert_eq!(status(&db, "sig-5"), ExecStatus::Completed);
    assert!(output::<bool>(&db, "sig-5"));
}

#[test]
fn signaling_completed_or_unknown_run_errors() {
    let mut db = Store::default();
    let mut engine = Host::new().workflow::<WaitApprove>();
    engine.start(&mut db, "WaitApprove", &(), "sig-4");
    engine.pump(&mut db);
    engine.signal(&mut db, "sig-4", "approve", b"true").unwrap();
    engine.pump(&mut db);
    assert_eq!(status(&db, "sig-4"), ExecStatus::Completed);

    let err = engine.signal(&mut db, "sig-4", "approve", b"true").unwrap_err();
    assert!(matches!(err, SignalError::NotRunning), "got {err:?}");
    assert_eq!(err.to_string(), "workflow is not running");

    let err = engine.signal(&mut db, "does-not-exist", "approve", b"true").unwrap_err();
    assert!(matches!(err, SignalError::WorkflowNotFound), "got {err:?}");
    assert_eq!(err.to_string(), "no workflow with that id");
    assert_eq!(SignalError::Internal("disk".into()).to_string(), "disk");
}

#[test]
fn timer_workflow_runs_to_completion() {
    let mut db = Store::default();
    let mut engine = sums();
    let handle = engine.start(&mut db, "ShortNap", &(), "nap-1");
    engine.pump(&mut db);
    let out: i64 = result(&db, &handle);
    assert_eq!(out, 3);
}

#[test]
fn timer_cold_recovery_completes_identically() {
    let mut db = Store::default();
    {
        let mut engine = sums();
        engine.start(&mut db, "ShortNap", &(), "nap-2");
        assert!(engine.process_one_runnable(&mut db).unwrap()); // emits StartTimer seq 0
    }
    sums().pump(&mut db);
    assert_eq!(status(&db, "nap-2"), ExecStatus::Completed);
    assert_eq!(output::<i64>(&db, "nap-2"), 3);
}

#[test]
fn patched_workflow_runs_and_persists_marker() {
    let mut db = Store::default();
    let mut engine = Host::new().workflow::<Marked>();
    let handle = engine.start(&mut db, "Marked", &(), "patch-1");
    engine.pump(&mut db);
    let out: i64 = result(&db, &handle);
    assert_eq!(out, 1, "new execution takes the patched branch");
    let (run_id, status, _) = db.find_execution("patch-1").unwrap();
    assert_eq!(status, ExecStatus::Completed);
    let kinds: Vec<&'static str> =
        db.read_history(&run_id).iter().map(|s| s.event.kind()).collect();
    assert!(
        kinds.contains(&"Patched"),
        "history should contain a Patched marker, got {kinds:?}"
    );
}

#[test]
fn patched_cold_recovery_completes_identically() {
    let mut db = Store::default();
    {
        let mut engine = Host::new().workflow::<Marked>();
        engine.start(&mut db, "Marked", &(), "patch-2");
        engine.pump(&mut db);
    }
    Host::new().workflow::<Marked>().pump(&mut db);
    assert_eq!(status(&db, "patch-2"), ExecStatus::Completed);
    assert_eq!(output::<i64>(&db, "patch-2"), 1);
}

/// A run that went to its end, replayed from its stored history, comes to what was stored.
fn assert_live_matches_replay<F: Flow>(db: &Store, workflow_id: &str) {
    let (run_id, status, stored_result) = db.find_execution(workflow_id).unwrap();
    assert_eq!(status, ExecStatus::Completed, "{workflow_id} should complete");
    let stored_result = stored_result.expect("completed run has a result");
    let events: Vec<Event> = db.read_history(&run_id).into_iter().map(|s| s.event).collect();
    let info = Info {
        execution: Execution { workflow_id: workflow_id.into(), run_id },
        parent: None,
        workflow_type: F::TYPE.into(),
    };
    let first = replay_of::<F>(info.clone(), &events)
        .expect("cold replay of a real history must not diverge");
    assert_eq!(
        first.completion,
        Some(Ok(stored_result)),
        "replayed completion must equal the engine's stored result"
    );
    let second = replay_of::<F>(info, &events).unwrap();
    assert_eq!(first, second, "cold replay must be idempotent");
}

#[test]
fn activity_workflow_live_matches_cold_replay() {
    let mut db = Store::default();
    let mut engine = sums();
    engine.start(&mut db, "Sum", &(), "eq-sum");
    engine.pump(&mut db);
    assert_live_matches_replay::<Sum>(&db, "eq-sum");
}

#[test]
fn timer_workflow_live_matches_cold_replay() {
    let mut db = Store::default();
    let mut engine = sums();
    engine.start(&mut db, "Nap", &(), "eq-nap");
    engine.pump(&mut db);
    assert_live_matches_replay::<Nap>(&db, "eq-nap");
}

#[test]
fn spawned_branches_run_through_the_engine() {
    let mut db = Store::default();
    let mut engine = Host::new().workflow::<Joined>().activity("Double", double);
    let handle = engine.start(&mut db, "Joined", &(), "join-1");
    engine.pump(&mut db);
    let out: i64 = result(&db, &handle);
    assert_eq!(out, 24);
    assert_live_matches_replay::<Joined>(&db, "join-1");
}

#[test]
fn turn_taken_again_commits_nothing() {
    let mut db = Store::default();
    let mut engine = sums();
    let handle = engine.start(&mut db, "Sum", &(), "again");
    assert!(engine.process_one_runnable(&mut db).unwrap());
    let before = db.read_history(handle.run_id());
    let now = db.tick();
    db.apply(vec![Write::MarkRunnable { run_id: handle.run_id().into(), since: now }]);
    assert!(engine.process_one_runnable(&mut db).unwrap());
    assert_eq!(db.read_history(handle.run_id()), before);
    assert_eq!(db.tasks.len(), 1);
}

#[test]
fn run_that_is_over_keeps_its_result_and_is_not_announced_again() {
    let mut db = Store::default();
    let mut engine = sums();
    engine.engine.on_run_completed();
    let handle = engine.start(&mut db, "Sum", &(), "over");
    engine.pump(&mut db);
    assert_eq!(engine.announced.len(), 1);
    let now = db.tick();
    db.apply(vec![Write::MarkRunnable { run_id: handle.run_id().into(), since: now }]);
    assert!(engine.process_one_runnable(&mut db).unwrap());
    assert_eq!(db.next_runnable(), None);
    assert_eq!(engine.announced.len(), 1);
    assert_eq!(output::<i64>(&db, "over"), 13);
}

#[test]
fn runs_without_a_row_are_failures() {
    let mut db = Store::default();
    db.apply(vec![Write::MarkRunnable { run_id: "ghost".into(), since: 0 }]);
    let err = sums().process_one_runnable(&mut db).unwrap_err();
    assert_eq!(err, "runnable run ghost has no execution row");

    let meta = RunMeta {
        run_id: "r".into(),
        workflow_id: "w".into(),
        workflow_type: "T".into(),
        status: ExecStatus::Completed,
        parent_run_id: None,
        parent_seq: None,
    };
    let (_, ask) =
        Engine::new().process_one_runnable(Turn::Settling { meta }, Answer::Execution(None));
    match ask {
        Ask::Fail { message } => assert_eq!(message, "terminal run r has no execution row"),
        _ => panic!("expected a failure"),
    }
}

#[test]
fn results_that_will_not_come_are_told() {
    let handle = Handle::new("r".into(), "w".into());
    let told = |found| match handle.result(found) {
        Waited::Failed(message) => message,
        _ => panic!("expected a failure"),
    };
    assert_eq!(told(None), "no execution for workflow id w");
    assert_eq!(told(Some((ExecStatus::Failed, None))), "workflow failed");
    assert_eq!(told(Some((ExecStatus::Completed, None))), "completed without result");
}

#[test]
fn failures_are_tried_again_until_the_attempts_run_out() {
    let mut db = Store::default();
    let mut engine = Host::new()
        .workflow::<Flaky>()
        .activity("Fail", |_: ()| -> Result<i64, activity::Error> {
            Err(activity::Error::retryable("down"))
        });
    engine.start(&mut db, "Flaky", &(), "flaky");
    assert!(engine.process_one_runnable(&mut db).unwrap());
    assert!(engine.process_one_activity(&mut db));
    let first = db.now;
    assert_eq!(db.tasks[0].next_run_at, first + 100);
    assert!(!engine.process_one_activity(&mut db), "not due yet");
    db.now = first + 100;
    assert!(engine.process_one_activity(&mut db));
    let second = db.now;
    assert_eq!(db.tasks[0].next_run_at, second + 200);
    db.now = second + 200;
    assert!(engine.process_one_activity(&mut db));
    assert_eq!(db.tasks[0].status, "done");
    engine.pump(&mut db);
    assert_eq!(status(&db, "flaky"), ExecStatus::Failed);
    assert_eq!(
        db.find_execution("flaky").unwrap().2.unwrap(),
        b"{\"message\":\"down\"}"
    );
}

#[test]
fn fatal_failures_and_unregistered_activities_are_not_tried_again() {
    let mut db = Store::default();
    let mut engine = Host::new()
        .workflow::<Flaky>()
        .activity("Fail", |_: ()| -> Result<i64, activity::Error> {
            Err(activity::Error::fatal("broken"))
        });
    engine.start(&mut db, "Flaky", &(), "fatal");
    engine.pump(&mut db);
    assert_eq!(db.tasks[0].attempt, 1);
    assert_eq!(status(&db, "fatal"), ExecStatus::Failed);

    let mut db = Store::default();
    let mut engine = Host::new().workflow::<Flaky>();
    engine.start(&mut db, "Flaky", &(), "unregistered");
    engine.pump(&mut db);
    assert_eq!(db.tasks[0].attempt, 1);
    assert_eq!(
        db.find_execution("unregistered").unwrap().2.unwrap(),
        b"{\"message\":\"unregistered activity Fail\"}"
    );
}

#[test]
fn loops_pause_by_how_the_round_went() {
    assert_eq!(pause_ms(Round::Worked), 0);
    assert_eq!(pause_ms(Round::Idle), 5);
    assert_eq!(pause_ms(Round::Failed), 50);
}

#[test]
fn statuses_are_read_back() {
    for s in [ExecStatus::Running, ExecStatus::Completed, ExecStatus::Failed] {
        assert_eq!(ExecStatus::from_str(s.as_str()), Some(s));
    }
    assert_eq!(ExecStatus::from_str("Running"), None);
    assert_eq!(read_status("failed"), ExecStatus::Failed);
    assert_eq!(read_status("no such status"), ExecStatus::Running);
}

// The store's operations.

fn scheduled(retry: RetryPolicy, next_run_at: i64) -> TurnCommit {
    TurnCommit {
        events: vec![Event::ActivityScheduled {
            seq: 0,
            activity_type: "Add".into(),
            input: b"[1,2]".to_vec(),
            retry,
        }],
        new_tasks: vec![NewActivityTask {
            seq: 0,
            activity_type: "Add".into(),
            input: b"[1,2]".to_vec(),
            next_run_at,
        }],
        ..idle()
    }
}

fn db_with_task() -> Store {
    let mut db = Store::default();
    db.create_execution("run-1", "wf-A", "T", b"in");
    db.commit_turn("run-1", &scheduled(RetryPolicy::none(), 0));
    db
}

#[test]
fn create_is_idempotent_by_workflow_id() {
    let mut db = Store::default();
    let (o1, r1) = db.create_execution("run-1", "wf-A", "T", b"in");
    let (o2, r2) = db.create_execution("run-2", "wf-A", "T", b"in");
    assert_eq!(o1, CreateOutcome::Created);
    assert_eq!(o2, CreateOutcome::AlreadyExists);
    assert_eq!(r1, "run-1");
    assert_eq!(r2, "run-1");
}

#[test]
fn create_writes_workflow_started_and_runnable() {
    let mut db = Store::default();
    db.create_execution("run-1", "wf-A", "T", b"in");
    let h = db.read_history("run-1");
    assert_eq!(h.len(), 1);
    assert!(matches!(h[0].event, Event::WorkflowStarted { .. }));
    assert_eq!(db.next_runnable(), Some("run-1".into()));
}

#[test]
fn commit_turn_appends_clears_runnable_and_sets_status() {
    let db = db_with_task();
    let h = db.read_history("run-1");
    assert_eq!(h.len(), 2);
    assert!(matches!(h[1].event, Event::ActivityScheduled { seq: 0, .. }));
    assert_eq!(db.next_runnable(), None);
}

#[test]
fn inbound_events_carry_no_number() {
    let signal = Event::SignalReceived { name: "approve".into(), payload: b"true".to_vec() };
    assert_eq!(columns(&signal), (None, "SignalReceived"));
    assert_eq!(columns(&Event::WorkflowStarted { input: vec![] }), (None, "WorkflowStarted"));
    assert_eq!(columns(&Event::Patched { change_id: "v".into() }), (None, "Patched"));
    assert_eq!(columns(&Event::TimerFired { seq: 3 }), (Some(3), "TimerFired"));
}

#[test]
fn append_signal_delivers_to_running_and_marks_runnable() {
    let mut db = Store::default();
    db.create_execution("run-1", "wf-A", "T", b"in");
    db.commit_turn("run-1", &idle());
    assert_eq!(db.next_runnable(), None);
    assert_eq!(db.append_signal("wf-A", "approve", b"true"), SignalOutcome::Delivered);
    match &db.read_history("run-1").last().unwrap().event {
        Event::SignalReceived { name, payload } => {
            assert_eq!(name, "approve");
            assert_eq!(payload, b"true");
        }
        other => panic!("expected SignalReceived, got {other:?}"),
    }
    assert_eq!(db.next_runnable(), Some("run-1".into()));
}

#[test]
fn commit_turn_creates_child_execution_and_marks_it_runnable() {
    let mut db = Store::default();
    db.create_execution("parent-run", "parent-wf", "Parent", b"in");
    let commit = TurnCommit {
        events: vec![Event::ChildScheduled {
            seq: 0,
            workflow_type: "Child".into(),
            input: b"5".to_vec(),
        }],
        new_children: vec![NewChild {
            seq: 0,
            child_run_id: "child-run".into(),
            child_workflow_id: "parent-wf::child::0".into(),
            workflow_type: "Child".into(),
            input: b"5".to_vec(),
        }],
        ..idle()
    };
    db.commit_turn("parent-run", &commit);
    let meta = db.load_run("child-run").unwrap();
    assert_eq!(meta.workflow_type, "Child");
    assert_eq!(meta.status, ExecStatus::Running);
    assert_eq!(meta.parent_run_id.as_deref(), Some("parent-run"));
    assert_eq!(meta.parent_seq, Some(0));
    let h = db.read_history("child-run");
    assert_eq!(h.len(), 1);
    assert!(matches!(h[0].event, Event::WorkflowStarted { .. }));
    assert_eq!(db.next_runnable(), Some("child-run".into()));
}

#[test]
fn commit_turn_notifies_parent_with_child_completed() {
    let mut db = Store::default();
    db.create_execution("parent-run", "parent-wf", "Parent", b"in");
    db.create_execution("child-run", "child-wf", "Child", b"5");
    db.commit_turn("parent-run", &idle());
    let commit = TurnCommit {
        parent_notify: Some(ParentNotify {
            parent_run_id: "parent-run".into(),
            event: Event::ChildCompleted {
                seq: 0,
                result: ChildResult::Completed(b"10".to_vec()),
            },
        }),
        status: ExecStatus::Completed,
        result: Some(b"10".to_vec()),
        ..idle()
    };
    db.commit_turn("child-run", &commit);
    match &db.read_history("parent-run").last().unwrap().event {
        Event::ChildCompleted { seq: 0, result } => {
            assert_eq!(*result, ChildResult::Completed(b"10".to_vec()));
        }
        other => panic!("expected ChildCompleted, got {other:?}"),
    }
    assert_eq!(db.next_runnable(), Some("parent-run".into()));
}

#[test]
fn append_signal_unknown_id_is_not_found() {
    let mut db = Store::default();
    assert_eq!(
        db.append_signal("nope", "approve", b"true"),
        SignalOutcome::WorkflowNotFound
    );
}

#[test]
fn append_signal_to_terminal_run_is_not_running() {
    let mut db = Store::default();
    db.create_execution("run-1", "wf-A", "T", b"in");
    let done = TurnCommit {
        status: ExecStatus::Completed,
        result: Some(b"\"done\"".to_vec()),
        ..idle()
    };
    db.commit_turn("run-1", &done);
    assert_eq!(db.append_signal("wf-A", "approve", b"true"), SignalOutcome::NotRunning);
    assert!(matches!(
        db.read_history("run-1").last().unwrap().event,
        Event::WorkflowStarted { .. }
    ));
}

#[test]
fn read_events_carries_ts_in_order_without_child_ids() {
    let db = db_with_task();
    let evs = db.read_events("run-1");
    assert_eq!(evs.len(), 2);
    assert_eq!(evs[0].event_id, 1);
    assert!(matches!(evs[0].event, Event::WorkflowStarted { .. }));
    assert_eq!(evs[1].event_id, 2);
    assert!(matches!(evs[1].event, Event::ActivityScheduled { seq: 0, .. }));
    assert!(evs[0].ts > 0 && evs[1].ts >= evs[0].ts);
    assert!(evs.iter().all(|e| e.child_run_id.is_none()));
}

#[test]
fn read_events_resolves_child_run_id_for_child_events() {
    let mut db = Store::default();
    let mut engine = families();
    let handle = engine.start(&mut db, "Parent", &5i64, "p-3");
    engine.pump(&mut db);
    let (child_run, _, _) = db.find_execution("p-3::child::0").unwrap();
    let evs = db.read_events(handle.run_id());
    let child = evs
        .iter()
        .find(|e| matches!(e.event, Event::ChildScheduled { .. }))
        .unwrap();
    assert_eq!(child.child_run_id, Some(child_run));
}

#[test]
fn expired_lease_is_reclaimed_and_releasable() {
    let mut db = db_with_task();
    let lease = db.lease_activity().unwrap();
    assert_eq!(lease.attempt, 1);
    assert!(db.lease_activity().is_none(), "a running task is not leasable");
    db.now += 30_000;
    assert_eq!(db.reclaim_expired_activities(), 1);
    let released = db.lease_activity().expect("reclaimed task is leasable again");
    assert_eq!(
        released.attempt, 2,
        "re-lease after a crash counts as another attempt"
    );
}

#[test]
fn live_lease_is_not_reclaimed() {
    let mut db = db_with_task();
    let _lease = db.lease_activity().unwrap();
    assert_eq!(db.reclaim_expired_activities(), 0, "a live lease must not be reclaimed");
}

#[test]
fn lease_then_complete_appends_event_and_makes_runnable() {
    let mut db = db_with_task();
    let lease = db.lease_activity().expect("a task is due");
    assert_eq!(lease.seq, 0);
    assert_eq!(lease.attempt, 1);
    assert_eq!(lease.workflow_id, "wf-A");
    assert!(db.lease_activity().is_none());
    db.complete_activity(&lease, CommandResult::ActivityCompleted(b"3".to_vec()));
    assert!(matches!(
        db.read_history("run-1").last().unwrap().event,
        Event::ActivityCompleted { seq: 0, .. }
    ));
    assert_eq!(db.next_runnable(), Some("run-1".into()));
}

#[test]
fn reschedule_makes_task_leasable_again() {
    let mut db = db_with_task();
    let lease = db.lease_activity().unwrap();
    db.reschedule_activity(&lease, 0);
    assert!(db.lease_activity().is_some());
}

#[test]
fn complete_with_failure_appends_activity_failed() {
    let mut db = db_with_task();
    let lease = db.lease_activity().unwrap();
    db.complete_activity(
        &lease,
        CommandResult::ActivityFailed(activity::Error::fatal("boom")),
    );
    match &db.read_history("run-1").last().unwrap().event {
        Event::ActivityFailed { seq: 0, error } => assert_eq!(error.message, "boom"),
        other => panic!("expected ActivityFailed, got {other:?}"),
    }
    assert_eq!(db.next_runnable(), Some("run-1".into()));
}

#[test]
fn lease_round_trips_the_scheduled_retry_policy() {
    let mut db = Store::default();
    db.create_execution("run-1", "wf-A", "T", b"in");
    let policy = RetryPolicy::exponential(5);
    db.commit_turn("run-1", &scheduled(policy.clone(), 0));
    let lease = db.lease_activity().unwrap();
    assert_eq!(
        lease.retry, policy,
        "retry policy must round-trip from the ActivityScheduled payload"
    );
}

#[test]
fn task_not_due_yet_is_not_leasable() {
    let mut db = Store::default();
    db.create_execution("run-1", "wf-A", "T", b"in");
    let future = db.now + 60_000;
    db.commit_turn("run-1", &scheduled(RetryPolicy::none(), future));
    assert!(
        db.lease_activity().is_none(),
        "task with future next_run_at must not lease"
    );
}

#[test]
fn fire_due_timer_appends_timer_fired_and_makes_runnable() {
    let mut db = Store::default();
    db.create_execution("run-1", "wf-A", "T", b"in");
    let commit = TurnCommit {
        events: vec![Event::TimerStarted { seq: 0, duration_ms: 500 }],
        new_timers: vec![NewTimer { seq: 0, fire_at: 0 }],
        ..idle()
    };
    db.commit_turn("run-1", &commit);
    assert_eq!(db.next_runnable(), None);
    assert!(db.fire_due_timer(), "a due timer should fire");
    assert!(!db.fire_due_timer(), "timer row consumed -> nothing due");
    assert!(matches!(
        db.read_history("run-1").last().unwrap().event,
        Event::TimerFired { seq: 0 }
    ));
    assert_eq!(db.next_runnable(), Some("run-1".into()));
}

#[test]
fn timer_not_due_yet_does_not_fire() {
    let mut db = Store::default();
    db.create_execution("run-1", "wf-A", "T", b"in");
    let fire_at = db.now + 60_000;
    let commit = TurnCommit {
        events: vec![Event::TimerStarted { seq: 0, duration_ms: 60_000 }],
        new_timers: vec![NewTimer { seq: 0, fire_at }],
        ..idle()
    };
    db.commit_turn("run-1", &commit);
    assert!(!db.fire_due_timer(), "future timer must not fire");
}

#[test]
fn join_runs_concurrent_branches() {
    let (mut db, mut host) = (Store::default(), concurrent());
    let handle = host.start(&mut db, "Pair", &(), "pair-1");
    host.pump(&mut db);
    assert_eq!(result::<i64>(&db, &handle), 3 + 30);
}

#[test]
fn join_branches_replay_across_cold_recovery() {
    let mut db = Store::default();
    {
        let mut host = concurrent();
        host.start(&mut db, "Pair", &(), "pair-2");
        assert!(host.process_one_runnable(&mut db).unwrap());
        assert!(host.process_one_activity(&mut db));
    }
    concurrent().pump(&mut db);
    assert_eq!(status(&db, "pair-2"), ExecStatus::Completed);
    assert_eq!(output::<i64>(&db, "pair-2"), 33);
}

#[test]
fn select_biased_activity_beats_timer() {
    let (mut db, mut host) = (Store::default(), concurrent());
    let handle = host.start(&mut db, "Pick", &(), "pick-1");
    host.pump(&mut db);
    assert_eq!(result::<i64>(&db, &handle), 15);
}

#[test]
fn select_biased_replays_across_cold_recovery() {
    let mut db = Store::default();
    {
        let mut host = concurrent();
        host.start(&mut db, "Pick", &(), "pick-2");
        assert!(host.process_one_runnable(&mut db).unwrap());
        assert!(host.process_one_activity(&mut db));
    }
    concurrent().pump(&mut db);
    assert_eq!(status(&db, "pick-2"), ExecStatus::Completed);
    assert_eq!(output::<i64>(&db, "pick-2"), 15);
}

#[test]
fn spawn_detached_branch_completes() {
    let (mut db, mut host) = (Store::default(), concurrent());
    let handle = host.start(&mut db, "Detached", &(), "spawn-1");
    host.pump(&mut db);
    assert_eq!(result::<i64>(&db, &handle), 7);
}

#[test]
fn spawn_replays_across_cold_recovery() {
    let mut db = Store::default();
    {
        let mut host = concurrent();
        host.start(&mut db, "Detached", &(), "spawn-2");
        assert!(host.process_one_runnable(&mut db).unwrap());
        assert!(host.process_one_activity(&mut db));
    }
    concurrent().pump(&mut db);
    assert_eq!(status(&db, "spawn-2"), ExecStatus::Completed);
    assert_eq!(output::<i64>(&db, "spawn-2"), 7);
}

#[test]
fn injected_dependency_is_used() {
    let addend: i64 = 100;
    let mut host = Host::new()
        .workflow::<UseAddConst>()
        .activity("AddConst", move |n: i64| Ok(n + addend));
    let mut db = Store::default();
    let handle = host.start(&mut db, "UseAddConst", &(), "di-1");
    host.pump(&mut db);
    assert_eq!(result::<i64>(&db, &handle), 105);
}

#[test]
fn fake_registered_under_real_type_overrides_it() {
    let mut host = Host::new()
        .workflow::<CallEcho>()
        .activity("Echo", |n: i64| Ok(n))
        .activity("Echo", |_n: i64| Ok(999));
    let mut db = Store::default();
    let handle = host.start(&mut db, "CallEcho", &(), "echo-1");
    host.pump(&mut db);
    assert_eq!(result::<i64>(&db, &handle), 999);
}

#[test]
fn sums_space_separated_integers() {
    let (mut db, mut host) = (Store::default(), calculator());
    let handle = host.start(&mut db, "Parent", &"1 2 3", "calc-1");
    host.pump(&mut db);
    assert_eq!(result::<i64>(&db, &handle), 6);
}

#[test]
fn empty_input_sums_to_zero() {
    let (mut db, mut host) = (Store::default(), calculator());
    let handle = host.start(&mut db, "Parent", &"", "calc-empty");
    host.pump(&mut db);
    assert_eq!(result::<i64>(&db, &handle), 0);
}

#[test]
fn negative_integers_sum() {
    let (mut db, mut host) = (Store::default(), calculator());
    let handle = host.start(&mut db, "Parent", &"-5 10", "calc-neg");
    host.pump(&mut db);
    assert_eq!(result::<i64>(&db, &handle), 5);
}

#[test]
fn parse_failure_fails_the_workflow_with_a_message() {
    let (mut db, mut host) = (Store::default(), calculator());
    host.start(&mut db, "Parent", &"1 two 3", "calc-err");
    host.pump(&mut db);
    assert_eq!(status(&db, "calc-err"), ExecStatus::Failed);
    let err: serde_json::Value = output(&db, "calc-err");
    assert!(err["message"].as_str().unwrap().contains("two"), "got: {err}");
}

#[test]
fn message_signal_records_user_then_assistant_reply_and_stop_terminates() {
    let transcript: Rc<RefCell<Vec<ChatMessage>>> = Rc::new(RefCell::new(Vec::new()));
    let rows = transcript.clone();
    let mut host = Host::new()
        .workflow::<Session>()
        .activity("RecordMessage", move |a: (String, String, String, String, String)| {
            let args = RecordArgs {
                conversation_id: a.0,
                message_id: a.1,
                role: a.2,
                content: a.3,
                status: a.4,
            };
            let mut rows = rows.borrow_mut();
            let recorded = rows.iter().any(|m| m.message_id == args.message_id);
            let last = rows.last().map(|m| m.seq);
            rows.extend(record_message(args, recorded, last, 0));
            Ok(())
        })
        .activity("LlmComplete", |_c: String| Ok("hi there".to_string()));
    let mut db = Store::default();
    host.start(&mut db, "ChatSession", &"c1", "c1");
    host.pump(&mut db);

    host.signal(&mut db, "c1", "message", b"{\"message_id\":\"m1\",\"text\":\"hello\"}")
        .unwrap();
    host.pump(&mut db);
    let got: Vec<(String, String, String)> = transcript
        .borrow()
        .iter()
        .map(|m| (m.message_id.clone(), m.role.clone(), m.content.clone()))
        .collect();
    assert_eq!(
        got,
        vec![
            ("m1".into(), "user".into(), "hello".into()),
            ("m1-reply".into(), "assistant".into(), "hi there".into()),
        ]
    );

    host.signal(&mut db, "c1", "stop", b"{}").unwrap();
    host.pump(&mut db);
    assert_eq!(status(&db, "c1"), ExecStatus::Completed);
}

#[test]
fn commit_turn_round_trips_signal_received_with_null_seq() {
    let mut db = Store::default();
    db.create_execution("run-1", "wf-A", "T", b"in");
    let commit = TurnCommit {
        events: vec![Event::SignalReceived { name: "approve".into(), payload: b"true".to_vec() }],
        ..idle()
    };
    db.commit_turn("run-1", &commit);
    let h = db.read_history("run-1");
    match &h.last().unwrap().event {
        Event::SignalReceived { name, payload } => {
            assert_eq!(name, "approve");
            assert_eq!(payload, b"true");
        }
        other => panic!("expected SignalReceived, got {other:?}"),
    }
    assert_eq!(columns(&h.last().unwrap().event).0, None);
}

#[test]
fn read_events_empty_for_unknown_run() {
    let db = Store::default();
    assert!(db.read_events("nope").is_empty());
}

#[test]
fn list_executions_returns_roots_only() {
    let mut db = Store::default();
    db.create_execution("run-A", "wf-A", "Parent", b"in-A");
    db.create_execution("run-B", "wf-B", "Parent", b"in-B");
    let commit = TurnCommit {
        events: vec![Event::ChildScheduled {
            seq: 0,
            workflow_type: "SumChild".into(),
            input: b"[1]".to_vec(),
        }],
        new_children: vec![NewChild {
            seq: 0,
            child_run_id: "child-run".into(),
            child_workflow_id: "wf-B::child::0".into(),
            workflow_type: "SumChild".into(),
            input: b"[1]".to_vec(),
        }],
        ..idle()
    };
    db.commit_turn("run-B", &commit);

    let runs = db.list_executions();
    let ids: Vec<&str> = runs.iter().map(|r| r.run_id.as_str()).collect();
    assert!(ids.contains(&"run-A"));
    assert!(ids.contains(&"run-B"));
    assert!(!ids.contains(&"child-run"), "children are not roots");
    assert!(runs.windows(2).all(|w| w[0].started_at >= w[1].started_at));

    let b = runs.iter().find(|r| r.run_id == "run-B").unwrap();
    assert_eq!(b.workflow_type, "Parent");
    assert_eq!(b.status, ExecStatus::Running);
    assert_eq!(b.event_count, 2);
    assert!(b.started_at <= b.last_event_at);
}

#[test]
fn list_is_newest_first_and_leaves_out_runs_without_history() {
    let run = |id: &str, stamps: Vec<i64>| StoredRun {
        run_id: id.into(),
        workflow_id: id.into(),
        workflow_type: "T".into(),
        status: "completed".into(),
        parent_run_id: None,
        stamps,
    };
    let list = list_executions(&vec![
        run("old", vec![5, 9, 7]),
        run("none", vec![]),
        run("new", vec![8]),
        run("middle", vec![7, 6]),
    ]);
    let ids: Vec<&str> = list.iter().map(|r| r.run_id.as_str()).collect();
    assert_eq!(ids, vec!["new", "middle", "old"]);
    assert_eq!((list[2].started_at, list[2].last_event_at, list[2].event_count), (5, 9, 3));
    assert_eq!(list[2].status, ExecStatus::Completed);
}

#[test]
fn what_waited_longest_is_next() {
    let row = |id: &str, seq: i64, at: i64| Waiting { run_id: id.into(), seq, at };
    let rows = vec![row("a", 0, 9), row("b", 1, 4), row("c", 2, 4), row("d", 3, 6)];
    assert_eq!(next_runnable(&rows), Some("b".into()));
    assert_eq!(next_due(&rows, 4), Some(("b".into(), 1)));
    assert_eq!(next_due(&rows, 3), None);
    assert_eq!(next_runnable(&vec![]), None);
    assert_eq!(next_due(&vec![], 100), None);
}

fn told(parent_run_id: &str) -> ParentNotify {
    ParentNotify {
        parent_run_id: parent_run_id.into(),
        event: Event::ChildCompleted { seq: 0, result: ChildResult::Completed(b"5".to_vec()) },
    }
}

#[test]
fn notice_follows_what_the_turn_wrote() {
    let mut db = Store::default();
    db.create_execution("run-1", "wf-A", "T", b"in");
    let commit = TurnCommit {
        events: vec![
            Event::Patched { change_id: "a".into() },
            Event::Patched { change_id: "b".into() },
        ],
        parent_notify: Some(told("run-1")),
        ..idle()
    };
    db.commit_turn("run-1", &commit);
    let ids: Vec<i64> = db.read_history("run-1").iter().map(|h| h.event_id).collect();
    assert_eq!(ids, vec![1, 2, 3, 4]);
    assert_eq!(db.read_history("run-1")[3].event, told("run-1").event);
    assert_eq!(db.next_runnable(), None);

    let commit = TurnCommit {
        new_children: vec![NewChild {
            seq: 0,
            child_run_id: "child-run".into(),
            child_workflow_id: "wf-A::child::0".into(),
            workflow_type: "C".into(),
            input: b"[1]".to_vec(),
        }],
        parent_notify: Some(told("child-run")),
        ..idle()
    };
    db.commit_turn("run-1", &commit);
    let events = db.read_history("child-run");
    assert_eq!(events.iter().map(|h| h.event_id).collect::<Vec<i64>>(), vec![1, 2]);
    assert_eq!(events[1].event, told("child-run").event);
    assert_eq!(db.next_runnable(), Some("child-run".into()));
}

#[test]
fn turn_leaves_other_runs_alone() {
    let mut db = db_with_task();
    db.create_execution("run-2", "wf-B", "T", b"in");
    db.commit_turn(
        "run-2",
        &TurnCommit {
            new_timers: vec![NewTimer { seq: 0, fire_at: 77 }],
            ..scheduled(RetryPolicy::none(), 9)
        },
    );
    assert_eq!(db.read_history("run-1").len(), 2);
    let of = |db: &Store, id: &str| {
        db.tasks
            .iter()
            .find(|t| t.run_id == id)
            .map(|t| (t.activity_type.clone(), t.input.clone(), t.attempt, t.next_run_at))
            .unwrap()
    };
    assert_eq!(of(&db, "run-1"), ("Add".into(), b"[1,2]".to_vec(), 0, 0));
    assert_eq!(of(&db, "run-2"), ("Add".into(), b"[1,2]".to_vec(), 0, 9));
    assert_eq!(db.timers, vec![("run-2".to_string(), 0, 77)]);
}

#[test]
fn leased_task_is_not_leased_again_before_it_is_given_back() {
    let mut db = db_with_task();
    let lease = db.lease_activity().unwrap();
    db.append_signal("wf-A", "noise", b"1");
    assert!(db.lease_activity().is_none());
    db.reschedule_activity(&lease, 0);
    assert_eq!(db.lease_activity().unwrap().attempt, 2);
}

#[test]
fn starts_under_one_id_come_to_one_run() {
    let mut db = Store::default();
    let first = db.create_execution("run-1", "wf-A", "T", b"in");
    assert_eq!(first, (CreateOutcome::Created, "run-1".into()));
    let again = db.create_execution("run-2", "wf-A", "U", b"other");
    assert_eq!(again, (CreateOutcome::AlreadyExists, "run-1".into()));
    assert_eq!(db.executions.len(), 1);
    assert_eq!(db.history.len(), 1);
}
