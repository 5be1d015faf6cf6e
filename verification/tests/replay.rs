use std::cell::RefCell;
use std::future::Future;
use std::marker::PhantomData;
use std::pin::Pin;
use std::rc::Rc;
use std::task::Poll as TaskPoll;

use durable_workflow::activity;
use durable_workflow::workflow::{
    cold_replay, duration_ms, ActivityFuture, ChildFuture, ChildResult, Command, CommandResult, Context,
    Definition, Error, Event, Execution, Info, Poll, Relay, Reroute, RetryPolicy, SignalRecv,
    TimerFuture, WorkflowState,
};
use serde::de::DeserializeOwned;
use serde::Serialize;

// Bodies written as async functions. While a body is polled, its context lies where its
// futures find it.

type Branch = Pin<Box<dyn Future<Output = ()>>>;

struct Shared {
    ctx: Context,
    started: Vec<(u64, Branch)>,
}

#[derive(Clone)]
struct Ctx(Rc<RefCell<Shared>>);

fn task_poll<T>(poll: Poll<T>) -> TaskPoll<T> {
    match poll {
        Poll::Ready(v) => TaskPoll::Ready(v),
        Poll::Pending => TaskPoll::Pending,
    }
}

fn parsed<T: DeserializeOwned>(bytes: &[u8]) -> Result<T, String> {
    serde_json::from_slice(bytes).map_err(|e| e.to_string())
}

impl Ctx {
    async fn activity<T: DeserializeOwned>(
        &self,
        name: &str,
        input: &impl Serialize,
    ) -> Result<T, activity::Error> {
        let input = serde_json::to_vec(input).unwrap();
        let future = self.0.borrow_mut().ctx.activity(name, input);
        let bytes =
            std::future::poll_fn(|_| task_poll(future.poll(&mut self.0.borrow_mut().ctx))).await?;
        ActivityFuture::decoded(parsed(&bytes))
    }

    async fn child<T: DeserializeOwned>(
        &self,
        name: &str,
        input: &impl Serialize,
    ) -> Result<T, Error> {
        let input = serde_json::to_vec(input).unwrap();
        let future = self.0.borrow_mut().ctx.child_workflow(name, input);
        let bytes =
            std::future::poll_fn(|_| task_poll(future.poll(&mut self.0.borrow_mut().ctx))).await?;
        ChildFuture::decoded(parsed(&bytes))
    }

    fn timer(&self, ms: u64) -> TimerFuture {
        self.0.borrow_mut().ctx.timer(ms)
    }

    async fn sleep(&self, ms: u64) {
        let future = self.0.borrow_mut().ctx.sleep(ms);
        std::future::poll_fn(|_| task_poll(future.poll(&mut self.0.borrow_mut().ctx))).await
    }

    fn channel(&self, name: &str) -> SignalRecv {
        self.0.borrow().ctx.signal_channel(name).recv()
    }

    async fn recv<T: DeserializeOwned>(&self, name: &str) -> Result<T, Error> {
        let recv = self.channel(name);
        let bytes =
            std::future::poll_fn(|_| task_poll(recv.poll(&mut self.0.borrow_mut().ctx))).await;
        recv.decoded(parsed(&bytes))
    }

    fn spawn<T: 'static>(&self, fut: impl Future<Output = T> + 'static) -> impl Future<Output = T> {
        let handle = Rc::new(RefCell::new(self.0.borrow_mut().ctx.spawn::<T>()));
        let branch = handle.borrow().branch;
        let writer = handle.clone();
        self.0.borrow_mut().started.push((
            branch,
            Box::pin(async move {
                let v = fut.await;
                writer.borrow_mut().complete(v);
            }),
        ));
        std::future::poll_fn(move |_| task_poll(handle.borrow_mut().poll()))
    }

    fn patched(&self, change_id: &str) -> bool {
        self.0.borrow_mut().ctx.patched(change_id)
    }
}

trait Flow: 'static {
    type Input: DeserializeOwned;
    type Output: Serialize;
    fn run(ctx: Ctx, input: Self::Input) -> Pin<Box<dyn Future<Output = Result<Self::Output, Error>>>>;
}

struct Body<F: Flow> {
    shared: Rc<RefCell<Shared>>,
    main: Pin<Box<dyn Future<Output = Result<F::Output, Error>>>>,
    branches: Vec<(u64, Branch)>,
    flow: PhantomData<F>,
}

impl<F: Flow> Body<F> {
    fn swap(&self, ctx: &mut Context) {
        std::mem::swap(ctx, &mut self.shared.borrow_mut().ctx);
    }

    fn take_up(&mut self) {
        let started: Vec<(u64, Branch)> = self.shared.borrow_mut().started.drain(..).collect();
        self.branches.extend(started);
    }
}

impl<F: Flow> Definition for Body<F> {
    type State = ();

    fn start(input: Vec<u8>) -> Result<Self, String> {
        let input: F::Input = parsed(&input)?;
        let shared = Rc::new(RefCell::new(Shared {
            ctx: Context::new(named("")),
            started: Vec::new(),
        }));
        let main = F::run(Ctx(shared.clone()), input);
        Ok(Body { shared, main, branches: Vec::new(), flow: PhantomData })
    }

    fn poll(&mut self, ctx: &mut Context) -> Poll<Result<Vec<u8>, Error>> {
        self.swap(ctx);
        let waker = futures::task::noop_waker();
        let mut tcx = std::task::Context::from_waker(&waker);
        let poll = self.main.as_mut().poll(&mut tcx);
        self.swap(ctx);
        self.take_up();
        match poll {
            TaskPoll::Ready(Ok(v)) => Poll::Ready(Ok(serde_json::to_vec(&v).unwrap())),
            TaskPoll::Ready(Err(e)) => Poll::Ready(Err(e)),
            TaskPoll::Pending => Poll::Pending,
        }
    }

    fn poll_branch(&mut self, branch: u64, ctx: &mut Context) -> bool {
        let i = match self.branches.iter().position(|b| b.0 == branch) {
            Some(i) => i,
            None => return true,
        };
        self.swap(ctx);
        let waker = futures::task::noop_waker();
        let mut tcx = std::task::Context::from_waker(&waker);
        let done = self.branches[i].1.as_mut().poll(&mut tcx).is_ready();
        self.swap(ctx);
        if done {
            let _ = self.branches.remove(i);
        }
        self.take_up();
        done
    }
}

fn named(workflow_type: &str) -> Info {
    Info {
        execution: Execution {
            workflow_id: "w".into(),
            run_id: "r".into(),
        },
        parent: None,
        workflow_type: workflow_type.into(),
    }
}

fn info() -> Info {
    named("Sum")
}

fn nap_info() -> Info {
    named("Nap")
}

fn wait_info() -> Info {
    named("WaitApprove")
}

fn parent_info() -> Info {
    named("Parent")
}

fn branch_info() -> Info {
    named("Branch")
}

fn act_then_branch_info() -> Info {
    named("ActThenBranch")
}

fn act_patch_act_info() -> Info {
    named("ActPatchAct")
}

fn add_input(a: i64, b: i64) -> Vec<u8> {
    serde_json::to_vec(&(a, b)).unwrap()
}

fn full_history() -> Vec<Event> {
    vec![
        Event::WorkflowStarted {
            input: serde_json::to_vec(&()).unwrap(),
        },
        Event::ActivityScheduled {
            seq: 0,
            activity_type: "Add".into(),
            input: add_input(1, 2),
            retry: RetryPolicy::none(),
        },
        Event::ActivityCompleted {
            seq: 0,
            output: serde_json::to_vec(&3i64).unwrap(),
        },
        Event::ActivityScheduled {
            seq: 1,
            activity_type: "Add".into(),
            input: add_input(3, 10),
            retry: RetryPolicy::none(),
        },
        Event::ActivityCompleted {
            seq: 1,
            output: serde_json::to_vec(&13i64).unwrap(),
        },
    ]
}

struct Sum;
impl Flow for Sum {
    type Input = ();
    type Output = i64;
    fn run(ctx: Ctx, _i: ()) -> Pin<Box<dyn Future<Output = Result<i64, Error>>>> {
        Box::pin(async move {
            let a: i64 = ctx.activity("Add", &(1, 2)).await?;
            let b: i64 = ctx.activity("Add", &(a, 10)).await?;
            Ok(b)
        })
    }
}

// Sleeps, then runs one activity.
struct Nap;
impl Flow for Nap {
    type Input = ();
    type Output = i64;
    fn run(ctx: Ctx, _i: ()) -> Pin<Box<dyn Future<Output = Result<i64, Error>>>> {
        Box::pin(async move {
            ctx.sleep(500).await;
            let a: i64 = ctx.activity("Add", &(1, 2)).await?;
            Ok(a)
        })
    }
}

// Starts a branch that runs one activity, then awaits it.
struct Detached;
impl Flow for Detached {
    type Input = ();
    type Output = i64;
    fn run(ctx: Ctx, _i: ()) -> Pin<Box<dyn Future<Output = Result<i64, Error>>>> {
        Box::pin(async move {
            let ctx2 = ctx.clone();
            let h = ctx.spawn(async move { ctx2.activity::<i64>("Add", &(3, 4)).await.unwrap() });
            Ok(h.await)
        })
    }
}

// Starts a branch that nobody awaits.
struct FireAndForget;
impl Flow for FireAndForget {
    type Input = ();
    type Output = i64;
    fn run(ctx: Ctx, _i: ()) -> Pin<Box<dyn Future<Output = Result<i64, Error>>>> {
        Box::pin(async move {
            let ctx2 = ctx.clone();
            let _detached =
                ctx.spawn(async move { ctx2.activity::<i64>("Add", &(1, 1)).await.unwrap() });
            let v: i64 = ctx.activity("Add", &(10, 20)).await?;
            Ok(v)
        })
    }
}

struct TwoSpawns;
impl Flow for TwoSpawns {
    type Input = ();
    type Output = i64;
    fn run(ctx: Ctx, _i: ()) -> Pin<Box<dyn Future<Output = Result<i64, Error>>>> {
        Box::pin(async move {
            let c1 = ctx.clone();
            let c2 = ctx.clone();
            let a = ctx.spawn(async move { c1.activity::<i64>("Add", &(1, 1)).await.unwrap() });
            let b = ctx.spawn(async move { c2.activity::<i64>("Add", &(2, 2)).await.unwrap() });
            let va = a.await;
            let vb = b.await;
            Ok(va * 10 + vb)
        })
    }
}

struct WaitApprove;
impl Flow for WaitApprove {
    type Input = ();
    type Output = bool;
    fn run(ctx: Ctx, _i: ()) -> Pin<Box<dyn Future<Output = Result<bool, Error>>>> {
        Box::pin(async move {
            ctx.recv::<bool>("approve").await
        })
    }
}

struct TwoRecv;
impl Flow for TwoRecv {
    type Input = ();
    type Output = (i64, i64);
    fn run(ctx: Ctx, _i: ()) -> Pin<Box<dyn Future<Output = Result<(i64, i64), Error>>>> {
        Box::pin(async move {
            let a = ctx.recv::<i64>("n").await?;
            let b = ctx.recv::<i64>("n").await?;
            Ok((a, b))
        })
    }
}

// Waits for a signal or for a time, the signal first.
struct SignalOrTimeout;
impl Flow for SignalOrTimeout {
    type Input = u64;
    type Output = String;
    fn run(ctx: Ctx, timeout_ms: u64) -> Pin<Box<dyn Future<Output = Result<String, Error>>>> {
        Box::pin(async move {
            let recv = ctx.channel("approve");
            let nap = ctx.timer(timeout_ms);
            let signal = std::future::poll_fn(|_| {
                let inner = &mut ctx.0.borrow_mut().ctx;
                if let Poll::Ready(bytes) = recv.poll(inner) {
                    return TaskPoll::Ready(Some(bytes));
                }
                task_poll(nap.poll(inner)).map(|_| None)
            })
            .await;
            let out = match signal {
                Some(bytes) if recv.decoded::<bool>(parsed(&bytes))? => "approved",
                Some(_) => "rejected",
                None => "timed_out",
            };
            Ok(out.to_string())
        })
    }
}

// Starts one child and adds one to its output.
struct Parent;
impl Flow for Parent {
    type Input = ();
    type Output = i64;
    fn run(ctx: Ctx, _i: ()) -> Pin<Box<dyn Future<Output = Result<i64, Error>>>> {
        Box::pin(async move {
            let v: i64 = ctx.child("Child", &5i64).await?;
            Ok(v + 1)
        })
    }
}

struct Branched;
impl Flow for Branched {
    type Input = ();
    type Output = i64;
    fn run(ctx: Ctx, _i: ()) -> Pin<Box<dyn Future<Output = Result<i64, Error>>>> {
        Box::pin(async move {
            if ctx.patched("v2") {
                Ok(1)
            } else {
                Ok(0)
            }
        })
    }
}

struct ActThenBranch;
impl Flow for ActThenBranch {
    type Input = ();
    type Output = i64;
    fn run(ctx: Ctx, _i: ()) -> Pin<Box<dyn Future<Output = Result<i64, Error>>>> {
        Box::pin(async move {
            let a: i64 = ctx.activity("Add", &(1, 1)).await?;
            if ctx.patched("v2") {
                Ok(a + 100)
            } else {
                Ok(a)
            }
        })
    }
}

struct ActPatchAct;
impl Flow for ActPatchAct {
    type Input = ();
    type Output = i64;
    fn run(ctx: Ctx, _i: ()) -> Pin<Box<dyn Future<Output = Result<i64, Error>>>> {
        Box::pin(async move {
            let a: i64 = ctx.activity("Add", &(1, 1)).await?;
            if ctx.patched("v2") {
                Ok(a + 100)
            } else {
                let b: i64 = ctx.activity("Add", &(3, 3)).await?;
                Ok(a + b)
            }
        })
    }
}

/// The commands of a longer history start with those of a shorter one.
fn assert_prefix_stable<W: Definition>(info: Info, full: &[Event]) {
    let mut prev: Vec<Command> = Vec::new();
    for k in 1..=full.len() {
        let outcome = cold_replay::<W>(info.clone(), &full[..k])
            .unwrap_or_else(|e| panic!("prefix {k} diverged: {}", e.to_string()));
        assert!(
            outcome.commands.len() >= prev.len(),
            "prefix {k}: command stream shrank ({} < {})",
            outcome.commands.len(),
            prev.len()
        );
        assert!(
            outcome.commands.starts_with(&prev),
            "prefix {k}: command stream rewrote an earlier command"
        );
        prev = outcome.commands;
    }
}

#[test]
fn replays_full_history_to_same_output_and_commands() {
    let outcome = cold_replay::<Body<Sum>>(info(), &full_history()).unwrap();
    let bytes = outcome.completion.unwrap().unwrap();
    let out: i64 = serde_json::from_slice(&bytes).unwrap();
    assert_eq!(out, 13);
    assert_eq!(outcome.commands.len(), 2);
    assert!(matches!(
        &outcome.commands[0],
        Command::ScheduleActivity { seq: 0, .. }
    ));
    assert!(matches!(
        &outcome.commands[1],
        Command::ScheduleActivity { seq: 1, .. }
    ));
}

#[test]
fn detects_divergent_activity_type() {
    // History claims seq 0 scheduled "Charge", but Sum schedules "Add".
    let mut h = full_history();
    h[1] = Event::ActivityScheduled {
        seq: 0,
        activity_type: "Charge".into(),
        input: add_input(1, 2),
        retry: RetryPolicy::none(),
    };
    let err = cold_replay::<Body<Sum>>(info(), &h).unwrap_err();
    assert_eq!(err.seq, 0);
    assert!(err.detail.contains("Charge"));
}

#[test]
fn detects_divergent_activity_input() {
    // History keeps activity_type "Add" for seq 0 but records a corrupted
    // input; Sum emits add_input(1, 2). The type half matches, so this
    // exercises the `rin != input` half of the divergence check. The detail
    // reports the type ("Add" on both sides), so we assert only on .seq.
    let mut h = full_history();
    h[1] = Event::ActivityScheduled {
        seq: 0,
        activity_type: "Add".into(),
        input: add_input(9, 9),
        retry: RetryPolicy::none(),
    };
    let err = cold_replay::<Body<Sum>>(info(), &h).unwrap_err();
    assert_eq!(err.seq, 0);
}

#[test]
fn failed_activity_surfaces_as_workflow_error() {
    // seq 0 scheduled, then Failed. Sum's `?` converts the activity::Error
    // into a workflow::Error and returns it: the workflow future resolves to
    // Err. This is NOT nondeterminism — cold_replay returns Ok with a
    // completion of Some(Err(_)).
    let h = vec![
        Event::WorkflowStarted {
            input: serde_json::to_vec(&()).unwrap(),
        },
        Event::ActivityScheduled {
            seq: 0,
            activity_type: "Add".into(),
            input: add_input(1, 2),
            retry: RetryPolicy::none(),
        },
        Event::ActivityFailed {
            seq: 0,
            error: activity::Error::fatal("boom"),
        },
    ];
    let outcome = cold_replay::<Body<Sum>>(info(), &h).unwrap();
    match outcome.completion {
        Some(Err(e)) => assert_eq!(e.message, "boom"),
        other => panic!("expected Some(Err(boom)), got {other:?}"),
    }
}

#[test]
fn replays_timer_then_activity() {
    let h = vec![
        Event::WorkflowStarted {
            input: serde_json::to_vec(&()).unwrap(),
        },
        Event::TimerStarted {
            seq: 0,
            duration_ms: 500,
        },
        Event::TimerFired { seq: 0 },
        Event::ActivityScheduled {
            seq: 1,
            activity_type: "Add".into(),
            input: add_input(1, 2),
            retry: RetryPolicy::none(),
        },
        Event::ActivityCompleted {
            seq: 1,
            output: serde_json::to_vec(&3i64).unwrap(),
        },
    ];
    let outcome = cold_replay::<Body<Nap>>(nap_info(), &h).unwrap();
    let out: i64 = serde_json::from_slice(&outcome.completion.unwrap().unwrap()).unwrap();
    assert_eq!(out, 3);
    // First command is the timer (seq 0), then the activity (seq 1).
    assert!(matches!(
        &outcome.commands[0],
        Command::StartTimer {
            seq: 0,
            duration_ms: 500
        }
    ));
    assert!(matches!(
        &outcome.commands[1],
        Command::ScheduleActivity { seq: 1, .. }
    ));
}

#[test]
fn detects_divergent_timer_duration() {
    // History recorded a 500ms timer at seq 0; Nap emits 500ms, so mutate the
    // record to 999ms and expect a nondeterminism error at seq 0.
    let h = vec![
        Event::WorkflowStarted {
            input: serde_json::to_vec(&()).unwrap(),
        },
        Event::TimerStarted {
            seq: 0,
            duration_ms: 999,
        },
        Event::TimerFired { seq: 0 },
    ];
    let err = cold_replay::<Body<Nap>>(nap_info(), &h).unwrap_err();
    assert_eq!(err.seq, 0);
    assert!(err.detail.contains("timer"));
}

#[test]
fn replays_spawned_branch() {
    let info = Info {
        execution: Execution {
            workflow_id: "w".into(),
            run_id: "r".into(),
        },
        parent: None,
        workflow_type: "Detached".into(),
    };
    let h = vec![
        Event::WorkflowStarted {
            input: serde_json::to_vec(&()).unwrap(),
        },
        // The spawned branch's activity is the first (and only) seq allocated.
        Event::ActivityScheduled {
            seq: 0,
            activity_type: "Add".into(),
            input: add_input(3, 4),
            retry: RetryPolicy::none(),
        },
        Event::ActivityCompleted {
            seq: 0,
            output: serde_json::to_vec(&7i64).unwrap(),
        },
    ];
    let outcome = cold_replay::<Body<Detached>>(info, &h).unwrap();
    let out: i64 = serde_json::from_slice(&outcome.completion.unwrap().unwrap()).unwrap();
    assert_eq!(out, 7);
    assert_eq!(outcome.commands.len(), 1);
    assert!(matches!(
        &outcome.commands[0],
        Command::ScheduleActivity { seq: 0, .. }
    ));
}

#[test]
fn fire_and_forget_spawn_does_not_block_completion() {
    let info = Info {
        execution: Execution {
            workflow_id: "w".into(),
            run_id: "r".into(),
        },
        parent: None,
        workflow_type: "FireAndForget".into(),
    };
    let h = vec![
        Event::WorkflowStarted {
            input: serde_json::to_vec(&()).unwrap(),
        },
        Event::ActivityScheduled {
            seq: 0,
            activity_type: "Add".into(),
            input: add_input(10, 20),
            retry: RetryPolicy::none(),
        },
        Event::ActivityScheduled {
            seq: 1,
            activity_type: "Add".into(),
            input: add_input(1, 1),
            retry: RetryPolicy::none(),
        },
        Event::ActivityCompleted {
            seq: 0,
            output: serde_json::to_vec(&30i64).unwrap(),
        },
        Event::ActivityCompleted {
            seq: 1,
            output: serde_json::to_vec(&2i64).unwrap(),
        },
    ];
    let outcome = cold_replay::<Body<FireAndForget>>(info, &h).unwrap();
    let out: i64 = serde_json::from_slice(&outcome.completion.unwrap().unwrap()).unwrap();
    assert_eq!(
        out, 30,
        "main returns its own activity result regardless of the detached branch"
    );
    assert_eq!(
        outcome.commands.len(),
        2,
        "both the main and the detached activity are scheduled"
    );
}

#[test]
fn two_spawns_resolve_out_of_order() {
    let info = Info {
        execution: Execution {
            workflow_id: "w".into(),
            run_id: "r".into(),
        },
        parent: None,
        workflow_type: "TwoSpawns".into(),
    };
    let h = vec![
        Event::WorkflowStarted {
            input: serde_json::to_vec(&()).unwrap(),
        },
        Event::ActivityScheduled {
            seq: 0,
            activity_type: "Add".into(),
            input: add_input(1, 1),
            retry: RetryPolicy::none(),
        },
        Event::ActivityScheduled {
            seq: 1,
            activity_type: "Add".into(),
            input: add_input(2, 2),
            retry: RetryPolicy::none(),
        },
        // Branch B (seq 1) completes BEFORE branch A (seq 0).
        Event::ActivityCompleted {
            seq: 1,
            output: serde_json::to_vec(&4i64).unwrap(),
        },
        Event::ActivityCompleted {
            seq: 0,
            output: serde_json::to_vec(&2i64).unwrap(),
        },
    ];
    let outcome = cold_replay::<Body<TwoSpawns>>(info, &h).unwrap();
    let out: i64 = serde_json::from_slice(&outcome.completion.unwrap().unwrap()).unwrap();
    assert_eq!(
        out, 24,
        "va=2 (A=1+1), vb=4 (B=2+2) -> 2*10+4 even though B resolved first"
    );
    assert_eq!(outcome.commands.len(), 2);
}

#[test]
fn replays_signal_received() {
    let h = vec![
        Event::WorkflowStarted {
            input: serde_json::to_vec(&()).unwrap(),
        },
        Event::SignalReceived {
            name: "approve".into(),
            payload: serde_json::to_vec(&true).unwrap(),
        },
    ];
    let outcome = cold_replay::<Body<WaitApprove>>(wait_info(), &h).unwrap();
    let out: bool = serde_json::from_slice(&outcome.completion.unwrap().unwrap()).unwrap();
    assert!(out);
    assert!(
        outcome.commands.is_empty(),
        "signals are inbound: they allocate no command and no seq"
    );
}

#[test]
fn signal_for_other_name_leaves_recv_pending() {
    // A signal for a DIFFERENT name must not resolve the "approve" recv.
    let h = vec![
        Event::WorkflowStarted {
            input: serde_json::to_vec(&()).unwrap(),
        },
        Event::SignalReceived {
            name: "other".into(),
            payload: serde_json::to_vec(&true).unwrap(),
        },
    ];
    let outcome = cold_replay::<Body<WaitApprove>>(wait_info(), &h).unwrap();
    assert!(
        outcome.completion.is_none(),
        "a signal for a different name does not wake recv()"
    );
}

#[test]
fn two_signals_resolve_in_order_one_per_turn() {
    let info = Info {
        execution: Execution {
            workflow_id: "w".into(),
            run_id: "r".into(),
        },
        parent: None,
        workflow_type: "TwoRecv".into(),
    };
    let h = vec![
        Event::WorkflowStarted {
            input: serde_json::to_vec(&()).unwrap(),
        },
        Event::SignalReceived {
            name: "n".into(),
            payload: serde_json::to_vec(&1i64).unwrap(),
        },
        Event::SignalReceived {
            name: "n".into(),
            payload: serde_json::to_vec(&2i64).unwrap(),
        },
    ];
    let outcome = cold_replay::<Body<TwoRecv>>(info, &h).unwrap();
    let out: (i64, i64) =
        serde_json::from_slice(&outcome.completion.unwrap().unwrap()).unwrap();
    assert_eq!(
        out,
        (1, 2),
        "the Nth recv pops the Nth buffered signal of that name"
    );
}

#[test]
fn signal_or_timeout_replays_signal_branch_deterministically() {
    let info = Info {
        execution: Execution {
            workflow_id: "w".into(),
            run_id: "r".into(),
        },
        parent: None,
        workflow_type: "SignalOrTimeout".into(),
    };
    let h = vec![
        Event::WorkflowStarted {
            input: serde_json::to_vec(&86_400_000u64).unwrap(),
        },
        // The day-long timer the workflow started on turn 1 (a command echo, NOT an
        // applied inbound event).
        Event::TimerStarted {
            seq: 0,
            duration_ms: 86_400_000,
        },
        // The signal that resolved the biased `recv` branch.
        Event::SignalReceived {
            name: "approve".into(),
            payload: serde_json::to_vec(&true).unwrap(),
        },
    ];
    let outcome = cold_replay::<Body<SignalOrTimeout>>(info, &h).unwrap();
    let out: String = serde_json::from_slice(&outcome.completion.unwrap().unwrap()).unwrap();
    assert_eq!(
        out, "approved",
        "the signal branch wins identically on replay"
    );
    assert_eq!(
        outcome.commands,
        vec![Command::StartTimer {
            seq: 0,
            duration_ms: 86_400_000
        }],
        "the StartTimer echo re-emits at the same seq; the signal allocates no command"
    );
}

#[test]
fn replays_child_completed_to_parent_output() {
    // History: child scheduled, child completed with output 10 (=5*2).
    // Parent's ChildFuture resolves to Ok(10), adds 1 -> output 11.
    let h = vec![
        Event::WorkflowStarted {
            input: serde_json::to_vec(&()).unwrap(),
        },
        Event::ChildScheduled {
            seq: 0,
            workflow_type: "Child".into(),
            input: serde_json::to_vec(&5i64).unwrap(),
        },
        Event::ChildCompleted {
            seq: 0,
            result: ChildResult::Completed(serde_json::to_vec(&10i64).unwrap()),
        },
    ];
    let outcome = cold_replay::<Body<Parent>>(parent_info(), &h).unwrap();
    let out: i64 = serde_json::from_slice(&outcome.completion.unwrap().unwrap()).unwrap();
    assert_eq!(out, 11, "child returned 10 (=5*2); parent adds 1");
    assert_eq!(outcome.commands.len(), 1);
    assert!(matches!(
        &outcome.commands[0],
        Command::StartChild { seq: 0, .. }
    ));
}

#[test]
fn child_failure_propagates_to_parent_error() {
    // History: child scheduled, child completed with Failure.
    // Parent's ChildFuture resolves to Err, ? turns it into workflow error.
    let h = vec![
        Event::WorkflowStarted {
            input: serde_json::to_vec(&()).unwrap(),
        },
        Event::ChildScheduled {
            seq: 0,
            workflow_type: "Child".into(),
            input: serde_json::to_vec(&5i64).unwrap(),
        },
        Event::ChildCompleted {
            seq: 0,
            result: ChildResult::Failed(Error::new("child died")),
        },
    ];
    let outcome = cold_replay::<Body<Parent>>(parent_info(), &h).unwrap();
    match outcome.completion {
        Some(Err(e)) => assert_eq!(e.message, "child died"),
        other => panic!("expected Some(Err(child died)), got {other:?}"),
    }
}

#[test]
fn detects_divergent_child_type() {
    // History recorded a child of type "Other" at seq 0, but Parent emits "Child".
    let h = vec![
        Event::WorkflowStarted {
            input: serde_json::to_vec(&()).unwrap(),
        },
        Event::ChildScheduled {
            seq: 0,
            workflow_type: "Other".into(),
            input: serde_json::to_vec(&5i64).unwrap(),
        },
    ];
    let err = cold_replay::<Body<Parent>>(parent_info(), &h).unwrap_err();
    assert_eq!(err.seq, 0);
    assert!(err.detail.contains("Other"));
}

#[test]
fn detects_kind_divergence_activity_recorded_timer_in_history() {
    // History recorded a TIMER at seq 0, but Sum emits an ACTIVITY at seq 0.
    // Pre-hardening this was silent (the activity map had no seq-0 entry).
    let h = vec![
        Event::WorkflowStarted {
            input: serde_json::to_vec(&()).unwrap(),
        },
        Event::TimerStarted {
            seq: 0,
            duration_ms: 500,
        },
    ];
    let err = cold_replay::<Body<Sum>>(info(), &h).unwrap_err();
    assert_eq!(err.seq, 0);
    assert!(
        err.detail.contains("timer") && err.detail.contains("activity"),
        "detail should name both the recorded kind and the emitted kind, got: {}",
        err.detail
    );
}

#[test]
fn detects_kind_divergence_child_emitted_activity_recorded() {
    // History recorded an ACTIVITY at seq 0, but Parent emits a CHILD at seq 0.
    let h = vec![
        Event::WorkflowStarted {
            input: serde_json::to_vec(&()).unwrap(),
        },
        Event::ActivityScheduled {
            seq: 0,
            activity_type: "Add".into(),
            input: add_input(1, 2),
            retry: RetryPolicy::none(),
        },
    ];
    let err = cold_replay::<Body<Parent>>(parent_info(), &h).unwrap_err();
    assert_eq!(err.seq, 0);
    assert!(
        err.detail.contains("activity") && err.detail.contains("child"),
        "detail should name both the recorded kind and the emitted kind, got: {}",
        err.detail
    );
}

#[test]
fn patched_new_execution_emits_marker_and_takes_new_branch() {
    // Empty history beyond WorkflowStarted: nothing to apply, so the very first
    // poll is at the live frontier -> patched records the marker and returns true.
    let h = vec![Event::WorkflowStarted {
        input: serde_json::to_vec(&()).unwrap(),
    }];
    let outcome = cold_replay::<Body<Branched>>(branch_info(), &h).unwrap();
    let out: i64 = serde_json::from_slice(&outcome.completion.unwrap().unwrap()).unwrap();
    assert_eq!(out, 1, "new execution takes the patched branch");
    assert_eq!(outcome.commands.len(), 1);
    assert!(matches!(
        &outcome.commands[0],
        Command::RecordPatch { change_id } if change_id == "v2"
    ));
}

#[test]
fn patched_replays_recorded_marker_without_re_emitting() {
    let h = vec![
        Event::WorkflowStarted {
            input: serde_json::to_vec(&()).unwrap(),
        },
        Event::Patched {
            change_id: "v2".into(),
        },
    ];
    let outcome = cold_replay::<Body<Branched>>(branch_info(), &h).unwrap();
    let out: i64 = serde_json::from_slice(&outcome.completion.unwrap().unwrap()).unwrap();
    assert_eq!(out, 1, "recorded marker -> patched branch");
    assert!(
        outcome.commands.is_empty(),
        "a recorded marker re-emits no command"
    );
}

#[test]
fn patched_takes_old_branch_when_replaying_older_history() {
    // Pre-patch history: TWO activities (seq0, seq1) both completed. On replay with
    // patched-bearing code, patched() is reached after seq0 resolves, but seq1's
    // recorded events still remain AHEAD (cursor < applied.len()) -> replaying == true
    // -> patched() == false -> old branch schedules seq1, returns a+b, no marker, no
    // divergence.
    let h = vec![
        Event::WorkflowStarted {
            input: serde_json::to_vec(&()).unwrap(),
        },
        Event::ActivityScheduled {
            seq: 0,
            activity_type: "Add".into(),
            input: add_input(1, 1),
            retry: RetryPolicy::none(),
        },
        Event::ActivityCompleted {
            seq: 0,
            output: serde_json::to_vec(&2i64).unwrap(),
        },
        Event::ActivityScheduled {
            seq: 1,
            activity_type: "Add".into(),
            input: add_input(3, 3),
            retry: RetryPolicy::none(),
        },
        Event::ActivityCompleted {
            seq: 1,
            output: serde_json::to_vec(&6i64).unwrap(),
        },
    ];
    let outcome = cold_replay::<Body<ActPatchAct>>(act_patch_act_info(), &h).unwrap();
    let out: i64 = serde_json::from_slice(&outcome.completion.unwrap().unwrap()).unwrap();
    assert_eq!(
        out, 8,
        "old history with events ahead -> old branch: a=2, b=6 -> 8"
    );
    assert!(
        !outcome
            .commands
            .iter()
            .any(|c| matches!(c, Command::RecordPatch { .. })),
        "old branch records no marker"
    );
}

#[test]
fn patched_at_frontier_after_activity_records_marker_and_takes_new_branch() {
    // New code runs an activity, then reaches patched() at the LIVE FRONTIER: seq0's
    // completion is the LAST recorded event, so when patched() is reached nothing
    // remains ahead (cursor == applied.len()) -> replaying == false -> first live
    // execution -> record the marker and take the new branch. Distinguishes the
    // correct `cursor < applied.len()` rule from a `!applied.is_empty()` mistake.
    let h = vec![
        Event::WorkflowStarted {
            input: serde_json::to_vec(&()).unwrap(),
        },
        Event::ActivityScheduled {
            seq: 0,
            activity_type: "Add".into(),
            input: add_input(1, 1),
            retry: RetryPolicy::none(),
        },
        Event::ActivityCompleted {
            seq: 0,
            output: serde_json::to_vec(&2i64).unwrap(),
        },
    ];
    let outcome = cold_replay::<Body<ActThenBranch>>(act_then_branch_info(), &h).unwrap();
    let out: i64 = serde_json::from_slice(&outcome.completion.unwrap().unwrap()).unwrap();
    assert_eq!(out, 102, "frontier -> new branch: a=2 -> a+100");
    assert!(
        outcome
            .commands
            .iter()
            .any(|c| matches!(c, Command::RecordPatch { change_id } if change_id == "v2")),
        "first live execution records the marker"
    );
}

#[test]
fn prefix_replay_is_stable_activities() {
    assert_prefix_stable::<Body<Sum>>(info(), &full_history());
}

#[test]
fn prefix_replay_is_stable_timer_then_activity() {
    let h = vec![
        Event::WorkflowStarted {
            input: serde_json::to_vec(&()).unwrap(),
        },
        Event::TimerStarted {
            seq: 0,
            duration_ms: 500,
        },
        Event::TimerFired { seq: 0 },
        Event::ActivityScheduled {
            seq: 1,
            activity_type: "Add".into(),
            input: add_input(1, 2),
            retry: RetryPolicy::none(),
        },
        Event::ActivityCompleted {
            seq: 1,
            output: serde_json::to_vec(&3i64).unwrap(),
        },
    ];
    assert_prefix_stable::<Body<Nap>>(nap_info(), &h);
}

#[test]
fn drives_two_sequential_activities_to_completion() {
    let mut s = WorkflowState::start(info(), Body::<Sum>::start(b"null".to_vec()).unwrap());

    // Turn 1: schedules activity seq 0.
    assert!(s.poll_turn().is_pending());
    let c0 = s.drain_commands();
    assert!(matches!(&c0[0], Command::ScheduleActivity { seq: 0, .. }));

    // Feed result of seq 0 (=3), one event this turn.
    s.apply_result(0, CommandResult::ActivityCompleted(serde_json::to_vec(&3i64).unwrap()));
    assert!(s.poll_turn().is_pending());
    let c1 = s.drain_commands();
    assert!(matches!(&c1[0], Command::ScheduleActivity { seq: 1, .. }));

    // Feed result of seq 1 (=13).
    s.apply_result(1, CommandResult::ActivityCompleted(serde_json::to_vec(&13i64).unwrap()));
    match s.poll_turn() {
        Poll::Ready(Ok(bytes)) => {
            let out: i64 = serde_json::from_slice(&bytes).unwrap();
            assert_eq!(out, 13);
        }
        other => panic!("expected Ready(Ok), got {other:?}"),
    }
}

#[test]
fn history_without_a_start_is_refused() {
    let err = cold_replay::<Body<Sum>>(info(), &[]).unwrap_err();
    assert_eq!(err.seq, 0);
    assert_eq!(err.detail, "history must start with WorkflowStarted");
    let err = cold_replay::<Body<Sum>>(info(), &[Event::TimerFired { seq: 0 }]).unwrap_err();
    assert_eq!(
        err.to_string(),
        "nondeterminism at seq 0: history must start with WorkflowStarted"
    );
}

#[test]
fn input_that_does_not_parse_is_refused() {
    let h = vec![Event::WorkflowStarted { input: b"oops".to_vec() }];
    let err = cold_replay::<Body<Sum>>(info(), &h).unwrap_err();
    assert_eq!(err.seq, 0);
    assert!(err.detail.starts_with("input deserialize: expected"), "got: {}", err.detail);
}

#[test]
fn divergence_names_both_commands_and_the_number() {
    let h = vec![
        Event::WorkflowStarted { input: b"null".to_vec() },
        Event::TimerStarted { seq: 0, duration_ms: 500 },
    ];
    let err = cold_replay::<Body<Sum>>(info(), &h).unwrap_err();
    assert_eq!(
        err.detail,
        "history recorded timer 500ms at seq 0, workflow emitted activity Add"
    );
    let err = cold_replay::<Body<Parent>>(parent_info(), &h).unwrap_err();
    assert_eq!(
        err.detail,
        "history recorded timer 500ms at seq 0, workflow emitted child Child"
    );
}

#[test]
fn another_retry_policy_is_no_divergence() {
    let mut h = full_history();
    h[1] = Event::ActivityScheduled {
        seq: 0,
        activity_type: "Add".into(),
        input: add_input(1, 2),
        retry: RetryPolicy::exponential(9),
    };
    assert!(cold_replay::<Body<Sum>>(info(), &h).is_ok());
}

#[test]
fn no_number_goes_out_twice() {
    let outcome = cold_replay::<Body<Sum>>(info(), &full_history()).unwrap();
    let mut seqs: Vec<u64> = outcome
        .commands
        .iter()
        .map(|c| match c {
            Command::ScheduleActivity { seq, .. } => *seq,
            other => panic!("unexpected {other:?}"),
        })
        .collect();
    seqs.dedup();
    assert_eq!(seqs, vec![0, 1]);
}

#[test]
fn signal_that_does_not_parse_fails_the_receive() {
    let h = vec![
        Event::WorkflowStarted { input: b"null".to_vec() },
        Event::SignalReceived { name: "approve".into(), payload: b"7".to_vec() },
    ];
    let outcome = cold_replay::<Body<WaitApprove>>(wait_info(), &h).unwrap();
    let err = outcome.completion.unwrap().unwrap_err();
    assert!(err.message.starts_with("signal 'approve' deserialize: invalid type"));
}

#[test]
fn events_after_the_end_change_nothing() {
    let mut h = full_history();
    let before = cold_replay::<Body<Sum>>(info(), &h).unwrap();
    h.push(Event::SignalReceived { name: "late".into(), payload: b"1".to_vec() });
    let after = cold_replay::<Body<Sum>>(info(), &h).unwrap();
    assert_eq!(before, after);
}

fn relayed(outcome: Option<Event>) -> Vec<Event> {
    let mut history = vec![
        Event::WorkflowStarted { input: b"in".to_vec() },
        Event::ActivityScheduled {
            seq: 0,
            activity_type: "Add".into(),
            input: b"in".to_vec(),
            retry: RetryPolicy::none(),
        },
    ];
    history.extend(outcome);
    history
}

#[test]
fn relay_returns_what_its_activity_gave() {
    let done = Event::ActivityCompleted { seq: 0, output: b"out".to_vec() };
    let outcome = cold_replay::<Relay>(named("Add"), &relayed(Some(done))).unwrap();
    assert_eq!(
        outcome.commands,
        vec![Command::ScheduleActivity {
            seq: 0,
            activity_type: "Add".into(),
            input: b"in".to_vec(),
            retry: RetryPolicy::none(),
        }]
    );
    assert_eq!(outcome.completion, Some(Ok(b"out".to_vec())));

    let failed = Event::ActivityFailed { seq: 0, error: activity::Error::fatal("no") };
    let outcome = cold_replay::<Relay>(named("Add"), &relayed(Some(failed))).unwrap();
    assert_eq!(outcome.completion, Some(Err(Error::new("no"))));

    let outcome = cold_replay::<Relay>(named("Add"), &relayed(None)).unwrap();
    assert_eq!(outcome.commands.len(), 1);
    assert_eq!(outcome.completion, None);

    let wrong = cold_replay::<Relay>(named("Sub"), &relayed(None)).unwrap_err();
    assert_eq!(
        wrong.to_string(),
        "nondeterminism at seq 0: history recorded activity Add at seq 0, \
         workflow emitted activity Sub"
    );
}

#[test]
fn every_beginning_of_a_relays_history_replays() {
    let done = Event::ActivityCompleted { seq: 0, output: b"out".to_vec() };
    let history = relayed(Some(done));
    let whole = cold_replay::<Relay>(named("Add"), &history).unwrap();
    for n in 1..=history.len() {
        let part = cold_replay::<Relay>(named("Add"), &history[..n]).unwrap();
        assert!(whole.commands.starts_with(&part.commands));
        assert_eq!(part.completion.is_some(), n == history.len());
    }
}

#[test]
fn durations_are_cut_to_whole_milliseconds() {
    for (secs, nanos) in [(0, 0), (0, 999_999), (0, 1_000_000), (86_400, 0), (3, 999_999_999)] {
        let dur = std::time::Duration::new(secs, nanos);
        assert_eq!(duration_ms(dur.as_secs(), dur.subsec_nanos()), dur.as_millis() as u64);
    }
    assert_eq!(duration_ms(3, 999_999_999), 3_999);
    let dur = std::time::Duration::MAX;
    assert_eq!(duration_ms(dur.as_secs(), dur.subsec_nanos()), dur.as_millis() as u64);
}

fn call(name: &str) -> Command {
    Command::ScheduleActivity {
        seq: 0,
        activity_type: name.into(),
        input: b"in".to_vec(),
        retry: RetryPolicy::none(),
    }
}

fn called(name: &str) -> Event {
    Event::ActivityScheduled {
        seq: 0,
        activity_type: name.into(),
        input: b"in".to_vec(),
        retry: RetryPolicy::none(),
    }
}

#[test]
fn recorded_marker_replays_to_the_same_turn() {
    let started = Event::WorkflowStarted { input: b"in".to_vec() };
    let asked = cold_replay::<Reroute>(named("R"), &[started.clone()]).unwrap();
    let marker = Command::RecordPatch { change_id: "reroute".into() };
    assert_eq!(asked.commands, vec![marker, call("new")]);

    let marked = Event::Patched { change_id: "reroute".into() };
    let told =
        cold_replay::<Reroute>(named("R"), &[started.clone(), marked.clone(), called("new")])
            .unwrap();
    assert_eq!(told.commands, vec![call("new")]);
    assert_eq!(told.completion, asked.completion);

    let done = Event::ActivityCompleted { seq: 0, output: b"out".to_vec() };
    let over = cold_replay::<Reroute>(
        named("R"),
        &[started.clone(), marked, called("new"), done.clone()],
    )
    .unwrap();
    assert_eq!(over.commands, vec![call("new")]);
    assert_eq!(over.completion, Some(Ok(b"out".to_vec())));

    let older = cold_replay::<Reroute>(named("R"), &[started, called("old"), done]).unwrap();
    assert_eq!(older.commands, vec![call("old")]);
    assert_eq!(older.completion, Some(Ok(b"out".to_vec())));
}
