use durable_workflow::activity;
use durable_workflow::workflow::{
    ChildResult, Command, CommandResult, Context, Error, Event, Execution, Info, RetryPolicy,
};

fn info() -> Info {
    Info {
        execution: Execution {
            workflow_id: "w".into(),
            run_id: "r".into(),
        },
        parent: None,
        workflow_type: "T".into(),
    }
}

#[test]
fn apply_then_drain_are_independent() {
    let mut ctx = Context::new(info());
    ctx.apply_result(0, CommandResult::ActivityCompleted(b"x".to_vec()));
    // applying a result does not by itself emit a command
    assert!(ctx.drain_commands().is_empty());
    assert_eq!(ctx.info().execution.run_id, "r");
}

#[test]
fn patched_new_execution_records_marker_and_returns_true() {
    let mut ctx = Context::new(info());
    // Fresh run, caught up to the live frontier (replaying defaults to false).
    assert!(ctx.patched("v2"), "new execution takes the patched path");
    let cmds = ctx.drain_commands();
    assert_eq!(cmds.len(), 1);
    assert!(matches!(
        &cmds[0],
        Command::RecordPatch { change_id } if change_id == "v2"
    ));
    // Second call in the same life is idempotent: still true, no second command.
    assert!(ctx.patched("v2"));
    assert!(
        ctx.drain_commands().is_empty(),
        "marker is emitted at most once per life"
    );
}

#[test]
fn patched_with_recorded_marker_returns_true_without_emitting() {
    let mut ctx = Context::new(info());
    ctx.apply_patch("v2".into());
    assert!(ctx.patched("v2"));
    assert!(
        ctx.drain_commands().is_empty(),
        "a recorded marker re-emits nothing on replay"
    );
}

#[test]
fn patched_returns_false_while_replaying_older_history() {
    let mut ctx = Context::new(info());
    ctx.set_replaying(true); // recorded events still remain ahead of this point
    assert!(
        !ctx.patched("v2"),
        "no marker + still replaying older history => old branch"
    );
    assert!(
        ctx.drain_commands().is_empty(),
        "the old branch records no marker"
    );
}

#[test]
fn kind_matches_variant() {
    assert_eq!(
        Event::WorkflowStarted { input: vec![] }.kind(),
        "WorkflowStarted"
    );
    assert_eq!(
        Event::ActivityCompleted {
            seq: 1,
            output: vec![]
        }
        .kind(),
        "ActivityCompleted"
    );
    assert_eq!(
        Event::ActivityScheduled {
            seq: 0,
            activity_type: "T".into(),
            input: vec![],
            retry: RetryPolicy::none(),
        }
        .kind(),
        "ActivityScheduled"
    );
    assert_eq!(
        Event::ActivityFailed {
            seq: 3,
            error: activity::Error::fatal("x")
        }
        .kind(),
        "ActivityFailed"
    );
    assert_eq!(
        Event::TimerStarted {
            seq: 0,
            duration_ms: 500
        }
        .kind(),
        "TimerStarted"
    );
    assert_eq!(Event::TimerFired { seq: 0 }.kind(), "TimerFired");
    assert_eq!(
        Event::SignalReceived {
            name: "x".into(),
            payload: vec![]
        }
        .kind(),
        "SignalReceived"
    );
    assert_eq!(
        Event::ChildScheduled {
            seq: 0,
            workflow_type: "Ship".into(),
            input: vec![],
        }
        .kind(),
        "ChildScheduled"
    );
    assert_eq!(
        Event::ChildCompleted {
            seq: 0,
            result: ChildResult::Completed(vec![]),
        }
        .kind(),
        "ChildCompleted"
    );
}

#[test]
fn parent_defaults_to_none_for_root() {
    let i = Info {
        execution: Execution {
            workflow_id: "w".into(),
            run_id: "r".into(),
        },
        parent: None,
        workflow_type: "OrderWorkflow".into(),
    };
    assert!(i.parent.is_none());
}

#[test]
fn completed_converts_to_ok() {
    let r: Result<Vec<u8>, activity::Error> =
        CommandResult::ActivityCompleted(b"hi".to_vec()).into();
    assert_eq!(r.unwrap(), b"hi");
}

#[test]
fn failed_converts_to_err() {
    let r: Result<Vec<u8>, activity::Error> =
        CommandResult::ActivityFailed(activity::Error::fatal("boom")).into();
    assert_eq!(r.unwrap_err().message, "boom");
}

#[test]
fn child_completed_converts_to_ok_and_failed_to_err() {
    let ok: Result<Vec<u8>, Error> = ChildResult::Completed(b"hi".to_vec()).into();
    assert_eq!(ok.unwrap(), b"hi");

    let err: Result<Vec<u8>, Error> = ChildResult::Failed(Error::new("boom")).into();
    assert_eq!(err.unwrap_err().message, "boom");
}

#[test]
fn exponential_backoff_schedule() {
    let p = RetryPolicy::exponential(5);
    assert_eq!(p.backoff_ms(1), 0); // first attempt: immediate
    assert_eq!(p.backoff_ms(2), 100); // initial
    assert_eq!(p.backoff_ms(3), 200); // *2
    assert_eq!(p.backoff_ms(4), 400); // *2
}

#[test]
fn none_means_single_attempt() {
    assert_eq!(RetryPolicy::none().max_attempts, 1);
}
