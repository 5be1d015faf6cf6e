use durable_workflow::activity::Error;
use durable_workflow::workflow::{
    self, ActivityFuture, ChildFuture, Command, CommandResult, Context, Execution, Info, Poll,
};

fn ctx() -> Context {
    Context::new(Info {
        execution: Execution {
            workflow_id: "w".into(),
            run_id: "r".into(),
        },
        parent: None,
        workflow_type: "T".into(),
    })
}

fn add(ctx: &mut Context) -> ActivityFuture {
    ctx.activity("Add", serde_json::to_vec(&(2i64, 3i64)).unwrap())
}

fn echo(ctx: &mut Context) -> ChildFuture {
    ctx.child_workflow("Echo", serde_json::to_vec(&7i64).unwrap())
}

fn poll(f: &ActivityFuture, ctx: &mut Context) -> Poll<Result<i64, Error>> {
    match f.poll(ctx) {
        Poll::Ready(Ok(b)) => Poll::Ready(ActivityFuture::decoded(
            serde_json::from_slice(&b).map_err(|e| e.to_string()),
        )),
        Poll::Ready(Err(e)) => Poll::Ready(Err(e)),
        Poll::Pending => Poll::Pending,
    }
}

fn poll_child(f: &ChildFuture, ctx: &mut Context) -> Poll<Result<i64, workflow::Error>> {
    match f.poll(ctx) {
        Poll::Ready(Ok(b)) => Poll::Ready(ChildFuture::decoded(
            serde_json::from_slice(&b).map_err(|e| e.to_string()),
        )),
        Poll::Ready(Err(e)) => Poll::Ready(Err(e)),
        Poll::Pending => Poll::Pending,
    }
}

#[test]
fn first_poll_emits_one_schedule_command_then_pends() {
    let mut ctx = ctx();
    let f = add(&mut ctx);
    assert!(poll(&f, &mut ctx).is_pending());
    let cmds = ctx.drain_commands();
    assert_eq!(cmds.len(), 1);
    assert!(matches!(&cmds[0],
        Command::ScheduleActivity { seq: 0, activity_type, .. } if activity_type == "Add"));
}

#[test]
fn re_poll_does_not_duplicate_the_command() {
    let mut ctx = ctx();
    let f = add(&mut ctx);
    assert!(poll(&f, &mut ctx).is_pending());
    let _ = ctx.drain_commands();
    assert!(poll(&f, &mut ctx).is_pending());
    assert!(
        ctx.drain_commands().is_empty(),
        "in-flight seq must not re-emit"
    );
}

#[test]
fn resolves_to_typed_output_when_result_applied() {
    let mut ctx = ctx();
    let f = add(&mut ctx);
    assert!(poll(&f, &mut ctx).is_pending());
    ctx.apply_result(
        0,
        CommandResult::ActivityCompleted(serde_json::to_vec(&5i64).unwrap()),
    );
    match poll(&f, &mut ctx) {
        Poll::Ready(Ok(v)) => assert_eq!(v, 5),
        other => panic!("expected Ready(Ok(5)), got {other:?}"),
    }
}

#[test]
fn surfaces_activity_failure() {
    let mut ctx = ctx();
    let f = add(&mut ctx);
    assert!(poll(&f, &mut ctx).is_pending());
    ctx.apply_result(0, CommandResult::ActivityFailed(Error::fatal("nope")));
    match poll(&f, &mut ctx) {
        Poll::Ready(Err(e)) => assert_eq!(e.message, "nope"),
        other => panic!("expected Ready(Err), got {other:?}"),
    }
}

#[test]
fn child_first_poll_emits_one_start_child_then_pends() {
    let mut ctx = ctx();
    let f = echo(&mut ctx);
    assert!(poll_child(&f, &mut ctx).is_pending());
    let cmds = ctx.drain_commands();
    assert_eq!(cmds.len(), 1);
    assert!(matches!(&cmds[0],
        Command::StartChild { seq: 0, workflow_type, .. } if workflow_type == "Echo"));
}

#[test]
fn child_re_poll_does_not_duplicate_the_command() {
    let mut ctx = ctx();
    let f = echo(&mut ctx);
    assert!(poll_child(&f, &mut ctx).is_pending());
    let _ = ctx.drain_commands();
    assert!(poll_child(&f, &mut ctx).is_pending());
    assert!(
        ctx.drain_commands().is_empty(),
        "in-flight child seq must not re-emit"
    );
}

#[test]
fn child_resolves_to_typed_output_when_result_applied() {
    let mut ctx = ctx();
    let f = echo(&mut ctx);
    assert!(poll_child(&f, &mut ctx).is_pending());
    ctx.apply_child_result(0, Ok(serde_json::to_vec(&42i64).unwrap()));
    match poll_child(&f, &mut ctx) {
        Poll::Ready(Ok(v)) => assert_eq!(v, 42),
        other => panic!("expected Ready(Ok(42)), got {other:?}"),
    }
}

#[test]
fn child_surfaces_failure() {
    let mut ctx = ctx();
    let f = echo(&mut ctx);
    assert!(poll_child(&f, &mut ctx).is_pending());
    ctx.apply_child_result(0, Err(workflow::Error::new("child boom")));
    match poll_child(&f, &mut ctx) {
        Poll::Ready(Err(e)) => assert_eq!(e.message, "child boom"),
        other => panic!("expected Ready(Err), got {other:?}"),
    }
}

#[test]
fn output_that_does_not_parse_is_fatal() {
    let mut ctx = ctx();
    let f = add(&mut ctx);
    ctx.apply_result(0, CommandResult::ActivityCompleted(b"oops".to_vec()));
    match poll(&f, &mut ctx) {
        Poll::Ready(Err(e)) => {
            assert!(e.non_retryable);
            assert!(e.message.starts_with("activity output deserialize: "));
        }
        other => panic!("expected Ready(Err), got {other:?}"),
    }
    let g = echo(&mut ctx);
    ctx.apply_child_result(1, Ok(b"oops".to_vec()));
    match poll_child(&g, &mut ctx) {
        Poll::Ready(Err(e)) => assert!(e.message.starts_with("child output deserialize: ")),
        other => panic!("expected Ready(Err), got {other:?}"),
    }
}

#[test]
fn timer_starts_once_and_resolves_when_fired() {
    let mut ctx = ctx();
    let f = ctx.sleep(250);
    assert!(f.poll(&mut ctx).is_pending());
    assert!(f.poll(&mut ctx).is_pending());
    assert_eq!(
        ctx.drain_commands(),
        vec![Command::StartTimer { seq: 0, duration_ms: 250 }]
    );
    ctx.apply_timer_fired(0);
    assert!(f.poll(&mut ctx).is_ready());
    assert_eq!(ctx.commands_len(), 0);
}

#[test]
fn numbers_are_given_out_at_creation() {
    let mut ctx = ctx();
    let a = add(&mut ctx);
    let t = ctx.timer(1);
    let c = echo(&mut ctx);
    assert_eq!((a.seq, t.seq, c.seq), (0, 1, 2));
    // The later one is polled first; the numbers stay.
    assert!(c.poll(&mut ctx).is_pending());
    assert!(a.poll(&mut ctx).is_pending());
    assert_eq!(ctx.commands_len(), 2);
    assert!(matches!(&ctx.drain_commands()[0], Command::StartChild { seq: 2, .. }));
}

#[test]
fn signals_of_one_name_come_in_order() {
    let mut ctx = ctx();
    ctx.apply_signal("n".into(), b"1".to_vec());
    ctx.apply_signal("m".into(), b"9".to_vec());
    ctx.apply_signal("n".into(), b"2".to_vec());
    // Two channels of one name are one channel.
    let first = ctx.signal_channel("n").recv();
    let second = ctx.signal_channel("n").recv();
    assert_eq!(first.poll(&mut ctx), Poll::Ready(b"1".to_vec()));
    assert_eq!(second.poll(&mut ctx), Poll::Ready(b"2".to_vec()));
    assert!(first.poll(&mut ctx).is_pending());
    assert_eq!(ctx.signal_channel("m").recv().poll(&mut ctx), Poll::Ready(b"9".to_vec()));
}

#[test]
fn spawn_handle_gives_its_output_once() {
    let mut ctx = ctx();
    let mut h = ctx.spawn::<i64>();
    let other = ctx.spawn::<i64>();
    assert_ne!(h.branch, other.branch);
    assert!(h.poll().is_pending());
    h.complete(7);
    assert_eq!(h.poll(), Poll::Ready(7));
    assert!(h.poll().is_pending());
    assert_eq!(ctx.commands_len(), 0);
}
