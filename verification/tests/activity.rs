use durable_workflow::activity::def::{decoded_input, encoded_output};
use durable_workflow::activity::{Context, Error, Execution, Info};

fn ctx() -> Context {
    Context::new(Info {
        execution: Execution {
            workflow_id: "order-1".into(),
            run_id: "run-9".into(),
        },
        activity_id: "3".into(),
        activity_type: "Charge".into(),
        attempt: 2,
    })
}

#[test]
fn idempotency_key_is_run_id_colon_activity_id() {
    assert_eq!(ctx().idempotency_key(), "run-9:3");
}

#[test]
fn info_is_accessible() {
    assert_eq!(ctx().info().attempt, 2);
}

#[test]
fn ctors_set_retryability() {
    assert!(!Error::retryable("boom").non_retryable);
    assert!(Error::fatal("boom").non_retryable);
}

#[test]
fn displays_message() {
    assert_eq!(Error::fatal("nope").to_string(), "nope");
}

#[test]
fn holds_fields() {
    let i = Info {
        execution: Execution {
            workflow_id: "w".into(),
            run_id: "r".into(),
        },
        activity_id: "7".into(),
        activity_type: "Charge".into(),
        attempt: 1,
    };
    assert_eq!(i.activity_type, "Charge");
    assert_eq!(i.execution.run_id, "r");
}

#[test]
fn key_is_the_same_for_every_attempt() {
    let mut later = ctx().info().clone();
    later.attempt = 7;
    assert_eq!(Context::new(later).idempotency_key(), ctx().idempotency_key());
}

#[test]
fn bytes_that_do_not_fit_are_fatal() {
    assert_eq!(decoded_input(Ok(7)), Ok(7));
    assert_eq!(
        decoded_input::<i64>(Err("expected value".into())),
        Err(Error::fatal("activity input deserialize: expected value"))
    );
    assert_eq!(encoded_output(Ok(b"7".to_vec())), Ok(b"7".to_vec()));
    assert_eq!(
        encoded_output(Err("key must be a string".into())),
        Err(Error::fatal("activity output serialize: key must be a string"))
    );
}
