use durable_workflow::activity;
use durable_workflow::chat::session::{wait, Wake};
use durable_workflow::chat::{
    ChatSession, ChatSessionParams, LlmResult, RecordMessage, RecordResult, SessionAction,
    SessionEvent, UserMessage,
};
use durable_workflow::chat_service::{record_message, ChatMessage, RecordArgs};
use durable_workflow::workflow::{Context, Error, Execution, Info, Poll, RetryPolicy};

fn session() -> ChatSession {
    let mut session = ChatSession::new(ChatSessionParams { conversation_id: "c1".into() });
    assert!(matches!(session.run(SessionEvent::Begin), SessionAction::Await));
    session
}

fn message() -> SessionEvent {
    SessionEvent::Message(Ok(UserMessage { message_id: "m1".into(), text: "hello".into() }))
}

fn recorded(action: SessionAction) -> RecordArgs {
    match action {
        SessionAction::Record(args) => args,
        _ => panic!("expected a record"),
    }
}

#[test]
fn message_is_recorded_answered_and_the_reply_recorded() {
    let mut s = session();
    let user = recorded(s.run(message()));
    assert_eq!(
        user,
        RecordArgs {
            conversation_id: "c1".into(),
            message_id: "m1".into(),
            role: "user".into(),
            content: "hello".into(),
            status: "complete".into(),
        }
    );
    match s.run(SessionEvent::Recorded(Ok(RecordResult {}))) {
        SessionAction::Complete { params, retry } => {
            assert_eq!(params.conversation_id, "c1");
            assert_eq!(retry, RetryPolicy::exponential(4));
        }
        _ => panic!("expected a request for a reply"),
    }
    let reply = recorded(s.run(SessionEvent::Replied(Ok(LlmResult { reply: "hi".into() }))));
    assert_eq!(
        reply,
        RecordArgs {
            conversation_id: "c1".into(),
            message_id: "m1-reply".into(),
            role: "assistant".into(),
            content: "hi".into(),
            status: "complete".into(),
        }
    );
    let next = s.run(SessionEvent::Recorded(Ok(RecordResult {})));
    assert!(matches!(next, SessionAction::Await));
    let end = s.run(SessionEvent::Stopped);
    assert!(matches!(end, SessionAction::Finish(Ok(_))));
}

#[test]
fn missing_reply_becomes_an_error_reply() {
    let mut s = session();
    let _ = s.run(message());
    let _ = s.run(SessionEvent::Recorded(Ok(RecordResult {})));
    let reply = recorded(s.run(SessionEvent::Replied(Err(activity::Error::retryable("no host")))));
    assert_eq!(reply.status, "error");
    assert_eq!(reply.content, "no host");
    assert_eq!(reply.message_id, "m1-reply");
    let next = s.run(SessionEvent::Recorded(Ok(RecordResult {})));
    assert!(matches!(next, SessionAction::Await));
}

#[test]
fn failures_to_parse_or_record_end_the_session() {
    let mut s = session();
    match s.run(SessionEvent::Message(Err(Error::new("bad payload")))) {
        SessionAction::Finish(Err(e)) => assert_eq!(e.message, "bad payload"),
        _ => panic!("expected the end"),
    }
    let mut s = session();
    let _ = s.run(message());
    match s.run(SessionEvent::Recorded(Err(activity::Error::fatal("disk full")))) {
        SessionAction::Finish(Err(e)) => assert_eq!(e.message, "disk full"),
        _ => panic!("expected the end"),
    }
}

#[test]
fn stop_goes_before_a_message() {
    let mut ctx = Context::new(Info {
        execution: Execution { workflow_id: "w".into(), run_id: "r".into() },
        parent: None,
        workflow_type: "ChatSession".into(),
    });
    assert!(wait(&mut ctx).is_pending());
    ctx.apply_signal("message".into(), b"1".to_vec());
    ctx.apply_signal("stop".into(), b"{}".to_vec());
    assert!(matches!(wait(&mut ctx), Poll::Ready(Wake::Stop)));
    match wait(&mut ctx) {
        Poll::Ready(Wake::Message(payload)) => assert_eq!(payload, b"1"),
        _ => panic!("expected the message"),
    }
    assert!(wait(&mut ctx).is_pending());
}

// A chat service in memory, for one list of messages.
struct Service(Vec<ChatMessage>);

impl Service {
    fn record(&mut self, conv: &str, msg: &str, role: &str, content: &str) {
        let args = RecordArgs {
            conversation_id: conv.into(),
            message_id: msg.into(),
            role: role.into(),
            content: content.into(),
            status: "complete".into(),
        };
        let recorded = self.list(conv).iter().any(|m| m.message_id == msg);
        let last = self.list(conv).iter().map(|m| m.seq).max();
        if let Some(row) = record_message(args, recorded, last, 77) {
            self.0.push(row);
        }
    }

    fn list(&self, conv: &str) -> Vec<ChatMessage> {
        self.0.iter().filter(|m| m.conversation_id == conv).cloned().collect()
    }
}

#[test]
fn record_message_is_idempotent_by_id() {
    let mut c = Service(vec![]);
    c.record("c1", "m1", "user", "hello");
    c.record("c1", "m1", "user", "hello"); // retry
    let msgs = c.list("c1");
    assert_eq!(msgs.len(), 1, "the at-least-once retry must not double-write");
}

#[test]
fn list_messages_orders_by_seq() {
    let mut c = Service(vec![]);
    c.record("c1", "m1", "user", "first");
    c.record("c1", "m1-reply", "assistant", "second");
    c.record("c1", "m2", "user", "third");
    let seqs: Vec<i64> = c.list("c1").iter().map(|m| m.seq).collect();
    assert_eq!(seqs, vec![1, 2, 3], "seq is monotonic per conversation");
    let contents: Vec<String> = c.list("c1").into_iter().map(|m| m.content).collect();
    assert_eq!(contents, vec!["first", "second", "third"]);
}

#[test]
fn list_messages_scopes_by_conversation() {
    let mut c = Service(vec![]);
    c.record("c1", "m1", "user", "a");
    c.record("c2", "m1", "user", "b");
    assert_eq!(c.list("c1").len(), 1);
    assert_eq!(c.list("c2").len(), 1);
    assert_eq!(c.list("c2")[0].created_at, 77);
}

#[test]
fn message_that_could_not_be_recorded_may_be_tried_again() {
    assert_eq!(RecordMessage::run(Ok(())), Ok(RecordResult {}));
    assert_eq!(
        RecordMessage::run(Err("database is locked".into())),
        Err(activity::Error::retryable("record_message: database is locked"))
    );
}

#[test]
fn conversation_grows_by_what_is_stored() {
    let args = |id: &str| RecordArgs {
        conversation_id: "c1".into(),
        message_id: id.into(),
        role: "user".into(),
        content: "hello".into(),
        status: "complete".into(),
    };
    let mut rows: Vec<ChatMessage> = Vec::new();
    for id in ["a", "b", "a", "c"] {
        let held = rows.iter().any(|m| m.message_id == id);
        let last = rows.last().map(|m| m.seq);
        rows.extend(record_message(args(id), held, last, 7));
    }
    let got: Vec<(&str, i64)> = rows.iter().map(|m| (m.message_id.as_str(), m.seq)).collect();
    assert_eq!(got, vec![("a", 1), ("b", 2), ("c", 3)]);
}
