use durable_workflow::activity;
use durable_workflow::chat_service::ChatMessage;
use durable_workflow::engine::{
    ExecStatus, ExecutionSummary, HistoryRecord, RunCompleted, RunMeta,
};
use durable_workflow::host::{
    child_result_json, child_result_with, completion_payload, decode, decode_fallback,
    detail_with, event_to_json, message_dto, message_payload, run_detail, stop_payload,
    summary_dto,
};
use durable_workflow::json::encode_failure;
use durable_workflow::workflow::{ChildResult, Error, Event, RetryPolicy};
use serde_json::Value;

fn value(text: &str) -> Value {
    serde_json::from_str(text).unwrap()
}

fn ev(status: ExecStatus, result: Option<&str>) -> RunCompleted {
    RunCompleted {
        run_id: "run-1".into(),
        workflow_id: "wf-1".into(),
        status,
        result: result.map(|v| serde_json::to_vec(&value(v)).unwrap()),
    }
}

#[test]
fn completed_run_maps_to_completed_status_and_total() {
    let p = completion_payload(ev(ExecStatus::Completed, Some("{ \"total\": 6 }")));
    assert_eq!(p.workflow_id, "wf-1");
    assert_eq!(p.run_id, "run-1");
    assert_eq!(p.status, "completed");
    assert_eq!(value(&p.result.unwrap()), value("{ \"total\": 6 }"));
}

#[test]
fn failed_run_maps_to_failed_status_and_message() {
    let p = completion_payload(ev(
        ExecStatus::Failed,
        Some("{ \"message\": \"could not parse 'two' as an integer\" }"),
    ));
    assert_eq!(p.status, "failed");
    let msg = value(&p.result.unwrap());
    assert!(msg["message"].as_str().unwrap().contains("two"));
}

#[test]
fn missing_result_bytes_map_to_none() {
    let p = completion_payload(ev(ExecStatus::Failed, None));
    assert_eq!(p.status, "failed");
    assert!(p.result.is_none());
}

#[test]
fn result_bytes_that_are_no_json_map_to_none() {
    let mut event = ev(ExecStatus::Completed, None);
    event.result = Some(b"not-json".to_vec());
    assert!(completion_payload(event).result.is_none());
}

fn record(event_id: i64, event: Event, child_run_id: Option<String>) -> HistoryRecord {
    HistoryRecord {
        event_id,
        ts: 1_700_000_000_000,
        event,
        child_run_id,
    }
}

#[test]
fn event_to_json_humanizes_activity_scheduled() {
    let dto = event_to_json(record(
        2,
        Event::ActivityScheduled {
            seq: 0,
            activity_type: "Parse".into(),
            input: serde_json::to_vec(&value("{ \"text\": \"1 2 3\" }")).unwrap(),
            retry: RetryPolicy::none(),
        },
        None,
    ));
    assert_eq!(dto.kind, "ActivityScheduled");
    assert_eq!(dto.event_id, 2);
    assert_eq!(dto.ts, 1_700_000_000_000);
    let detail = value(&dto.detail);
    assert_eq!(detail["activity_type"], "Parse");
    assert_eq!(detail["input"], value("{ \"text\": \"1 2 3\" }"));
    assert_eq!(
        detail["retry"],
        value("{ \"max_attempts\": 1, \"initial_ms\": 0, \"multiplier\": 1 }")
    );
    assert!(dto.child_run_id.is_none());
}

#[test]
fn event_to_json_passes_child_run_id_for_child_events() {
    let dto = event_to_json(record(
        3,
        Event::ChildScheduled {
            seq: 0,
            workflow_type: "SumChild".into(),
            input: b"[1,2]".to_vec(),
        },
        Some("child-run".into()),
    ));
    assert_eq!(dto.kind, "ChildScheduled");
    assert_eq!(value(&dto.detail)["workflow_type"], "SumChild");
    assert_eq!(dto.child_run_id.as_deref(), Some("child-run"));
}

#[test]
fn event_to_json_decodes_activity_failure_error() {
    let dto = event_to_json(record(
        4,
        Event::ActivityFailed {
            seq: 0,
            error: activity::Error::fatal("could not parse 'two' as an integer"),
        },
        None,
    ));
    assert_eq!(dto.kind, "ActivityFailed");
    let detail = value(&dto.detail);
    assert!(detail["error"]["message"].as_str().unwrap().contains("two"));
    assert_eq!(detail["error"]["non_retryable"], true);
}

#[test]
fn event_to_json_humanizes_child_completed_result() {
    let dto = event_to_json(record(
        5,
        Event::ChildCompleted {
            seq: 0,
            result: ChildResult::Completed(
                serde_json::to_vec(&value("{ \"total\": 6 }")).unwrap(),
            ),
        },
        None,
    ));
    assert_eq!(dto.kind, "ChildCompleted");
    let detail = value(&dto.detail);
    assert_eq!(detail["result"]["status"], "completed");
    assert_eq!(detail["result"]["output"], value("{ \"total\": 6 }"));
}

#[test]
fn decode_falls_back_to_null_for_non_json() {
    assert_eq!(value(&decode(&b"not-json".to_vec())), Value::Null);
}

#[test]
fn decode_drops_spaces() {
    assert_eq!(decode(&b" { \"a\" : [ 1, 2 ] } ".to_vec()), "{\"a\":[1,2]}");
}

#[test]
fn message_dto_maps_service_fields() {
    let dto = message_dto(ChatMessage {
        conversation_id: "c1".into(),
        message_id: "m1".into(),
        role: "user".into(),
        content: "hello".into(),
        status: "complete".into(),
        seq: 1,
        created_at: 0,
    });
    assert_eq!(dto.message_id, "m1");
    assert_eq!(dto.role, "user");
    assert_eq!(dto.content, "hello");
    assert_eq!(dto.status, "complete");
    assert_eq!(dto.seq, 1);
}

#[test]
fn every_kind_of_event_has_its_fields() {
    let detail = |event| event_to_json(record(1, event, None)).detail;
    assert_eq!(
        detail(Event::WorkflowStarted { input: b"1".to_vec() }),
        "{\"input\":1}"
    );
    assert_eq!(
        detail(Event::ActivityCompleted { seq: 4, output: b"oops".to_vec() }),
        "{\"seq\":4,\"output\":null}"
    );
    assert_eq!(
        detail(Event::TimerStarted { seq: 18446744073709551615, duration_ms: 500 }),
        "{\"seq\":18446744073709551615,\"duration_ms\":500}"
    );
    assert_eq!(detail(Event::TimerFired { seq: 0 }), "{\"seq\":0}");
    assert_eq!(
        detail(Event::SignalReceived { name: "a\"b".into(), payload: b"true".to_vec() }),
        "{\"name\":\"a\\\"b\",\"payload\":true}"
    );
    assert_eq!(
        detail(Event::Patched { change_id: "v2".into() }),
        "{\"change_id\":\"v2\"}"
    );
}

#[test]
fn failed_child_shows_its_error() {
    assert_eq!(
        child_result_json(&ChildResult::Failed(Error::new("child died"))),
        "{\"status\":\"failed\",\"error\":{\"message\":\"child died\"}}"
    );
}

#[test]
fn failure_is_stored_as_an_object_with_escapes() {
    // One of each escape, and what stands for itself.
    let message = "q\" b\\ \u{8}\t\n\u{c}\r \u{1}\u{1f} \u{7f}é/";
    let text = String::from_utf8(encode_failure(message)).unwrap();
    assert_eq!(
        text,
        "{\"message\":\"q\\\" b\\\\ \\b\\t\\n\\f\\r \\u0001\\u001f \u{7f}é/\"}"
    );
    assert_eq!(value(&text)["message"], message);
}

#[test]
fn summary_shows_the_status_as_text() {
    let dto = summary_dto(ExecutionSummary {
        run_id: "r".into(),
        workflow_id: "w".into(),
        workflow_type: "T".into(),
        status: ExecStatus::Failed,
        started_at: 1,
        last_event_at: 2,
        event_count: 3,
    });
    assert_eq!(dto.status, "failed");
    assert_eq!((dto.started_at, dto.last_event_at, dto.event_count), (1, 2, 3));
}

#[test]
fn run_detail_takes_its_times_from_the_history() {
    let meta = || RunMeta {
        run_id: "r".into(),
        workflow_id: "w".into(),
        workflow_type: "T".into(),
        status: ExecStatus::Completed,
        parent_run_id: None,
        parent_seq: None,
    };
    let mut late = record(2, Event::TimerFired { seq: 0 }, None);
    late.ts += 5;
    let records = vec![
        record(1, Event::WorkflowStarted { input: b"null".to_vec() }, None),
        late,
    ];
    let detail = run_detail("r", Some(meta()), records, Some(b"[ 1 ]".to_vec())).unwrap();
    assert_eq!(detail.summary.started_at, 1_700_000_000_000);
    assert_eq!(detail.summary.last_event_at, 1_700_000_000_005);
    assert_eq!(detail.summary.event_count, 2);
    assert_eq!(detail.summary.status, "completed");
    assert_eq!(detail.result.as_deref(), Some("[1]"));
    assert_eq!(detail.events[1].kind, "TimerFired");

    let empty = run_detail("r", Some(meta()), vec![], None).unwrap();
    assert_eq!((empty.summary.started_at, empty.summary.last_event_at), (0, 0));
    assert_eq!(empty.result, None);

    assert_eq!(
        run_detail("gone", None, vec![], None).unwrap_err(),
        "run not found: gone"
    );
}

#[test]
fn signal_payloads_are_json() {
    let payload: Value = serde_json::from_slice(&message_payload("m1", "hi \"you\"")).unwrap();
    assert_eq!(payload["message_id"], "m1");
    assert_eq!(payload["text"], "hi \"you\"");
    assert_eq!(stop_payload(), b"{}");
}

#[test]
fn a_document_stands_where_the_payload_was() {
    let scheduled = Event::ActivityScheduled {
        seq: 7,
        activity_type: "Add".into(),
        input: b"hidden".to_vec(),
        retry: RetryPolicy { max_attempts: 3, initial_ms: 100, multiplier: 2 },
    };
    assert_eq!(
        detail_with(&scheduled, "[1,2]"),
        "{\"seq\":7,\"activity_type\":\"Add\",\"input\":[1,2],\"retry\":\
         {\"max_attempts\":3,\"initial_ms\":100,\"multiplier\":2}}"
    );
    assert_eq!(detail_with(&Event::TimerFired { seq: 2 }, "[1,2]"), "{\"seq\":2}");
    let completed = ChildResult::Completed(b"hidden".to_vec());
    assert_eq!(
        child_result_with(&completed, "5"),
        "{\"status\":\"completed\",\"output\":5}"
    );
    let done = Event::ChildCompleted { seq: 1, result: completed };
    assert_eq!(
        detail_with(&done, "5"),
        "{\"seq\":1,\"result\":{\"status\":\"completed\",\"output\":5}}"
    );
    let failed = ChildResult::Failed(Error { message: "no".into() });
    assert_eq!(
        child_result_with(&failed, "5"),
        "{\"status\":\"failed\",\"error\":{\"message\":\"no\"}}"
    );
    assert_eq!(decode_fallback(Some("5".into())), "5");
    assert_eq!(decode_fallback(None), "null");
}
