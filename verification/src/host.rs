//! What the desktop shell shows.
use crate::activity;
use crate::activity::error::ErrorView;
use crate::bytes::opt_bytes;
use crate::chat_service::ChatMessage;
use crate::engine::drive::RunCompleted;
use crate::engine::types::{opt_text, ExecStatus, ExecutionSummary, HistoryRecord, RunMeta};
use crate::json::{compact, compacted, failure_text, quote, quoted};
use crate::text::{decimal, u64_text};
use crate::workflow::event::{Event, EventView};
use crate::workflow::result::ChildResult;
use crate::workflow::retry::RetryPolicy;
use vstd::prelude::*;
use vstd::string::*;
use vstd::utf8::encode_utf8;

verus! {

/// The document in `bytes`, as JSON text; `null` if there is none in them.
pub open spec fn decoded(bytes: Seq<u8>) -> Seq<char> {
    match compacted(bytes) {
        Some(text) => text,
        None => "null"@,
    }
}

/// The document in `bytes`, as JSON text; `null` if there is none in them.
pub fn decode(bytes: &Vec<u8>) -> (text: String)
    ensures
        text@ == decoded(bytes@),
{
    decode_fallback(compact(bytes.as_slice()))
}

/// The document that was found, or `null`.
pub fn decode_fallback(document: Option<String>) -> (text: String)
    ensures
        text@ == match document {
            Some(document) => document@,
            None => "null"@,
        },
{
    match document {
        Some(document) => document,
        None => String::from_str("null"),
    }
}

/// The document in an optional result, as JSON text, if there is one.
pub open spec fn decoded_result(result: Option<Seq<u8>>) -> Option<Seq<char>> {
    match result {
        Some(bytes) => compacted(bytes),
        None => None,
    }
}

fn decode_result(result: &Option<Vec<u8>>) -> (text: Option<String>)
    ensures
        opt_text(text) == decoded_result(opt_bytes(*result)),
{
    match result {
        Some(bytes) => compact(bytes.as_slice()),
        None => None,
    }
}

/// What the shell is told of a run that is over. The result is JSON text.
#[derive(Debug, Clone, PartialEq, Eq)]
pub struct CompletionPayload {
    pub workflow_id: String,
    pub run_id: String,
    pub status: &'static str,
    pub result: Option<String>,
}

/// What the shell is told of a run that is over.
pub fn completion_payload(ev: RunCompleted) -> (payload: CompletionPayload)
    ensures
        payload.workflow_id@ == ev.workflow_id@,
        payload.run_id@ == ev.run_id@,
        payload.status@ == if ev.status == ExecStatus::Completed {
            "completed"@
        } else {
            "failed"@
        },
        opt_text(payload.result) == decoded_result(opt_bytes(ev.result)),
{
    let status: &'static str = match ev.status {
        ExecStatus::Completed => "completed",
        _ => "failed",
    };
    let result = decode_result(&ev.result);
    CompletionPayload { workflow_id: ev.workflow_id, run_id: ev.run_id, status, result }
}

/// One line of the list of runs.
#[derive(Debug, Clone, PartialEq, Eq)]
pub struct RunSummaryDto {
    pub run_id: String,
    pub workflow_id: String,
    pub workflow_type: String,
    pub status: String,
    pub started_at: i64,
    pub last_event_at: i64,
    pub event_count: i64,
}

/// One line of the list of runs.
pub fn summary_dto(s: ExecutionSummary) -> (dto: RunSummaryDto)
    ensures
        dto.run_id@ == s.run_id@,
        dto.workflow_id@ == s.workflow_id@,
        dto.workflow_type@ == s.workflow_type@,
        dto.status@ == s.status.text(),
        dto.started_at == s.started_at,
        dto.last_event_at == s.last_event_at,
        dto.event_count == s.event_count,
{
    RunSummaryDto {
        run_id: s.run_id,
        workflow_id: s.workflow_id,
        workflow_type: s.workflow_type,
        status: String::from_str(s.status.as_str()),
        started_at: s.started_at,
        last_event_at: s.last_event_at,
        event_count: s.event_count,
    }
}

/// One line of a transcript.
#[derive(Debug, Clone, PartialEq, Eq)]
pub struct ChatMessageDto {
    pub message_id: String,
    pub role: String,
    pub content: String,
    pub status: String,
    pub seq: i64,
}

/// One line of a transcript: the message without its conversation and its time.
pub fn message_dto(m: ChatMessage) -> (dto: ChatMessageDto)
    ensures
        dto.message_id@ == m.message_id@,
        dto.role@ == m.role@,
        dto.content@ == m.content@,
        dto.status@ == m.status@,
        dto.seq == m.seq,
{
    ChatMessageDto {
        message_id: m.message_id,
        role: m.role,
        content: m.content,
        status: m.status,
        seq: m.seq,
    }
}

/// One line of a timeline. `detail` is JSON text: an object with the event's fields.
#[derive(Debug, Clone, PartialEq, Eq)]
pub struct EventDto {
    pub event_id: i64,
    pub ts: i64,
    pub kind: String,
    pub detail: String,
    pub child_run_id: Option<String>,
}

/// A child's outcome as JSON text, its output shown as `document`.
pub open spec fn child_result_around(
    result: Result<Seq<u8>, Seq<char>>,
    document: Seq<char>,
) -> Seq<char> {
    match result {
        Ok(_) => "{\"status\":\"completed\",\"output\":"@ + document + "}"@,
        Err(message) => "{\"status\":\"failed\",\"error\":"@ + failure_text(message) + "}"@,
    }
}

/// A child's outcome as JSON text.
pub open spec fn child_result_text(result: Result<Seq<u8>, Seq<char>>) -> Seq<char> {
    match result {
        Ok(output) => child_result_around(result, decoded(output)),
        Err(_) => child_result_around(result, "null"@),
    }
}

/// A child's outcome as JSON text, its output shown as `document`.
pub fn child_result_with(result: &ChildResult, document: &str) -> (text: String)
    ensures
        text@ == child_result_around(result@, document@),
{
    match result {
        ChildResult::Completed(_) => {
            let mut text = String::from_str("{\"status\":\"completed\",\"output\":");
            text.append(document);
            text.append("}");
            text
        },
        ChildResult::Failed(error) => {
            let mut failure = String::from_str("{\"message\":");
            failure.append(quote(error.message.as_str()).as_str());
            failure.append("}");
            let mut text = String::from_str("{\"status\":\"failed\",\"error\":");
            text.append(failure.as_str());
            text.append("}");
            text
        },
    }
}

/// A child's outcome as JSON text.
pub fn child_result_json(result: &ChildResult) -> (text: String)
    ensures
        text@ == child_result_text(result@),
{
    let document = match result {
        ChildResult::Completed(output) => decode(output),
        ChildResult::Failed(_) => String::from_str("null"),
    };
    child_result_with(result, document.as_str())
}

/// A truth value as JSON text.
pub open spec fn bool_text(b: bool) -> Seq<char> {
    if b {
        "true"@
    } else {
        "false"@
    }
}

/// An activity's error as JSON text.
pub open spec fn activity_error_text(error: ErrorView) -> Seq<char> {
    "{\"message\":"@ + quoted(error.message) + ",\"non_retryable\":"@ + bool_text(
        error.non_retryable,
    ) + "}"@
}

fn activity_error_json(error: &activity::Error) -> (text: String)
    ensures
        text@ == activity_error_text(error@),
{
    let mut text = String::from_str("{\"message\":");
    text.append(quote(error.message.as_str()).as_str());
    text.append(",\"non_retryable\":");
    if error.non_retryable {
        text.append("true");
    } else {
        text.append("false");
    }
    text.append("}");
    text
}

/// A retry policy as JSON text.
pub open spec fn retry_text(retry: RetryPolicy) -> Seq<char> {
    "{\"max_attempts\":"@ + decimal(retry.max_attempts as nat) + ",\"initial_ms\":"@ + decimal(
        retry.initial_ms as nat,
    ) + ",\"multiplier\":"@ + decimal(retry.multiplier as nat) + "}"@
}

fn retry_json(retry: &RetryPolicy) -> (text: String)
    ensures
        text@ == retry_text(*retry),
{
    let mut text = String::from_str("{\"max_attempts\":");
    text.append(u64_text(retry.max_attempts as u64).as_str());
    text.append(",\"initial_ms\":");
    text.append(u64_text(retry.initial_ms).as_str());
    text.append(",\"multiplier\":");
    text.append(u64_text(retry.multiplier as u64).as_str());
    text.append("}");
    text
}

/// The bytes that an event carries, if it carries any.
pub open spec fn payload(event: EventView) -> Option<Seq<u8>> {
    match event {
        EventView::WorkflowStarted { input } => Some(input),
        EventView::ActivityScheduled { input, .. } => Some(input),
        EventView::ActivityCompleted { output, .. } => Some(output),
        EventView::SignalReceived { payload, .. } => Some(payload),
        EventView::ChildScheduled { input, .. } => Some(input),
        EventView::ChildCompleted { result: Ok(output), .. } => Some(output),
        _ => None,
    }
}

/// An event's fields as JSON text, the bytes that it carries shown as `document`.
pub open spec fn detail_around(event: EventView, document: Seq<char>) -> Seq<char> {
    match event {
        EventView::WorkflowStarted { .. } => "{\"input\":"@ + document + "}"@,
        EventView::ActivityScheduled { seq, activity_type, retry, .. } => "{\"seq\":"@ + decimal(
            seq as nat,
        ) + ",\"activity_type\":"@ + quoted(activity_type) + ",\"input\":"@ + document
            + ",\"retry\":"@ + retry_text(retry) + "}"@,
        EventView::ActivityCompleted { seq, .. } => "{\"seq\":"@ + decimal(seq as nat)
            + ",\"output\":"@ + document + "}"@,
        EventView::ActivityFailed { seq, error } => "{\"seq\":"@ + decimal(seq as nat)
            + ",\"error\":"@ + activity_error_text(error) + "}"@,
        EventView::TimerStarted { seq, duration_ms } => "{\"seq\":"@ + decimal(seq as nat)
            + ",\"duration_ms\":"@ + decimal(duration_ms as nat) + "}"@,
        EventView::TimerFired { seq } => "{\"seq\":"@ + decimal(seq as nat) + "}"@,
        EventView::SignalReceived { name, .. } => "{\"name\":"@ + quoted(name)
            + ",\"payload\":"@ + document + "}"@,
        EventView::ChildScheduled { seq, workflow_type, .. } => "{\"seq\":"@ + decimal(
            seq as nat,
        ) + ",\"workflow_type\":"@ + quoted(workflow_type) + ",\"input\":"@ + document
            + "}"@,
        EventView::ChildCompleted { seq, result } => "{\"seq\":"@ + decimal(seq as nat)
            + ",\"result\":"@ + child_result_around(result, document) + "}"@,
        EventView::Patched { change_id } => "{\"change_id\":"@ + quoted(change_id) + "}"@,
    }
}

/// An event's fields as JSON text. Payloads are shown as the documents they hold.
pub open spec fn detail_text(event: EventView) -> Seq<char> {
    match payload(event) {
        Some(bytes) => detail_around(event, decoded(bytes)),
        None => detail_around(event, "null"@),
    }
}

/// The text with which the fields of a numbered event start.
fn numbered(seq: u64) -> (text: String)
    ensures
        text@ == "{\"seq\":"@ + decimal(seq as nat),
{
    let mut text = String::from_str("{\"seq\":");
    text.append(u64_text(seq).as_str());
    text
}

/// An event's fields as JSON text, the bytes that it carries shown as `document`.
pub fn detail_with(event: &Event, document: &str) -> (text: String)
    ensures
        text@ == detail_around(event@, document@),
{
    let mut text = match event {
        Event::WorkflowStarted { .. } => {
            let mut text = String::from_str("{\"input\":");
            text.append(document);
            text
        },
        Event::ActivityScheduled { seq, activity_type, retry, .. } => {
            let mut text = numbered(*seq);
            text.append(",\"activity_type\":");
            text.append(quote(activity_type.as_str()).as_str());
            text.append(",\"input\":");
            text.append(document);
            text.append(",\"retry\":");
            text.append(retry_json(retry).as_str());
            text
        },
        Event::ActivityCompleted { seq, .. } => {
            let mut text = numbered(*seq);
            text.append(",\"output\":");
            text.append(document);
            text
        },
        Event::ActivityFailed { seq, error } => {
            let mut text = numbered(*seq);
            text.append(",\"error\":");
            text.append(activity_error_json(error).as_str());
            text
        },
        Event::TimerStarted { seq, duration_ms } => {
            let mut text = numbered(*seq);
            text.append(",\"duration_ms\":");
            text.append(u64_text(*duration_ms).as_str());
            text
        },
        Event::TimerFired { seq } => numbered(*seq),
        Event::SignalReceived { name, .. } => {
            let mut text = String::from_str("{\"name\":");
            text.append(quote(name.as_str()).as_str());
            text.append(",\"payload\":");
            text.append(document);
            text
        },
        Event::ChildScheduled { seq, workflow_type, .. } => {
            let mut text = numbered(*seq);
            text.append(",\"workflow_type\":");
            text.append(quote(workflow_type.as_str()).as_str());
            text.append(",\"input\":");
            text.append(document);
            text
        },
        Event::ChildCompleted { seq, result } => {
            let mut text = numbered(*seq);
            text.append(",\"result\":");
            text.append(child_result_with(result, document).as_str());
            text
        },
        Event::Patched { change_id } => {
            let mut text = String::from_str("{\"change_id\":");
            text.append(quote(change_id.as_str()).as_str());
            text
        },
    };
    text.append("}");
    text
}

fn detail(event: &Event) -> (text: String)
    ensures
        text@ == detail_text(event@),
{
    let document = match event {
        Event::WorkflowStarted { input } => decode(input),
        Event::ActivityScheduled { input, .. } => decode(input),
        Event::ActivityCompleted { output, .. } => decode(output),
        Event::SignalReceived { payload, .. } => decode(payload),
        Event::ChildScheduled { input, .. } => decode(input),
        Event::ChildCompleted { result: ChildResult::Completed(output), .. } => decode(output),
        _ => String::from_str("null"),
    };
    detail_with(event, document.as_str())
}

/// One line of a timeline.
pub fn event_to_json(record: HistoryRecord) -> (dto: EventDto)
    ensures
        dto.event_id == record.event_id,
        dto.ts == record.ts,
        dto.kind@ == record.event@.kind(),
        dto.detail@ == detail_text(record.event@),
        opt_text(dto.child_run_id) == opt_text(record.child_run_id),
{
    EventDto {
        event_id: record.event_id,
        ts: record.ts,
        kind: String::from_str(record.event.kind()),
        detail: detail(&record.event),
        child_run_id: record.child_run_id,
    }
}

/// A run in full: its summary, its result as JSON text, and its timeline.
#[derive(Debug, Clone, PartialEq, Eq)]
pub struct RunDetailDto {
    pub summary: RunSummaryDto,
    pub result: Option<String>,
    pub events: Vec<EventDto>,
}

/// Whether a line of a timeline is that of a record.
pub open spec fn shows(dto: EventDto, record: HistoryRecord) -> bool {
    &&& dto.event_id == record.event_id
    &&& dto.ts == record.ts
    &&& dto.kind@ == record.event@.kind()
    &&& dto.detail@ == detail_text(record.event@)
    &&& opt_text(dto.child_run_id) == opt_text(record.child_run_id)
}

/// A run in full. `meta` is what the store knows of it, `records` its history,
/// `result` its stored result. Its times are those of its first and last event.
pub fn run_detail(
    run_id: &str,
    meta: Option<RunMeta>,
    records: Vec<HistoryRecord>,
    result: Option<Vec<u8>>,
) -> (detail: Result<RunDetailDto, String>)
    requires
        records@.len() <= i64::MAX,
    ensures
        match meta {
            None => detail matches Err(message) && message@ == "run not found: "@ + run_id@,
            Some(meta) => {
                &&& detail is Ok
                &&& detail->Ok_0.summary.run_id@ == meta.run_id@
                &&& detail->Ok_0.summary.workflow_id@ == meta.workflow_id@
                &&& detail->Ok_0.summary.workflow_type@ == meta.workflow_type@
                &&& detail->Ok_0.summary.status@ == meta.status.text()
                &&& detail->Ok_0.summary.started_at == if records@.len() > 0 {
                    records@[0].ts
                } else {
                    0
                }
                &&& detail->Ok_0.summary.last_event_at == if records@.len() > 0 {
                    records@.last().ts
                } else {
                    0
                }
                &&& detail->Ok_0.summary.event_count == records@.len()
                &&& opt_text(detail->Ok_0.result) == decoded_result(opt_bytes(result))
                &&& detail->Ok_0.events@.len() == records@.len()
                &&& forall|i: int|
                    0 <= i < records@.len() ==> shows(#[trigger] detail->Ok_0.events@[i], records@[i])
            },
        },
{
    let meta = match meta {
        Some(meta) => meta,
        None => {
            let mut message = String::from_str("run not found: ");
            message.append(run_id);
            return Err(message);
        },
    };
    let count: usize = records.len();
    let started_at: i64 = if count > 0 {
        records[0].ts
    } else {
        0
    };
    let last_event_at: i64 = if count > 0 {
        records[count - 1].ts
    } else {
        0
    };
    let mut events: Vec<EventDto> = Vec::new();
    let mut i: usize = 0;
    while i < count
        invariant
            count == records@.len(),
            i <= count,
            events.len() == i,
            forall|j: int| 0 <= j < i ==> shows(#[trigger] events@[j], records@[j]),
        decreases count - i,
    {
        let record = &records[i];
        let child_run_id = match &record.child_run_id {
            Some(id) => Some(id.clone()),
            None => None,
        };
        events.push(
            event_to_json(
                HistoryRecord {
                    event_id: record.event_id,
                    ts: record.ts,
                    event: record.event.clone(),
                    child_run_id,
                },
            ),
        );
        i = i + 1;
    }
    let summary = RunSummaryDto {
        run_id: meta.run_id,
        workflow_id: meta.workflow_id,
        workflow_type: meta.workflow_type,
        status: String::from_str(meta.status.as_str()),
        started_at,
        last_event_at,
        event_count: count as i64,
    };
    Ok(RunDetailDto { summary, result: decode_result(&result), events })
}

/// The payload of the signal that carries a user's message.
pub fn message_payload(message_id: &str, text: &str) -> (payload: Vec<u8>)
    ensures
        payload@ == encode_utf8(
            "{\"message_id\":"@ + quoted(message_id@) + ",\"text\":"@ + quoted(text@) + "}"@,
        ),
{
    let mut json = String::from_str("{\"message_id\":");
    json.append(quote(message_id).as_str());
    json.append(",\"text\":");
    json.append(quote(text).as_str());
    json.append("}");
    json.as_str().as_bytes_vec()
}

/// The payload of the signal that ends a session.
pub fn stop_payload() -> (payload: Vec<u8>)
    ensures
        payload@ == encode_utf8("{}"@),
{
    "{}".as_bytes_vec()
}

/// A document is shown as it was read, and what is no document as `null`.
pub proof fn documents_are_shown_as_read(bytes: Seq<u8>)
    ensures
        compacted(bytes) is Some ==> decoded(bytes) == compacted(bytes)->0,
        compacted(bytes) is None ==> decoded(bytes) == "null"@,
        decoded_result(Some(bytes)) == compacted(bytes),
        decoded_result(None) is None,
{
}

/// The line of an event shows every field of it under its own name: numbers in decimal,
/// texts as strings, payloads as the documents that they hold, errors with their message
/// and policies with their three numbers.
pub proof fn details_show_every_field(event: EventView, document: Seq<char>)
    ensures
        detail_around(event, document) == match event {
            EventView::WorkflowStarted { .. } => "{\"input\":"@ + document + "}"@,
            EventView::ActivityScheduled { seq, activity_type, retry, .. } => "{\"seq\":"@
                + decimal(seq as nat) + ",\"activity_type\":"@ + quoted(activity_type)
                + ",\"input\":"@ + document + ",\"retry\":"@ + ("{\"max_attempts\":"@ + decimal(
                retry.max_attempts as nat,
            ) + ",\"initial_ms\":"@ + decimal(retry.initial_ms as nat) + ",\"multiplier\":"@
                + decimal(retry.multiplier as nat) + "}"@) + "}"@,
            EventView::ActivityCompleted { seq, .. } => "{\"seq\":"@ + decimal(seq as nat)
                + ",\"output\":"@ + document + "}"@,
            EventView::ActivityFailed { seq, error } => "{\"seq\":"@ + decimal(seq as nat)
                + ",\"error\":"@ + ("{\"message\":"@ + quoted(error.message)
                + ",\"non_retryable\":"@ + if error.non_retryable {
                "true"@
            } else {
                "false"@
            } + "}"@) + "}"@,
            EventView::TimerStarted { seq, duration_ms } => "{\"seq\":"@ + decimal(seq as nat)
                + ",\"duration_ms\":"@ + decimal(duration_ms as nat) + "}"@,
            EventView::TimerFired { seq } => "{\"seq\":"@ + decimal(seq as nat) + "}"@,
            EventView::SignalReceived { name, .. } => "{\"name\":"@ + quoted(name)
                + ",\"payload\":"@ + document + "}"@,
            EventView::ChildScheduled { seq, workflow_type, .. } => "{\"seq\":"@ + decimal(
                seq as nat,
            ) + ",\"workflow_type\":"@ + quoted(workflow_type) + ",\"input\":"@ + document
                + "}"@,
            EventView::ChildCompleted { seq, result: Ok(_) } => "{\"seq\":"@ + decimal(seq as nat)
                + ",\"result\":"@ + ("{\"status\":\"completed\",\"output\":"@ + document + "}"@)
                + "}"@,
            EventView::ChildCompleted { seq, result: Err(message) } => "{\"seq\":"@ + decimal(
                seq as nat,
            ) + ",\"result\":"@ + ("{\"status\":\"failed\",\"error\":"@ + ("{\"message\":"@
                + quoted(message) + "}"@) + "}"@) + "}"@,
            EventView::Patched { change_id } => "{\"change_id\":"@ + quoted(change_id) + "}"@,
        },
{
}

/// The document that is shown with an event is its own: the input of a start or of a
/// command, the output of what is completed, the payload of a signal. It does not matter
/// for an event without one.
pub proof fn details_show_their_own_document(event: EventView, document: Seq<char>)
    ensures
        match event {
            EventView::WorkflowStarted { input } => detail_text(event) == detail_around(
                event,
                decoded(input),
            ),
            EventView::ActivityScheduled { input, .. } => detail_text(event) == detail_around(
                event,
                decoded(input),
            ),
            EventView::ActivityCompleted { output, .. } => detail_text(event) == detail_around(
                event,
                decoded(output),
            ),
            EventView::SignalReceived { payload, .. } => detail_text(event) == detail_around(
                event,
                decoded(payload),
            ),
            EventView::ChildScheduled { input, .. } => detail_text(event) == detail_around(
                event,
                decoded(input),
            ),
            EventView::ChildCompleted { result: Ok(output), .. } => detail_text(event)
                == detail_around(event, decoded(output)),
            _ => detail_text(event) == detail_around(event, document),
        },
{
}

/// A child's outcome is shown with its status: its output if it is completed, its error
/// if it has failed.
pub proof fn child_results_show_their_status(output: Seq<u8>, message: Seq<char>)
    ensures
        child_result_text(Ok(output)) == "{\"status\":\"completed\",\"output\":"@ + decoded(output)
            + "}"@,
        child_result_text(Err(message)) == "{\"status\":\"failed\",\"error\":"@ + (
        "{\"message\":"@ + quoted(message) + "}"@) + "}"@,
{
}

/// An event is shown under the name of its kind.
pub proof fn kinds_are_named_after_themselves(event: EventView)
    ensures
        event.kind() == match event {
            EventView::WorkflowStarted { .. } => "WorkflowStarted"@,
            EventView::ActivityScheduled { .. } => "ActivityScheduled"@,
            EventView::ActivityCompleted { .. } => "ActivityCompleted"@,
            EventView::ActivityFailed { .. } => "ActivityFailed"@,
            EventView::TimerStarted { .. } => "TimerStarted"@,
            EventView::TimerFired { .. } => "TimerFired"@,
            EventView::SignalReceived { .. } => "SignalReceived"@,
            EventView::ChildScheduled { .. } => "ChildScheduled"@,
            EventView::ChildCompleted { .. } => "ChildCompleted"@,
            EventView::Patched { .. } => "Patched"@,
        },
{
}

} // verus!
