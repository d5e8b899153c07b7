//! Events of the assistant runtime and how they reach the user interface.
use vstd::prelude::*;

use crate::json::JsonValue;
use crate::text::owned;

verus! {

broadcast use vstd::string::group_string_axioms;

/// An error reported by the runtime.
#[derive(Debug, PartialEq, Eq)]
pub struct RuntimeError {
    pub code: String,
    pub message: String,
    pub action_hint: Option<String>,
}

/// An event of the assistant runtime.
#[derive(Debug, PartialEq)]
pub enum RuntimeEvent {
    ChatDelta { text: String },
    ChatFinal { text: String },
    Invoke { payload: JsonValue },
    DiagnosisReport { items: JsonValue },
    Error { error: RuntimeError },
    Status { text: String },
}

/// The name under which an event is emitted.
pub open spec fn event_name(event: RuntimeEvent) -> Seq<char> {
    match event {
        RuntimeEvent::ChatDelta { .. } => "doctor:chat-delta"@,
        RuntimeEvent::ChatFinal { .. } => "doctor:chat-final"@,
        RuntimeEvent::Invoke { .. } => "doctor:invoke"@,
        RuntimeEvent::DiagnosisReport { .. } => "doctor:diagnosis-report"@,
        RuntimeEvent::Error { .. } => "doctor:error"@,
        RuntimeEvent::Status { .. } => "doctor:status"@,
    }
}

/// The name under which an event is emitted (see `event_name`).
pub fn map_runtime_event_name(event: &RuntimeEvent) -> (r: &'static str)
    ensures
        r@ == event_name(*event),
{
    match event {
        RuntimeEvent::ChatDelta { .. } => "doctor:chat-delta",
        RuntimeEvent::ChatFinal { .. } => "doctor:chat-final",
        RuntimeEvent::Invoke { .. } => "doctor:invoke",
        RuntimeEvent::DiagnosisReport { .. } => "doctor:diagnosis-report",
        RuntimeEvent::Error { .. } => "doctor:error",
        RuntimeEvent::Status { .. } => "doctor:status",
    }
}

/// `v` is the object with the single member `key` holding `value`.
pub open spec fn is_single_member(v: JsonValue, key: Seq<char>, value: JsonValue) -> bool {
    v matches JsonValue::Object(e) && e@.len() == 1 && e@[0].0@ == key && e@[0].1 == value
}

/// The object `{ key: value }`.
fn single_member(key: &str, value: JsonValue) -> (r: JsonValue)
    ensures
        is_single_member(r, key@, value),
{
    let mut entries: Vec<(String, JsonValue)> = Vec::new();
    entries.push((owned(key), value));
    JsonValue::Object(entries)
}

/// The payload emitted for an error: its code, message and action hint
/// (`null` when there is none).
pub open spec fn is_error_payload(v: JsonValue, error: RuntimeError) -> bool {
    &&& v matches JsonValue::Object(e)
    &&& e@.len() == 3
    &&& e@[0].0@ == "code"@ && e@[0].1 == JsonValue::Str(error.code)
    &&& e@[1].0@ == "message"@ && e@[1].1 == JsonValue::Str(error.message)
    &&& e@[2].0@ == "actionHint"@ && e@[2].1 == match error.action_hint {
        Some(h) => JsonValue::Str(h),
        None => JsonValue::Null,
    }
}

/// `m` is the name and payload under which `event` is emitted: texts as
/// `{ "text": ... }`, an invoke as its payload, a report as `{ "items": ... }`,
/// an error by its code, message and action hint.
pub open spec fn is_event_message(m: (&'static str, JsonValue), event: RuntimeEvent) -> bool {
    let r = m;
    &&& r.0@ == event_name(event)
    &&& match event {
            RuntimeEvent::ChatDelta { text } => is_single_member(r.1, "text"@, JsonValue::Str(text)),
            RuntimeEvent::ChatFinal { text } => is_single_member(r.1, "text"@, JsonValue::Str(text)),
            RuntimeEvent::Invoke { payload } => r.1 == payload,
            RuntimeEvent::DiagnosisReport { items } => is_single_member(r.1, "items"@, items),
            RuntimeEvent::Error { error } => is_error_payload(r.1, error),
            RuntimeEvent::Status { text } => is_single_member(r.1, "text"@, JsonValue::Str(text)),
        }
}

/// The name and payload under which an event is emitted (see
/// `is_event_message`).
pub fn runtime_event_message(event: RuntimeEvent) -> (r: (&'static str, JsonValue))
    ensures
        is_event_message(r, event),
        r.0@ == event_name(event),
        match event {
            RuntimeEvent::ChatDelta { text } => is_single_member(r.1, "text"@, JsonValue::Str(text)),
            RuntimeEvent::ChatFinal { text } => is_single_member(r.1, "text"@, JsonValue::Str(text)),
            RuntimeEvent::Invoke { payload } => r.1 == payload,
            RuntimeEvent::DiagnosisReport { items } => is_single_member(r.1, "items"@, items),
            RuntimeEvent::Error { error } => is_error_payload(r.1, error),
            RuntimeEvent::Status { text } => is_single_member(r.1, "text"@, JsonValue::Str(text)),
        },
{
    let name = map_runtime_event_name(&event);
    match event {
        RuntimeEvent::ChatDelta { text } => (name, single_member("text", JsonValue::Str(text))),
        RuntimeEvent::ChatFinal { text } => (name, single_member("text", JsonValue::Str(text))),
        RuntimeEvent::Invoke { payload } => (name, payload),
        RuntimeEvent::DiagnosisReport { items } => (name, single_member("items", items)),
        RuntimeEvent::Error { error } => {
            let hint = match error.action_hint {
                Some(h) => JsonValue::Str(h),
                None => JsonValue::Null,
            };
            let mut entries: Vec<(String, JsonValue)> = Vec::new();
            entries.push((owned("code"), JsonValue::Str(error.code)));
            entries.push((owned("message"), JsonValue::Str(error.message)));
            entries.push((owned("actionHint"), hint));
            (name, JsonValue::Object(entries))
        },
        RuntimeEvent::Status { text } => (name, single_member("text", JsonValue::Str(text))),
    }
}

} // verus!
