use clawpal::json::JsonValue;
use clawpal::runtime::{map_runtime_event_name, runtime_event_message, RuntimeError, RuntimeEvent};

#[test]
fn event_names() {
    assert_eq!(map_runtime_event_name(&RuntimeEvent::ChatDelta { text: String::new() }), "doctor:chat-delta");
    assert_eq!(map_runtime_event_name(&RuntimeEvent::ChatFinal { text: String::new() }), "doctor:chat-final");
    assert_eq!(map_runtime_event_name(&RuntimeEvent::Invoke { payload: JsonValue::Null }), "doctor:invoke");
    assert_eq!(
        map_runtime_event_name(&RuntimeEvent::DiagnosisReport { items: JsonValue::Null }),
        "doctor:diagnosis-report"
    );
    assert_eq!(map_runtime_event_name(&RuntimeEvent::Status { text: String::new() }), "doctor:status");
}

#[test]
fn event_payloads() {
    let (name, payload) = runtime_event_message(RuntimeEvent::ChatFinal { text: "hi".to_string() });
    assert_eq!(name, "doctor:chat-final");
    assert_eq!(payload, JsonValue::Object(vec![("text".to_string(), JsonValue::Str("hi".to_string()))]));
    let (name, payload) = runtime_event_message(RuntimeEvent::Error {
        error: RuntimeError { code: "E".to_string(), message: "m".to_string(), action_hint: None },
    });
    assert_eq!(name, "doctor:error");
    assert_eq!(
        payload,
        JsonValue::Object(vec![
            ("code".to_string(), JsonValue::Str("E".to_string())),
            ("message".to_string(), JsonValue::Str("m".to_string())),
            ("actionHint".to_string(), JsonValue::Null),
        ])
    );
}
