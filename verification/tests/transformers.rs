use rip::frames::{Event, EventKind, ProviderEventStatus};
use rip::json::Json;
use rip::transformers::{
    extract_reasoning_deltas, extract_text_deltas, extract_tool_call_argument_deltas,
};

fn s(x: &str) -> Json {
    Json::Str(x.to_string())
}

fn obj(fields: Vec<(&str, Json)>) -> Json {
    Json::Obj(fields.into_iter().map(|(k, v)| (k.to_string(), v)).collect())
}

fn provider_frame(seq: u64, event_type: &str, delta: &str) -> Event {
    Event {
        id: format!("e{seq}"),
        session_id: "s1".to_string(),
        timestamp_ms: 0,
        seq,
        kind: EventKind::ProviderEvent {
            status: ProviderEventStatus::Event,
            event_name: None,
            data: Some(obj(vec![("type", s(event_type)), ("delta", s(delta))])),
        },
    }
}

fn sample_events() -> Vec<Event> {
    vec![
        provider_frame(0, "response.output_text.delta", "hello "),
        provider_frame(1, "response.reasoning.delta", "think"),
        provider_frame(2, "response.output_text.delta", "world"),
        provider_frame(3, "response.function_call_arguments.delta", "{\"a\":1}"),
        Event {
            id: "e4".to_string(),
            session_id: "s1".to_string(),
            timestamp_ms: 0,
            seq: 4,
            kind: EventKind::SessionEnded { reason: "done".to_string() },
        },
    ]
}

#[test]
fn extracts_text_deltas() {
    let deltas = extract_text_deltas(&sample_events());
    assert_eq!(deltas, vec!["hello ".to_string(), "world".to_string()]);
}

#[test]
fn extracts_reasoning_deltas() {
    let deltas = extract_reasoning_deltas(&sample_events());
    assert_eq!(deltas, vec!["think".to_string()]);
}

#[test]
fn extracts_tool_call_argument_deltas() {
    let deltas = extract_tool_call_argument_deltas(&sample_events());
    assert_eq!(deltas, vec!["{\"a\":1}".to_string()]);
}

#[test]
fn ignores_non_event_statuses() {
    let mut events = sample_events();
    events.push(Event {
        id: "e5".to_string(),
        session_id: "s1".to_string(),
        timestamp_ms: 0,
        seq: 5,
        kind: EventKind::ProviderEvent {
            status: ProviderEventStatus::InvalidJson,
            event_name: None,
            data: Some(obj(vec![
                ("type", s("response.output_text.delta")),
                ("delta", s("ignored")),
            ])),
        },
    });
    let deltas = extract_text_deltas(&events);
    assert_eq!(deltas, vec!["hello ".to_string(), "world".to_string()]);
}

#[test]
fn falls_back_to_event_name() {
    let events = vec![Event {
        id: "e0".to_string(),
        session_id: "s1".to_string(),
        timestamp_ms: 0,
        seq: 0,
        kind: EventKind::ProviderEvent {
            status: ProviderEventStatus::Event,
            event_name: Some("response.output_text.delta".to_string()),
            data: Some(obj(vec![("delta", s("named"))])),
        },
    }];
    let deltas = extract_text_deltas(&events);
    assert_eq!(deltas, vec!["named".to_string()]);
}
