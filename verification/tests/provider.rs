use rip::decoder::{ParsedEvent, ParsedEventKind, SseDecoder};
use rip::frames::EventKind;
use rip::json::Json;
use rip::mapper::EventFrameMapper;

fn s(x: &str) -> Json {
    Json::Str(x.to_string())
}

fn obj(fields: Vec<(&str, Json)>) -> Json {
    Json::Obj(fields.into_iter().map(|(k, v)| (k.to_string(), v)).collect())
}

fn parsed_event(event: Option<&str>, raw: &str, data: Option<Json>) -> ParsedEvent {
    ParsedEvent {
        kind: ParsedEventKind::Event,
        event: event.map(|e| e.to_string()),
        raw: raw.to_string(),
        data,
        errors: Vec::new(),
        response_errors: Vec::new(),
    }
}

#[test]
fn parses_done_sentinel() {
    let mut decoder = SseDecoder::new();
    let events = decoder.push("data: [DONE]\n\n");
    assert_eq!(events.len(), 1);
    assert_eq!(events[0].kind, ParsedEventKind::Done);
}

#[test]
fn parses_invalid_json() {
    let mut decoder = SseDecoder::new();
    let events = decoder.push("data: {not json}\n\n");
    assert_eq!(events.len(), 1);
    assert_eq!(events[0].kind, ParsedEventKind::InvalidJson);
}

#[test]
fn captures_event_name_mismatch() {
    let mut decoder = SseDecoder::new();
    let payload = "event: response.created\n\
                  data: {\"type\":\"response.completed\",\"sequence_number\":1,\"response\":{}}\n\n";
    let events = decoder.push(payload);
    assert_eq!(events.len(), 1);
    let event = &events[0];
    assert_eq!(event.kind, ParsedEventKind::Event);
    assert!(event.errors.iter().any(|e| e
        == "event name 'response.created' does not match type 'response.completed'"));
}

#[test]
fn handles_split_chunks() {
    let mut decoder = SseDecoder::new();
    let part1 = "data: {\"type\":\"response.created\",\"sequence_number\":1,\n";
    let part2 = "data: \"response\":{}}\n\n";
    let mut events = decoder.push(part1);
    assert!(events.is_empty());
    events.extend(decoder.push(part2));
    assert_eq!(events.len(), 1);
    assert_eq!(events[0].kind, ParsedEventKind::Event);
    let data = events[0].data.as_ref().expect("data");
    let ty = data.get("type").expect("type").as_str().expect("str");
    assert_eq!(ty, "response.created");
}

#[test]
fn ignores_comment_lines() {
    let mut decoder = SseDecoder::new();
    let payload = ": keep-alive\n\
                   data: {\"type\":\"response.created\",\"sequence_number\":1,\"response\":{}}\n\n";
    let events = decoder.push(payload);
    assert_eq!(events.len(), 1);
    assert_eq!(events[0].kind, ParsedEventKind::Event);
}

#[test]
fn empty_event_name_sets_none() {
    let mut decoder = SseDecoder::new();
    let payload = "event:\n\
                  data: {\"type\":\"response.created\",\"sequence_number\":1,\"response\":{}}\n\n";
    let events = decoder.push(payload);
    assert_eq!(events.len(), 1);
    assert_eq!(events[0].event, None);
}

#[test]
fn finish_flushes_buffer() {
    let mut decoder = SseDecoder::new();
    let events =
        decoder.push("data: {\"type\":\"response.created\",\"sequence_number\":1,\"response\":{}}");
    assert!(events.is_empty());
    let flushed = decoder.finish();
    assert!(flushed.is_empty());
}

#[test]
fn captures_response_validation_errors() {
    let mut decoder = SseDecoder::new();
    let payload = "event: response.completed\n\
                  data: {\"type\":\"response.completed\",\"sequence_number\":1,\"response\":{}}\n\n";
    let events = decoder.push(payload);
    assert_eq!(events.len(), 1);
    assert!(!events[0].response_errors.is_empty());
}

#[test]
fn maps_output_text_delta_to_frame() {
    let parsed = parsed_event(
        Some("response.output_text.delta"),
        "{\"type\":\"response.output_text.delta\",\"delta\":\"hi\"}",
        Some(obj(vec![("type", s("response.output_text.delta")), ("delta", s("hi"))])),
    );

    let mut mapper = EventFrameMapper::new("session-1");
    let frame = mapper.map(&parsed).expect("frame");
    assert_eq!(frame.session_id, "session-1");
    assert_eq!(frame.seq, 0);
    match frame.kind {
        EventKind::OutputTextDelta { delta } => assert_eq!(delta, "hi"),
        _ => panic!("expected output_text_delta"),
    }
}

#[test]
fn maps_completed_to_session_end() {
    let parsed = parsed_event(
        Some("response.completed"),
        "{\"type\":\"response.completed\"}",
        Some(obj(vec![("type", s("response.completed"))])),
    );

    let mut mapper = EventFrameMapper::new("session-1");
    let frame = mapper.map(&parsed).expect("frame");
    match frame.kind {
        EventKind::SessionEnded { reason } => assert_eq!(reason, "response.completed"),
        _ => panic!("expected session_ended"),
    }
}

#[test]
fn done_sentinel_emits_end_once() {
    let done = ParsedEvent {
        kind: ParsedEventKind::Done,
        event: None,
        raw: "[DONE]".to_string(),
        data: None,
        errors: Vec::new(),
        response_errors: Vec::new(),
    };

    let delta = parsed_event(
        Some("response.output_text.delta"),
        "{\"type\":\"response.output_text.delta\",\"delta\":\"late\"}",
        Some(obj(vec![("type", s("response.output_text.delta")), ("delta", s("late"))])),
    );

    let mut mapper = EventFrameMapper::new("session-1");
    let first = mapper.map(&done);
    let second = mapper.map(&delta);
    assert!(first.is_some());
    assert!(second.is_none());
}

#[test]
fn done_stream_maps_to_session_ended() {
    let mut decoder = SseDecoder::new();
    let events = decoder.push("data: [DONE]\n\n");
    assert_eq!(events.len(), 1);

    let mut mapper = EventFrameMapper::new("session-1");
    let frame = mapper.map(&events[0]).expect("frame");
    assert_eq!(frame.seq, 0);
    match frame.kind {
        EventKind::SessionEnded { reason } => assert_eq!(reason, "done"),
        _ => panic!("expected session_ended"),
    }
}

#[test]
fn decoder_strips_one_leading_space_only() {
    let mut decoder = SseDecoder::new();
    let events = decoder.push("data:  hi\n\n");
    assert_eq!(events.len(), 1);
    assert_eq!(events[0].raw, " hi");
}

#[test]
fn decoder_crlf_equals_lf() {
    let mut a = SseDecoder::new();
    let mut b = SseDecoder::new();
    let ea = a.push("data: [DONE]\r\n\r\n");
    let eb = b.push("data: [DONE]\n\n");
    assert_eq!(ea.len(), eb.len());
    assert_eq!(ea[0].kind, eb[0].kind);
}
