use rip::frames::{Event, EventKind};
use rip::log::{
    event_from_json, event_line, filter_session, replay_events, validate_event_order,
    verify_snapshot_frames,
};
use rip::session::Runtime;

fn frame(id: &str, sid: &str, ts: u64, seq: u64, kind: EventKind) -> Event {
    Event {
        id: id.to_string(),
        session_id: sid.to_string(),
        timestamp_ms: ts,
        seq,
        kind,
    }
}

fn started(id: &str, sid: &str, seq: u64, input: &str) -> Event {
    frame(id, sid, 0, seq, EventKind::SessionStarted { input: input.to_string() })
}

fn ended(id: &str, sid: &str, seq: u64, reason: &str) -> Event {
    frame(id, sid, 1, seq, EventKind::SessionEnded { reason: reason.to_string() })
}

fn line_without_newline(e: &Event) -> Vec<u8> {
    let mut line = event_line(e);
    line.pop();
    line
}

#[test]
fn append_and_replay_events() {
    let runtime = Runtime::new();
    let mut session = runtime.start_session("hello".to_string());
    let mut lines: Vec<Vec<u8>> = Vec::new();
    while let Some(event) = session.next_event() {
        lines.push(line_without_newline(&event));
    }

    let events = replay_events(&lines).expect("replay");
    assert_eq!(events.len(), 3);
    matches!(events[0].kind, EventKind::SessionStarted { .. });
}

#[test]
fn replay_invalid_line_returns_error() {
    let lines = vec![b"not json".to_vec()];
    assert!(replay_events(&lines).is_err());
}

#[test]
fn replay_validated_detects_seq_gap() {
    let events = vec![
        started("e0", "s1", 0, "hi"),
        ended("e2", "s1", 2, "done"),
    ];
    let err = validate_event_order(&events).expect_err("gap");
    assert_eq!(err, "sequence mismatch for session s1: expected 1, got 2");
}

#[test]
fn replay_roundtrip_keeps_frames() {
    let original = vec![
        started("e0", "s1", 0, "hi"),
        ended("e1", "s1", 1, "done"),
    ];
    let lines: Vec<Vec<u8>> = original.iter().map(line_without_newline).collect();
    let replayed = replay_events(&lines).expect("replay");
    assert_eq!(replayed.len(), original.len());
    for (a, b) in replayed.iter().zip(original.iter()) {
        let la = rip::codec::json_to_bytes(&a.to_json());
        let lb = rip::codec::json_to_bytes(&b.to_json());
        assert_eq!(la, lb);
    }
}

#[test]
fn verify_snapshot_matches_replay() {
    let runtime = Runtime::new();
    let mut session = runtime.start_session("hello".to_string());
    let mut lines: Vec<Vec<u8>> = Vec::new();
    let mut events = Vec::new();
    while let Some(event) = session.next_event() {
        lines.push(line_without_newline(&event));
        events.push(event);
    }

    let replayed = replay_events(&lines).expect("replay");
    validate_event_order(&replayed).expect("order");
    verify_snapshot_frames(&replayed, &events).expect("verify");
}

#[test]
fn verify_snapshot_detects_mismatch() {
    let runtime = Runtime::new();
    let mut session = runtime.start_session("hello".to_string());
    let mut lines: Vec<Vec<u8>> = Vec::new();
    let mut events = Vec::new();
    while let Some(event) = session.next_event() {
        lines.push(line_without_newline(&event));
        events.push(event);
    }
    events.pop();

    let replayed = replay_events(&lines).expect("replay");
    assert!(verify_snapshot_frames(&replayed, &events).is_err());
}

#[test]
fn verify_snapshot_rejects_multiple_sessions() {
    let first = started("e1", "s1", 0, "hi");
    let second = started("e2", "s2", 0, "yo");
    let replayed = vec![
        frame("e1", "s1", 0, 0, EventKind::SessionStarted { input: "hi".to_string() }),
        frame("e2", "s2", 0, 0, EventKind::SessionStarted { input: "yo".to_string() }),
    ];
    let snapshot = vec![first, second];
    assert!(verify_snapshot_frames(&replayed, &snapshot).is_err());
}

#[test]
fn verify_snapshot_rejects_empty() {
    let replayed: Vec<Event> = Vec::new();
    let snapshot: Vec<Event> = Vec::new();
    assert!(verify_snapshot_frames(&replayed, &snapshot).is_err());
}

#[test]
fn log_replay_of_two_sessions() {
    let events = vec![
        started("a", "s1", 0, "one"),
        frame("b", "s1", 0, 1, EventKind::OutputTextDelta { delta: "x".to_string() }),
        started("c", "s2", 0, "two"),
        ended("d", "s1", 2, "completed"),
    ];
    validate_event_order(&events).expect("dense");

    let s1 = filter_session(&events, "s1");
    assert_eq!(s1.len(), 3);
    assert_eq!(s1[0].seq, 0);
    assert_eq!(s1[1].seq, 1);
    assert_eq!(s1[2].seq, 2);
    for e in &s1 {
        assert_eq!(e.session_id, "s1");
    }
}

#[test]
fn event_line_roundtrips_through_parse() {
    let e = frame(
        "id-1",
        "s1",
        42,
        0,
        EventKind::ToolStarted {
            tool_id: "t1".to_string(),
            name: "read".to_string(),
            args: rip::json::Json::Obj(vec![(
                "path".to_string(),
                rip::json::Json::Str("a.txt".to_string()),
            )]),
            timeout_ms: Some(250),
        },
    );
    let line = line_without_newline(&e);
    let parsed = rip::codec::parse_json(&line).expect("parse");
    let back = event_from_json(&parsed).expect("decode");
    assert_eq!(back.id, "id-1");
    assert_eq!(back.session_id, "s1");
    assert_eq!(back.timestamp_ms, 42);
    assert_eq!(back.seq, 0);
    let la = rip::codec::json_to_bytes(&back.to_json());
    let lb = rip::codec::json_to_bytes(&e.to_json());
    assert_eq!(la, lb);
}

#[test]
fn validate_event_order_accepts_dense_sessions() {
    let events = vec![
        started("a", "s1", 0, "one"),
        started("b", "s2", 0, "two"),
        ended("c", "s2", 1, "completed"),
        ended("d", "s1", 1, "completed"),
    ];
    validate_event_order(&events).expect("dense");
}

#[test]
fn validate_event_order_rejects_duplicate_seq() {
    let events = vec![
        started("a", "s1", 0, "one"),
        started("b", "s1", 0, "again"),
    ];
    assert!(validate_event_order(&events).is_err());
}
