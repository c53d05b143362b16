use rip::hooks::{HookAction, HookContext, HookEventKind, HookOutcome};
use rip::session::Runtime;

#[test]
fn session_emits_three_events_in_order() {
    let runtime = Runtime::new();
    let mut session = runtime.start_session("hello".to_string());

    let mut events = Vec::new();
    while let Some(event) = session.next_event() {
        events.push(event);
    }

    assert_eq!(events.len(), 3);
    assert_eq!(events[0].seq, 0);
    assert_eq!(events[1].seq, 1);
    assert_eq!(events[2].seq, 2);

    matches!(events[0].kind, rip::frames::EventKind::SessionStarted { .. });
    matches!(events[1].kind, rip::frames::EventKind::OutputTextDelta { .. });
    matches!(events[2].kind, rip::frames::EventKind::SessionEnded { .. });
}

#[test]
fn event_serializes_to_json() {
    let runtime = Runtime::new();
    let mut session = runtime.start_session("test".to_string());
    let event = session.next_event().expect("event");
    let bytes = rip::codec::json_to_bytes(&event.to_json());
    let json = String::from_utf8(bytes).expect("utf8");
    assert!(json.contains("session_started"));
    assert!(json.contains("input"));
}

#[test]
fn session_started_includes_input() {
    let runtime = Runtime::new();
    let mut session = runtime.start_session("hello".to_string());
    let event = session.next_event().expect("event");
    match event.kind {
        rip::frames::EventKind::SessionStarted { input } => assert_eq!(input, "hello"),
        _ => panic!("expected session_started"),
    }
}

#[test]
fn hook_abort_ends_session_early() {
    let mut runtime = Runtime::new();
    runtime.register_hook(
        "abort-on-output",
        HookEventKind::Output,
        HookAction::Abort { reason: "stop".to_string() },
    );

    let mut session = runtime.start_session("hello".to_string());
    let mut events = Vec::new();
    while let Some(event) = session.next_event() {
        events.push(event);
    }

    assert_eq!(events.len(), 2);
    matches!(events[0].kind, rip::frames::EventKind::SessionStarted { .. });
    matches!(events[1].kind, rip::frames::EventKind::SessionEnded { .. });
}

#[test]
fn default_echo_session_frames() {
    let runtime = Runtime::new();
    let mut session = runtime.start_session("hello".to_string());
    let events = session.run_to_completion();

    assert_eq!(events.len(), 3);
    assert_eq!(events[0].seq, 0);
    assert_eq!(events[1].seq, 1);
    assert_eq!(events[2].seq, 2);
    match &events[0].kind {
        rip::frames::EventKind::SessionStarted { input } => assert_eq!(input, "hello"),
        _ => panic!("expected session_started"),
    }
    match &events[1].kind {
        rip::frames::EventKind::OutputTextDelta { delta } => assert_eq!(delta, "ack: hello"),
        _ => panic!("expected output_text_delta"),
    }
    match &events[2].kind {
        rip::frames::EventKind::SessionEnded { reason } => assert_eq!(reason, "completed"),
        _ => panic!("expected session_ended"),
    }
}

#[test]
fn hook_abort_on_output_emits_two_frames() {
    let mut runtime = Runtime::new();
    runtime.register_hook(
        "stopper",
        HookEventKind::Output,
        HookAction::Abort { reason: "stop".to_string() },
    );
    let mut session = runtime.start_session("hello".to_string());
    let events = session.run_to_completion();

    assert_eq!(events.len(), 2);
    match &events[0].kind {
        rip::frames::EventKind::SessionStarted { input } => assert_eq!(input, "hello"),
        _ => panic!("expected session_started"),
    }
    match &events[1].kind {
        rip::frames::EventKind::SessionEnded { reason } => assert_eq!(reason, "stop"),
        _ => panic!("expected session_ended"),
    }
}

#[test]
fn command_registry_executes() {
    let mut runtime = Runtime::new();
    runtime
        .register_command("ping", "test command", Ok("pong".to_string()))
        .expect("register");

    let result = runtime.commands().execute(
        "ping",
        rip::commands::CommandContext {
            session_id: None,
            args: Vec::new(),
            raw: "ping".to_string(),
        },
    );

    assert_eq!(result.expect("command"), "pong");
}

#[test]
fn command_registry_rejects_duplicates() {
    let mut runtime = Runtime::new();
    runtime
        .register_command("dup", "first", Ok("ok".to_string()))
        .expect("register");
    let err = runtime
        .register_command("dup", "second", Ok("ok".to_string()))
        .expect_err("error");
    assert!(err.contains("already registered"));
}

#[test]
fn command_registry_lists_commands() {
    let mut runtime = Runtime::new();
    runtime
        .register_command("a", "first", Ok("a".to_string()))
        .expect("register");
    runtime
        .register_command("b", "second", Ok("b".to_string()))
        .expect("register");

    let mut names: Vec<String> = runtime
        .commands()
        .list()
        .into_iter()
        .map(|cmd| cmd.0)
        .collect();
    names.sort();
    assert_eq!(names, vec!["a".to_string(), "b".to_string()]);
}

#[test]
fn command_registry_unknown_command_errors() {
    let runtime = Runtime::new();
    let result = runtime.commands().execute(
        "missing",
        rip::commands::CommandContext {
            session_id: None,
            args: Vec::new(),
            raw: "missing".to_string(),
        },
    );
    assert!(result.is_err());
}

#[test]
fn hooks_run_in_order() {
    let mut runtime = Runtime::new();
    runtime.register_hook(
        "first",
        HookEventKind::SessionStarted,
        HookAction::Abort { reason: "first".to_string() },
    );
    runtime.register_hook(
        "second",
        HookEventKind::SessionStarted,
        HookAction::Abort { reason: "second".to_string() },
    );

    let mut session = runtime.start_session("hello".to_string());
    let event = session.next_event().expect("event");
    match event.kind {
        rip::frames::EventKind::SessionEnded { reason } => assert_eq!(reason, "first"),
        _ => panic!("expected the first registered hook to answer"),
    }
}

#[test]
fn runtime_default_exposes_ids_and_hooks() {
    let runtime = Runtime::default();
    let session = runtime.start_session("hello".to_string());
    assert!(!session.id().is_empty());

    let ctx = HookContext {
        session_id: session.id().to_string(),
        seq: 0,
        timestamp_ms: 0,
        event: HookEventKind::SessionStarted,
        output: None,
    };
    assert_eq!(runtime.hooks().run(&ctx), HookOutcome::Continue);
}
