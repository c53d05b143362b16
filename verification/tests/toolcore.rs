use rip::json::Json;
use rip::runner::{tool_run_frames, ToolInvocation, ToolOutcome, ToolOutput};
use rip::tools::{
    filter_entries, grep_file_checked, normalize_rel_path, plan_read, plan_write, read_select,
    resolve_path, split_output, truncate_utf8, BuiltinToolConfig,
};

fn s(x: &str) -> Json {
    Json::Str(x.to_string())
}

fn n(x: i64) -> Json {
    Json::Int(x)
}

fn obj(fields: Vec<(&str, Json)>) -> Json {
    Json::Obj(fields.into_iter().map(|(k, v)| (k.to_string(), v)).collect())
}

#[test]
fn default_config_has_limits() {
    let config = BuiltinToolConfig::default();
    assert!(config.max_bytes > 0);
    assert!(config.max_results > 0);
    assert!(config.max_depth > 0);
}

#[test]
fn truncate_utf8_no_truncation() {
    let bytes = b"hello".to_vec();
    let (text, truncated, used) = truncate_utf8(&bytes, 10);
    assert_eq!(text, "hello");
    assert!(!truncated);
    assert_eq!(used, bytes.len());
}

#[test]
fn truncate_utf8_handles_multibyte() {
    let bytes = "\u{e9}".as_bytes().to_vec();
    let (text, truncated, used) = truncate_utf8(&bytes, 1);
    assert_eq!(text, "");
    assert!(truncated);
    assert_eq!(used, 0);
}

#[test]
fn split_output_trims_cr() {
    let output = split_output(&b"one\r\ntwo\r\n".to_vec(), 1024);
    assert_eq!(output, vec!["one".to_string(), "two".to_string()]);
}

#[test]
fn globsets_match_exclude_only() {
    let patterns = Some(vec!["**/*.log".to_string()]);
    assert!(!rip::tools::globsets_match(&None, &patterns, "a.log"));
    assert!(rip::tools::globsets_match(&None, &patterns, "a.txt"));
}

#[test]
fn resolve_path_joins_inside_root() {
    let resolved = resolve_path("/ws", "sub/file.txt").expect("ok");
    assert_eq!(resolved, "/ws/sub/file.txt");
}

#[test]
fn resolve_path_rejects_absolute() {
    let err = resolve_path("/ws", "/etc/passwd").expect_err("err");
    assert_eq!(err, "absolute paths are not allowed");
}

#[test]
fn resolve_path_rejects_parent_components() {
    let err = resolve_path("/ws", "../secret").expect_err("err");
    assert_eq!(err, "path escapes workspace root");
    let err = resolve_path("/ws", "a/../b").expect_err("err");
    assert_eq!(err, "path escapes workspace root");
    assert!(resolve_path("/ws", "a..b/..c/d..").is_ok());
}

#[test]
fn normalize_rel_path_strips_root() {
    assert_eq!(normalize_rel_path("/ws", "/ws/a/b.txt"), "a/b.txt");
    assert_eq!(normalize_rel_path("/ws", "/other/a.txt"), "/other/a.txt");
}

#[test]
fn plan_read_rejects_zero_lines() {
    let config = BuiltinToolConfig::default();
    let args = obj(vec![("path", s("f.txt")), ("start_line", n(0))]);
    let out = plan_read(&args, &config).expect_err("err");
    assert_eq!(out.exit_code, 2);
    assert_eq!(out.stdout, vec!["line numbers are 1-based".to_string()]);

    let args = obj(vec![("path", s("f.txt")), ("end_line", n(0))]);
    let out = plan_read(&args, &config).expect_err("err");
    assert_eq!(out.exit_code, 2);
}

#[test]
fn plan_read_rejects_reversed_range() {
    let config = BuiltinToolConfig::default();
    let args = obj(vec![("path", s("f.txt")), ("start_line", n(5)), ("end_line", n(2))]);
    let out = plan_read(&args, &config).expect_err("err");
    assert_eq!(out.exit_code, 2);
}

#[test]
fn plan_read_rejects_escaping_path() {
    let config = BuiltinToolConfig::default();
    let args = obj(vec![("path", s("../f.txt"))]);
    let out = plan_read(&args, &config).expect_err("err");
    assert_eq!(out.exit_code, 1);
}

#[test]
fn read_select_returns_line_range() {
    let config = BuiltinToolConfig::default();
    let args = obj(vec![("path", s("f.txt")), ("start_line", n(2)), ("end_line", n(3))]);
    let plan = plan_read(&args, &config).expect("plan");
    let content = b"one\ntwo\nthree\nfour\n".to_vec();
    let out = read_select(&content, &plan);
    assert_eq!(out.exit_code, 0);
    assert_eq!(out.stdout, vec!["two\nthree\n".to_string()]);
}

#[test]
fn read_select_truncates_on_utf8_boundary() {
    let config = BuiltinToolConfig::default();
    let args = obj(vec![("path", s("f.txt")), ("max_bytes", n(5))]);
    let plan = plan_read(&args, &config).expect("plan");
    let content = "abcd\u{e9}f".as_bytes().to_vec();
    let out = read_select(&content, &plan);
    assert_eq!(out.exit_code, 0);
    assert_eq!(out.stdout, vec!["abcd".to_string()]);
    assert!(out.stdout[0].as_bytes().len() < 5);
    let artifacts = out.artifacts.expect("artifacts");
    match artifacts.get("truncated") {
        Some(Json::Bool(t)) => assert!(*t),
        _ => panic!("expected truncated flag"),
    }
    match artifacts.get("bytes") {
        Some(Json::Int(b)) => assert_eq!(*b, 4),
        _ => panic!("expected byte count"),
    }
    match artifacts.get("path").and_then(|v| v.as_str()) {
        Some(p) => assert_eq!(p, "f.txt"),
        None => panic!("expected path"),
    }
}

#[test]
fn read_select_reports_invalid_utf8() {
    let config = BuiltinToolConfig::default();
    let args = obj(vec![("path", s("f.bin"))]);
    let plan = plan_read(&args, &config).expect("plan");
    let content = vec![0x61, 0xc3, 0x28, 0x62];
    let out = read_select(&content, &plan);
    assert_eq!(out.exit_code, 1);
    assert_eq!(out.stdout, vec!["read failed: content is not valid UTF-8".to_string()]);
    assert!(out.artifacts.is_none());
}

#[test]
fn plan_write_applies_defaults() {
    let config = BuiltinToolConfig::default();
    let args = obj(vec![("path", s("f.txt")), ("content", s("hi"))]);
    let plan = plan_write(&args, &config).expect("plan");
    assert!(!plan.append);
    assert!(plan.create);
    assert!(plan.atomic);
    assert_eq!(plan.content, "hi");
}

#[test]
fn plan_write_rejects_bad_args() {
    let config = BuiltinToolConfig::default();
    let args = obj(vec![("path", s("f.txt"))]);
    let out = plan_write(&args, &config).expect_err("err");
    assert_eq!(out.exit_code, 2);
}

#[test]
fn grep_finds_matching_lines() {
    let content = b"alpha\nbeta\nalpha beta\n".to_vec();
    let mut out: Vec<String> = Vec::new();
    let matched =
        grep_file_checked(&content, 4096, 100, "alpha", false, false, "f.txt", &mut out)
            .expect("pattern");
    assert_eq!(matched, 2);
    assert_eq!(out, vec!["f.txt:1:alpha".to_string(), "f.txt:3:alpha beta".to_string()]);
}

#[test]
fn grep_skips_binary_file() {
    let content = b"\x00binary\nalpha\n".to_vec();
    let mut out: Vec<String> = Vec::new();
    let matched =
        grep_file_checked(&content, 4096, 100, "alpha", false, false, "f.bin", &mut out)
            .expect("pattern");
    assert_eq!(matched, 0);
    assert!(out.is_empty());
}

#[test]
fn grep_skips_file_with_late_nul() {
    let content = b"alpha\n\x00binary\n".to_vec();
    let mut out: Vec<String> = Vec::new();
    let matched =
        grep_file_checked(&content, 4096, 100, "alpha", false, false, "f.bin", &mut out)
            .expect("pattern");
    assert_eq!(matched, 0);
    assert!(out.is_empty());
}

#[test]
fn grep_respects_result_cap() {
    let content = b"hit\nhit\nhit\n".to_vec();
    let mut out: Vec<String> = Vec::new();
    let matched = grep_file_checked(&content, 4096, 2, "hit", false, false, "f.txt", &mut out)
        .expect("pattern");
    assert_eq!(matched, 2);
    assert_eq!(out.len(), 2);
}

#[test]
fn grep_literal_mode_escapes_pattern() {
    let content = b"a.c\nabc\n".to_vec();
    let mut out: Vec<String> = Vec::new();
    let matched = grep_file_checked(&content, 4096, 100, "a.c", true, false, "f.txt", &mut out)
        .expect("pattern");
    assert_eq!(matched, 1);
    assert_eq!(out, vec!["f.txt:1:a.c".to_string()]);
}

#[test]
fn regex_check_rejects_invalid_pattern() {
    let err = rip::tools::regex_check("[unclosed", false, false).expect_err("err");
    assert!(err.contains("invalid regex"));
}

#[test]
fn globs_check_rejects_invalid_pattern() {
    let bad = Some(vec!["a{".to_string()]);
    assert!(rip::tools::globs_check(&bad).is_err());
    let good = Some(vec!["**/*.rs".to_string()]);
    assert!(rip::tools::globs_check(&good).is_ok());
}

#[test]
fn filter_entries_applies_globs() {
    let entries = vec!["src/a.rs".to_string(), "doc/b.md".to_string(), "src/c.log".to_string()];
    let keep = Some(vec!["src/**".to_string(), "src/*".to_string()]);
    let drop = Some(vec!["**/*.log".to_string()]);
    let out = filter_entries(&entries, &keep, &drop);
    assert_eq!(out, vec!["src/a.rs".to_string()]);
}

#[test]
fn tool_run_frames_success_shape() {
    let mut seq: u64 = 0;
    let invocation = ToolInvocation {
        name: "echo".to_string(),
        args: obj(vec![("text", s("hi"))]),
        timeout_ms: None,
    };
    let output = ToolOutput {
        stdout: vec!["hi".to_string()],
        stderr: vec!["warn".to_string()],
        exit_code: 0,
        artifacts: None,
    };
    let events =
        tool_run_frames("session-1", &mut seq, &invocation, ToolOutcome::Finished(output), 7);
    assert_eq!(events.len(), 4);
    assert_eq!(seq, 4);
    let tool_id = match &events[0].kind {
        rip::frames::EventKind::ToolStarted { tool_id, name, .. } => {
            assert_eq!(name, "echo");
            tool_id.clone()
        },
        _ => panic!("expected tool_started"),
    };
    match &events[1].kind {
        rip::frames::EventKind::ToolStdout { tool_id: t, chunk } => {
            assert_eq!(t, &tool_id);
            assert_eq!(chunk, "hi");
        },
        _ => panic!("expected tool_stdout"),
    }
    match &events[2].kind {
        rip::frames::EventKind::ToolStderr { chunk, .. } => assert_eq!(chunk, "warn"),
        _ => panic!("expected tool_stderr"),
    }
    match &events[3].kind {
        rip::frames::EventKind::ToolEnded { tool_id: t, exit_code, duration_ms, .. } => {
            assert_eq!(t, &tool_id);
            assert_eq!(*exit_code, 0);
            assert_eq!(*duration_ms, 7);
        },
        _ => panic!("expected tool_ended"),
    }
    for (i, e) in events.iter().enumerate() {
        assert_eq!(e.seq, i as u64);
        assert_eq!(e.session_id, "session-1");
    }
}

#[test]
fn tool_run_frames_unknown_tool_fails_once() {
    let mut seq: u64 = 5;
    let invocation = ToolInvocation {
        name: "missing".to_string(),
        args: Json::Null,
        timeout_ms: None,
    };
    let events = tool_run_frames("s", &mut seq, &invocation, ToolOutcome::Unknown, 0);
    assert_eq!(events.len(), 2);
    assert_eq!(events[0].seq, 5);
    assert_eq!(events[1].seq, 6);
    match &events[1].kind {
        rip::frames::EventKind::ToolFailed { error, .. } => assert_eq!(error, "unknown tool"),
        _ => panic!("expected tool_failed"),
    }
}

#[test]
fn tool_run_frames_timeout_fails_once() {
    let mut seq: u64 = 0;
    let invocation = ToolInvocation {
        name: "slow".to_string(),
        args: Json::Null,
        timeout_ms: Some(10),
    };
    let events = tool_run_frames("s", &mut seq, &invocation, ToolOutcome::Timeout, 10);
    assert_eq!(events.len(), 2);
    match &events[1].kind {
        rip::frames::EventKind::ToolFailed { error, .. } => assert_eq!(error, "timeout"),
        _ => panic!("expected tool_failed"),
    }
}
