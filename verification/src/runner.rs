//! The tool runner's frame discipline: one invocation becomes a start
//! frame, the streamed output lines, and exactly one end-or-fail frame, all
//! under consecutive sequence numbers.  The dispatcher that owns the
//! concurrency permits and the timeout race performs the invocation and
//! hands its outcome back here.

use vstd::prelude::*;

use crate::frames::{event_wire_safe, Event, EventKind};
use crate::json::{clone_string, Json};
use crate::sys::{fresh_id, now_ms};

verus! {

broadcast use vstd::std_specs::vec::group_vec_axioms, vstd::seq::group_seq_axioms;

/// One tool invocation: the tool's name, its arguments, and an optional
/// timeout.
#[derive(Clone, Debug)]
pub struct ToolInvocation {
    pub name: String,
    pub args: Json,
    pub timeout_ms: Option<u64>,
}

/// What a tool handler reports: its output lines, its exit code, and
/// optional structured artifacts.
#[derive(Clone, Debug)]
pub struct ToolOutput {
    pub stdout: Vec<String>,
    pub stderr: Vec<String>,
    pub exit_code: i32,
    pub artifacts: Option<Json>,
}

impl ToolOutput {
    /// A successful output carrying the given lines.
    pub fn success(stdout: Vec<String>) -> (r: ToolOutput)
        ensures
            r.stdout == stdout,
            r.stderr@.len() == 0,
            r.exit_code == 0,
            r.artifacts is None,
    {
        ToolOutput { stdout, stderr: Vec::new(), exit_code: 0, artifacts: None }
    }

    /// An operational failure: exit code 1, the messages on stdout.
    pub fn failure(messages: Vec<String>) -> (r: ToolOutput)
        ensures
            r.stdout == messages,
            r.stderr@.len() == 0,
            r.exit_code == 1,
            r.artifacts is None,
    {
        ToolOutput { stdout: messages, stderr: Vec::new(), exit_code: 1, artifacts: None }
    }

    /// An argument failure: exit code 2, the message on stdout.
    pub fn invalid_args(message: String) -> (r: ToolOutput)
        ensures
            r.stdout@.len() == 1 && r.stdout@[0] == message,
            r.stderr@.len() == 0,
            r.exit_code == 2,
            r.artifacts is None,
    {
        let mut stdout: Vec<String> = Vec::new();
        stdout.push(message);
        ToolOutput { stdout, stderr: Vec::new(), exit_code: 2, artifacts: None }
    }
}

/// How an invocation came out: the tool was not registered, it overran its
/// timeout, or it finished with an output.
pub enum ToolOutcome {
    Unknown,
    Timeout,
    Finished(ToolOutput),
}

/// The number of frames an outcome contributes after the start frame.
pub open spec fn outcome_frames(outcome: ToolOutcome) -> int {
    match outcome {
        ToolOutcome::Unknown => 1,
        ToolOutcome::Timeout => 1,
        ToolOutcome::Finished(out) => out.stdout@.len() + out.stderr@.len() + 1int,
    }
}

/// The frame at a given position of an outcome's tail: first one
/// `tool_stdout` per stdout line, then one `tool_stderr` per stderr line,
/// then the end-or-fail frame.
pub open spec fn outcome_frame_ok(
    outcome: ToolOutcome,
    k: int,
    kind: EventKind,
    tool_id: Seq<char>,
    duration_ms: u64,
) -> bool {
    match outcome {
        ToolOutcome::Unknown => kind matches EventKind::ToolFailed { tool_id: t, error } && t@
            == tool_id && error@ == "unknown tool"@,
        ToolOutcome::Timeout => kind matches EventKind::ToolFailed { tool_id: t, error } && t@
            == tool_id && error@ == "timeout"@,
        ToolOutcome::Finished(out) => {
            let n_out = out.stdout@.len() as int;
            let n_err = out.stderr@.len() as int;
            if k < n_out {
                kind matches EventKind::ToolStdout { tool_id: t, chunk } && t@ == tool_id
                    && chunk@ == out.stdout@[k]@
            } else if k < n_out + n_err {
                kind matches EventKind::ToolStderr { tool_id: t, chunk } && t@ == tool_id
                    && chunk@ == out.stderr@[k - n_out]@
            } else {
                kind matches EventKind::ToolEnded { tool_id: t, exit_code, duration_ms: d, .. }
                    && t@ == tool_id && exit_code == out.exit_code && d == duration_ms
            }
        },
    }
}

/// True when the kind ends the given tool call, one way or the other.
pub open spec fn closes_tool(kind: EventKind, tool_id: Seq<char>) -> bool {
    ||| (kind matches EventKind::ToolEnded { tool_id: t, .. } && t@ == tool_id)
    ||| (kind matches EventKind::ToolFailed { tool_id: t, .. } && t@ == tool_id)
}

/// Builds the frame sequence of one tool invocation: the start frame, then
/// the outcome's frames, under consecutive sequence numbers starting at the
/// caller's counter, which is advanced past them.
///
/// The first frame is `tool_started` with a fresh tool id; exactly one
/// later frame closes that id — the last one — so every started call ends
/// exactly once.
pub fn tool_run_frames(
    session_id: &str,
    seq: &mut u64,
    invocation: &ToolInvocation,
    outcome: ToolOutcome,
    duration_ms: u64,
) -> (events: Vec<Event>)
    requires
        *old(seq) <= i64::MAX as u64 - 2 - outcome_frames(outcome),
        invocation.timeout_ms matches Some(t) ==> t <= i64::MAX as u64,
        duration_ms <= i64::MAX as u64,
    ensures
        *final (seq) == *old(seq) + events@.len(),
        events@.len() == 1 + outcome_frames(outcome),
        forall|k: int|
            0 <= k < events@.len() ==> (#[trigger] events@[k]).seq == *old(seq) + k
                && events@[k].session_id@ == session_id@ && event_wire_safe(events@[k]),
        events@[0].kind matches EventKind::ToolStarted { tool_id, name, timeout_ms, .. } && name@
            == invocation.name@ && timeout_ms == invocation.timeout_ms,
        ({
            let tool_id = events@[0].kind->ToolStarted_tool_id@;
            &&& forall|k: int|
                1 <= k < events@.len() ==> outcome_frame_ok(
                    outcome,
                    k - 1,
                    (#[trigger] events@[k]).kind,
                    tool_id,
                    duration_ms,
                )
            &&& closes_tool(events@.last().kind, tool_id)
            &&& forall|k: int|
                0 <= k < events@.len() - 1 ==> !closes_tool(
                    (#[trigger] events@[k]).kind,
                    tool_id,
                )
        }),
{
    let tool_id = fresh_id();
    let ghost tid = tool_id@;
    let mut events: Vec<Event> = Vec::new();
    let started = Event {
        id: fresh_id(),
        session_id: String::from_str(session_id),
        timestamp_ms: now_ms(),
        seq: *seq,
        kind: EventKind::ToolStarted {
            tool_id: clone_string(&tool_id),
            name: clone_string(&invocation.name),
            args: invocation.args.duplicate(),
            timeout_ms: invocation.timeout_ms,
        },
    };
    events.push(started);
    *seq = *seq + 1;
    match outcome {
        ToolOutcome::Unknown => {
            push_frame(
                &mut events,
                session_id,
                seq,
                EventKind::ToolFailed {
                    tool_id,
                    error: String::from_str("unknown tool"),
                },
            );
        },
        ToolOutcome::Timeout => {
            push_frame(
                &mut events,
                session_id,
                seq,
                EventKind::ToolFailed {
                    tool_id,
                    error: String::from_str("timeout"),
                },
            );
        },
        ToolOutcome::Finished(out) => {
            let ghost base_len = events@.len();
            let n_out = out.stdout.len();
            let mut k: usize = 0;
            while k < n_out
                invariant
                    0 <= k <= n_out,
                    n_out == out.stdout@.len(),
                    tid == tool_id@,
                    events@.len() == 1 + k,
                    *seq == *old(seq) + events@.len(),
                    *old(seq) + 2 + n_out + out.stderr@.len() <= i64::MAX as u64,
                    events@[0].kind matches EventKind::ToolStarted {
                        tool_id: t0,
                        name: nm0,
                        timeout_ms: to0,
                        ..
                    } && t0@ == tid && nm0@ == invocation.name@ && to0
                        == invocation.timeout_ms,
                    forall|m: int|
                        0 <= m < events@.len() ==> (#[trigger] events@[m]).seq == *old(seq) + m
                            && events@[m].session_id@ == session_id@ && event_wire_safe(
                            events@[m],
                        ),
                    forall|m: int|
                        1 <= m < events@.len() ==> ((#[trigger] events@[m]).kind
                            matches EventKind::ToolStdout { tool_id: t, chunk } && t@ == tid
                            && chunk@ == out.stdout@[m - 1]@),
                decreases n_out - k,
            {
                push_frame(
                    &mut events,
                    session_id,
                    seq,
                    EventKind::ToolStdout {
                        tool_id: clone_string(&tool_id),
                        chunk: clone_string(&out.stdout[k]),
                    },
                );
                k = k + 1;
            }
            let n_err = out.stderr.len();
            let mut k2: usize = 0;
            while k2 < n_err
                invariant
                    0 <= k2 <= n_err,
                    n_err == out.stderr@.len(),
                    n_out == out.stdout@.len(),
                    tid == tool_id@,
                    events@.len() == 1 + n_out + k2,
                    *seq == *old(seq) + events@.len(),
                    *old(seq) + 2 + n_out + n_err <= i64::MAX as u64,
                    events@[0].kind matches EventKind::ToolStarted {
                        tool_id: t0,
                        name: nm0,
                        timeout_ms: to0,
                        ..
                    } && t0@ == tid && nm0@ == invocation.name@ && to0
                        == invocation.timeout_ms,
                    forall|m: int|
                        0 <= m < events@.len() ==> (#[trigger] events@[m]).seq == *old(seq) + m
                            && events@[m].session_id@ == session_id@ && event_wire_safe(
                            events@[m],
                        ),
                    forall|m: int|
                        1 <= m < 1 + n_out ==> ((#[trigger] events@[m]).kind
                            matches EventKind::ToolStdout { tool_id: t, chunk } && t@ == tid
                            && chunk@ == out.stdout@[m - 1]@),
                    forall|m: int|
                        1 + n_out <= m < events@.len() ==> ((#[trigger] events@[m]).kind
                            matches EventKind::ToolStderr { tool_id: t, chunk } && t@ == tid
                            && chunk@ == out.stderr@[m - 1 - n_out]@),
                decreases n_err - k2,
            {
                push_frame(
                    &mut events,
                    session_id,
                    seq,
                    EventKind::ToolStderr {
                        tool_id: clone_string(&tool_id),
                        chunk: clone_string(&out.stderr[k2]),
                    },
                );
                k2 = k2 + 1;
            }
            push_frame(
                &mut events,
                session_id,
                seq,
                EventKind::ToolEnded {
                    tool_id,
                    exit_code: out.exit_code,
                    duration_ms,
                    artifacts: out.artifacts,
                },
            );
        },
    }
    events
}

/// Stamps one frame under the caller's counter and appends it.
fn push_frame(events: &mut Vec<Event>, session_id: &str, seq: &mut u64, kind: EventKind)
    requires
        *old(seq) < i64::MAX as u64,
        (kind matches EventKind::ToolStarted { timeout_ms: Some(t), .. } ==> t <= i64::MAX
            as u64),
        (kind matches EventKind::ToolEnded { duration_ms, .. } ==> duration_ms <= i64::MAX
            as u64),
    ensures
        *final (seq) == *old(seq) + 1,
        final (events)@.len() == old(events)@.len() + 1,
        final (events)@.last().seq == *old(seq),
        final (events)@.last().session_id@ == session_id@,
        final (events)@.last().kind == kind,
        event_wire_safe(final (events)@.last()),
        forall|m: int| 0 <= m < old(events)@.len() ==> final (events)@[m] == old(events)@[m],
{
    let e = Event {
        id: fresh_id(),
        session_id: String::from_str(session_id),
        timestamp_ms: now_ms(),
        seq: *seq,
        kind,
    };
    events.push(e);
    *seq = *seq + 1;
}

} // verus!
