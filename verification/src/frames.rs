//! The event frame model: the closed vocabulary of typed frames a session
//! emits, and its stable JSON projection.  The projection flattens the kind
//! into the envelope object: the discriminator sits under `type` beside the
//! kind's own fields, and the envelope fields `id`, `session_id`,
//! `timestamp_ms` and `seq` are always present.

use vstd::prelude::*;

use crate::json::{
    clone_string, json_fields_view, lemma_json_fields_view, Json, JsonV,
};

verus! {

broadcast use vstd::std_specs::vec::group_vec_axioms, vstd::seq::group_seq_axioms;

/// How a provider event arrived: as a parsed event, the terminal sentinel,
/// or a payload that did not parse.
#[derive(Clone, Copy, PartialEq, Eq, Structural, Debug)]
pub enum ProviderEventStatus {
    Event,
    Done,
    InvalidJson,
}

/// One kind of event frame.
#[derive(Clone, Debug)]
pub enum EventKind {
    SessionStarted { input: String },
    OutputTextDelta { delta: String },
    SessionEnded { reason: String },
    ProviderEvent { status: ProviderEventStatus, event_name: Option<String>, data: Option<Json> },
    ToolStarted { tool_id: String, name: String, args: Json, timeout_ms: Option<u64> },
    ToolStdout { tool_id: String, chunk: String },
    ToolStderr { tool_id: String, chunk: String },
    ToolEnded { tool_id: String, exit_code: i32, duration_ms: u64, artifacts: Option<Json> },
    ToolFailed { tool_id: String, error: String },
}

/// One event frame in a session's sequence.
#[derive(Clone, Debug)]
pub struct Event {
    pub id: String,
    pub session_id: String,
    pub timestamp_ms: u64,
    pub seq: u64,
    pub kind: EventKind,
}

/// True when the frame is a terminal frame.
pub open spec fn is_terminal(k: EventKind) -> bool {
    k matches EventKind::SessionEnded { .. }
}

/// The `type` discriminator of a kind.
pub open spec fn kind_tag(k: EventKind) -> Seq<char> {
    match k {
        EventKind::SessionStarted { .. } => "session_started"@,
        EventKind::OutputTextDelta { .. } => "output_text_delta"@,
        EventKind::SessionEnded { .. } => "session_ended"@,
        EventKind::ProviderEvent { .. } => "provider_event"@,
        EventKind::ToolStarted { .. } => "tool_started"@,
        EventKind::ToolStdout { .. } => "tool_stdout"@,
        EventKind::ToolStderr { .. } => "tool_stderr"@,
        EventKind::ToolEnded { .. } => "tool_ended"@,
        EventKind::ToolFailed { .. } => "tool_failed"@,
    }
}

/// The wire name of a provider event status.
pub open spec fn status_name(s: ProviderEventStatus) -> Seq<char> {
    match s {
        ProviderEventStatus::Event => "event"@,
        ProviderEventStatus::Done => "done"@,
        ProviderEventStatus::InvalidJson => "invalid_json"@,
    }
}

/// The kind-specific fields that follow the `type` discriminator in the JSON
/// projection.  Optional fields are omitted when absent.
pub open spec fn kind_fields(k: EventKind) -> Seq<(Seq<char>, JsonV)> {
    match k {
        EventKind::SessionStarted { input } => seq![("input"@, JsonV::Str(input@))],
        EventKind::OutputTextDelta { delta } => seq![("delta"@, JsonV::Str(delta@))],
        EventKind::SessionEnded { reason } => seq![("reason"@, JsonV::Str(reason@))],
        EventKind::ProviderEvent { status, event_name, data } => {
            let head = seq![("status"@, JsonV::Str(status_name(status)))];
            let mid = match event_name {
                Some(n) => seq![("event_name"@, JsonV::Str(n@))],
                None => Seq::empty(),
            };
            let tail = match data {
                Some(d) => seq![("data"@, d@)],
                None => Seq::empty(),
            };
            head + mid + tail
        },
        EventKind::ToolStarted { tool_id, name, args, timeout_ms } => {
            let head = seq![
                ("tool_id"@, JsonV::Str(tool_id@)),
                ("name"@, JsonV::Str(name@)),
                ("args"@, args@),
            ];
            let tail = match timeout_ms {
                Some(t) => seq![("timeout_ms"@, JsonV::Int(t as int))],
                None => Seq::empty(),
            };
            head + tail
        },
        EventKind::ToolStdout { tool_id, chunk } => seq![
            ("tool_id"@, JsonV::Str(tool_id@)),
            ("chunk"@, JsonV::Str(chunk@)),
        ],
        EventKind::ToolStderr { tool_id, chunk } => seq![
            ("tool_id"@, JsonV::Str(tool_id@)),
            ("chunk"@, JsonV::Str(chunk@)),
        ],
        EventKind::ToolEnded { tool_id, exit_code, duration_ms, artifacts } => {
            let head = seq![
                ("tool_id"@, JsonV::Str(tool_id@)),
                ("exit_code"@, JsonV::Int(exit_code as int)),
                ("duration_ms"@, JsonV::Int(duration_ms as int)),
            ];
            let tail = match artifacts {
                Some(a) => seq![("artifacts"@, a@)],
                None => Seq::empty(),
            };
            head + tail
        },
        EventKind::ToolFailed { tool_id, error } => seq![
            ("tool_id"@, JsonV::Str(tool_id@)),
            ("error"@, JsonV::Str(error@)),
        ],
    }
}

/// The JSON projection of a frame: the envelope fields, the discriminator,
/// then the kind's own fields.
pub open spec fn event_json(e: Event) -> JsonV {
    JsonV::Obj(
        seq![
            ("id"@, JsonV::Str(e.id@)),
            ("session_id"@, JsonV::Str(e.session_id@)),
            ("timestamp_ms"@, JsonV::Int(e.timestamp_ms as int)),
            ("seq"@, JsonV::Int(e.seq as int)),
            ("type"@, JsonV::Str(kind_tag(e.kind))),
        ] + kind_fields(e.kind),
    )
}

/// The numeric fields of a frame fit the wire format, whose numbers are
/// signed 64-bit integers.
pub open spec fn event_wire_safe(e: Event) -> bool {
    &&& e.timestamp_ms <= i64::MAX as u64
    &&& e.seq <= i64::MAX as u64
    &&& (e.kind matches EventKind::ToolStarted { timeout_ms: Some(t), .. } ==> t <= i64::MAX
        as u64)
    &&& (e.kind matches EventKind::ToolEnded { duration_ms, .. } ==> duration_ms <= i64::MAX
        as u64)
}

impl Event {
    /// Builds the JSON projection of the frame.
    pub fn to_json(&self) -> (r: Json)
        requires
            event_wire_safe(*self),
        ensures
            r@ == event_json(*self),
    {
        let mut fields: Vec<(String, Json)> = Vec::new();
        fields.push((String::from_str("id"), Json::Str(clone_string(&self.id))));
        fields.push((String::from_str("session_id"), Json::Str(clone_string(&self.session_id))));
        fields.push((String::from_str("timestamp_ms"), Json::Int(self.timestamp_ms as i64)));
        fields.push((String::from_str("seq"), Json::Int(self.seq as i64)));
        fields.push((String::from_str("type"), kind_tag_json(&self.kind)));
        let ghost envelope = fields@;
        let ghost envelope_view = seq![
            ("id"@, JsonV::Str(self.id@)),
            ("session_id"@, JsonV::Str(self.session_id@)),
            ("timestamp_ms"@, JsonV::Int(self.timestamp_ms as int)),
            ("seq"@, JsonV::Int(self.seq as int)),
            ("type"@, JsonV::Str(kind_tag(self.kind))),
        ];
        proof {
            lemma_json_fields_view(envelope);
            assert(json_fields_view(envelope) =~= envelope_view);
        }
        push_kind_fields(&mut fields, &self.kind);
        let r = Json::Obj(fields);
        proof {
            assert(json_fields_view(fields@) =~= envelope_view + kind_fields(self.kind));
            assert(r@ == JsonV::Obj(json_fields_view(fields@)));
            assert(r@ =~= event_json(*self));
        }
        r
    }
}

/// The discriminator of a kind as a JSON string.
fn kind_tag_json(k: &EventKind) -> (r: Json)
    ensures
        r@ == JsonV::Str(kind_tag(*k)),
{
    match k {
        EventKind::SessionStarted { .. } => Json::str("session_started"),
        EventKind::OutputTextDelta { .. } => Json::str("output_text_delta"),
        EventKind::SessionEnded { .. } => Json::str("session_ended"),
        EventKind::ProviderEvent { .. } => Json::str("provider_event"),
        EventKind::ToolStarted { .. } => Json::str("tool_started"),
        EventKind::ToolStdout { .. } => Json::str("tool_stdout"),
        EventKind::ToolStderr { .. } => Json::str("tool_stderr"),
        EventKind::ToolEnded { .. } => Json::str("tool_ended"),
        EventKind::ToolFailed { .. } => Json::str("tool_failed"),
    }
}

/// Appends the kind's own fields to the projection under construction.
fn push_kind_fields(fields: &mut Vec<(String, Json)>, k: &EventKind)
    requires
        (k matches EventKind::ToolStarted { timeout_ms: Some(t), .. } ==> t <= i64::MAX as u64),
        (k matches EventKind::ToolEnded { duration_ms, .. } ==> duration_ms <= i64::MAX as u64),
    ensures
        final (fields)@.len() == old(fields)@.len() + kind_fields(*k).len(),
        json_fields_view(final (fields)@) =~= json_fields_view(old(fields)@) + kind_fields(*k),
{
    proof {
        lemma_json_fields_view(old(fields)@);
    }
    match k {
        EventKind::SessionStarted { input } => {
            fields.push((String::from_str("input"), Json::Str(clone_string(input))));
        },
        EventKind::OutputTextDelta { delta } => {
            fields.push((String::from_str("delta"), Json::Str(clone_string(delta))));
        },
        EventKind::SessionEnded { reason } => {
            fields.push((String::from_str("reason"), Json::Str(clone_string(reason))));
        },
        EventKind::ProviderEvent { status, event_name, data } => {
            let name: &str = match status {
                ProviderEventStatus::Event => "event",
                ProviderEventStatus::Done => "done",
                ProviderEventStatus::InvalidJson => "invalid_json",
            };
            fields.push((String::from_str("status"), Json::str(name)));
            if let Some(n) = event_name {
                fields.push((String::from_str("event_name"), Json::Str(clone_string(n))));
            }
            if let Some(d) = data {
                fields.push((String::from_str("data"), d.duplicate()));
            }
        },
        EventKind::ToolStarted { tool_id, name, args, timeout_ms } => {
            fields.push((String::from_str("tool_id"), Json::Str(clone_string(tool_id))));
            fields.push((String::from_str("name"), Json::Str(clone_string(name))));
            fields.push((String::from_str("args"), args.duplicate()));
            if let Some(t) = timeout_ms {
                fields.push((String::from_str("timeout_ms"), Json::Int(*t as i64)));
            }
        },
        EventKind::ToolStdout { tool_id, chunk } => {
            fields.push((String::from_str("tool_id"), Json::Str(clone_string(tool_id))));
            fields.push((String::from_str("chunk"), Json::Str(clone_string(chunk))));
        },
        EventKind::ToolStderr { tool_id, chunk } => {
            fields.push((String::from_str("tool_id"), Json::Str(clone_string(tool_id))));
            fields.push((String::from_str("chunk"), Json::Str(clone_string(chunk))));
        },
        EventKind::ToolEnded { tool_id, exit_code, duration_ms, artifacts } => {
            fields.push((String::from_str("tool_id"), Json::Str(clone_string(tool_id))));
            fields.push((String::from_str("exit_code"), Json::Int(*exit_code as i64)));
            fields.push((String::from_str("duration_ms"), Json::Int(*duration_ms as i64)));
            if let Some(a) = artifacts {
                fields.push((String::from_str("artifacts"), a.duplicate()));
            }
        },
        EventKind::ToolFailed { tool_id, error } => {
            fields.push((String::from_str("tool_id"), Json::Str(clone_string(tool_id))));
            fields.push((String::from_str("error"), Json::Str(clone_string(error))));
        },
    }
    proof {
        lemma_json_fields_view(fields@);
    }
}

} // verus!
