//! The frame mapper: translates decoded provider events into session
//! frames.  At most one terminal frame leaves a mapper; once it has ended,
//! every further event maps to nothing.

use vstd::prelude::*;

use crate::decoder::{ParsedEvent, ParsedEventKind};
use crate::frames::{event_wire_safe, is_terminal, Event, EventKind};
use crate::json::{clone_string, obj_get, string_is, Json, JsonV};
use crate::sys::{fresh_id, now_ms};

verus! {

broadcast use vstd::std_specs::vec::group_vec_axioms, vstd::seq::group_seq_axioms;

/// The parsed event maps to an output frame: a `response.output_text.delta`
/// event carrying a string delta.
pub open spec fn maps_to_delta(kind: ParsedEventKind, data: Option<JsonV>) -> bool {
    &&& kind is Event
    &&& data matches Some(d) && obj_get(d, "type"@) == Some(
        JsonV::Str("response.output_text.delta"@),
    ) && obj_get(d, "delta"@) matches Some(JsonV::Str(_))
}

/// The parsed event maps to a terminal frame: the terminal sentinel, or one
/// of the three terminal response events.
pub open spec fn maps_to_end(kind: ParsedEventKind, data: Option<JsonV>) -> bool {
    ||| kind is Done
    ||| (kind is Event && (data matches Some(d) && (obj_get(d, "type"@) matches Some(
        JsonV::Str(t),
    ) && (t == "response.completed"@ || t == "response.failed"@ || t
        == "response.incomplete"@))))
}

/// The reason a terminal mapping carries.
pub open spec fn mapped_end_reason(kind: ParsedEventKind, data: Option<JsonV>) -> Seq<char> {
    match kind {
        ParsedEventKind::Done => "done"@,
        _ => match data {
            Some(d) => match obj_get(d, "type"@) {
                Some(JsonV::Str(t)) => t,
                _ => Seq::empty(),
            },
            Option::None => Seq::empty(),
        },
    }
}

/// The per-session mapper: its session id, its dense counter, and whether
/// the terminal frame has left.
#[derive(Debug)]
pub struct EventFrameMapper {
    pub session_id: String,
    pub seq: u64,
    pub ended: bool,
}

impl EventFrameMapper {
    /// The counter stays within the wire format's numeric range.
    pub open spec fn wf(self) -> bool {
        self.seq <= i64::MAX as u64
    }

    /// A fresh mapper for one session, starting at sequence zero.
    pub fn new(session_id: &str) -> (r: EventFrameMapper)
        ensures
            r.wf(),
            r.session_id@ == session_id@,
            r.seq == 0,
            !r.ended,
    {
        EventFrameMapper { session_id: String::from_str(session_id), seq: 0, ended: false }
    }

    /// Maps one parsed event to at most one frame.
    ///
    /// Nothing comes out once the mapper has ended, and the mapper ends
    /// exactly when it emits a terminal frame: at most one terminal frame
    /// per session.
    pub fn map(&mut self, parsed: &ParsedEvent) -> (r: Option<Event>)
        requires
            old(self).wf(),
            old(self).seq < i64::MAX as u64,
        ensures
            final (self).wf(),
            final (self).session_id@ == old(self).session_id@,
            final (self).ended == (old(self).ended || (r matches Some(e) && is_terminal(e.kind))),
            old(self).ended ==> r is None && *final (self) == *old(self),
            !old(self).ended ==> {
                let dv = match parsed.data {
                    Some(d) => Some(d@),
                    Option::None => Option::<JsonV>::None,
                };
                match r {
                    Some(e) => {
                        &&& e.session_id@ == old(self).session_id@
                        &&& e.seq == old(self).seq
                        &&& event_wire_safe(e)
                        &&& final (self).seq == old(self).seq + 1
                        &&& (maps_to_end(parsed.kind, dv) ==> (e.kind
                            matches EventKind::SessionEnded { reason } && reason@
                            == mapped_end_reason(parsed.kind, dv)) && final (self).ended)
                        &&& (!maps_to_end(parsed.kind, dv) ==> maps_to_delta(parsed.kind, dv)
                            && (e.kind matches EventKind::OutputTextDelta { delta } && (
                        parsed.data matches Some(d) && obj_get(d@, "delta"@) == Some(
                            JsonV::Str(delta@),
                        ))) && !final (self).ended)
                    },
                    Option::None => !maps_to_end(parsed.kind, dv) && !maps_to_delta(
                        parsed.kind,
                        dv,
                    ) && *final (self) == *old(self),
                }
            },
    {
        if self.ended {
            return None;
        }
        match parsed.kind {
            ParsedEventKind::Done => {
                self.ended = true;
                Some(self.emit(EventKind::SessionEnded { reason: String::from_str("done") }))
            },
            ParsedEventKind::InvalidJson => None,
            ParsedEventKind::Event => {
                let data = match &parsed.data {
                    Some(d) => d,
                    None => {
                        return None;
                    },
                };
                let event_type = match data.get("type") {
                    Some(tv) => match tv.as_str() {
                        Some(ts) => ts,
                        None => {
                            return None;
                        },
                    },
                    None => {
                        return None;
                    },
                };
                proof {
                    assert(parsed.data matches Some(pd) && pd@ == data@);
                }
                if string_is(event_type, "response.output_text.delta") {
                    let delta = match data.get("delta") {
                        Some(dv) => match dv.as_str() {
                            Some(ds) => clone_string(ds),
                            None => {
                                proof {
                                    reveal_strlit("response.output_text.delta");
                                    reveal_strlit("response.completed");
                                    reveal_strlit("response.failed");
                                    reveal_strlit("response.incomplete");
                                    assert("response.output_text.delta"@.len() == 26);
                                    assert("response.completed"@.len() == 18);
                                    assert("response.failed"@.len() == 15);
                                    assert("response.incomplete"@.len() == 19);
                                    assert(!maps_to_delta(parsed.kind, Some(data@)));
                                    assert(!maps_to_end(parsed.kind, Some(data@)));
                                }
                                return None;
                            },
                        },
                        None => {
                            proof {
                                reveal_strlit("response.output_text.delta");
                                reveal_strlit("response.completed");
                                reveal_strlit("response.failed");
                                reveal_strlit("response.incomplete");
                                assert(parsed.kind is Event);
                                assert(event_type@ == "response.output_text.delta"@);
                                assert("response.output_text.delta"@.len() == 26);
                                assert("response.completed"@.len() == 18);
                                assert(!maps_to_delta(parsed.kind, Some(data@)));
                                assert(!maps_to_end(parsed.kind, Some(data@)));
                            }
                            return None;
                        },
                    };
                    proof {
                        reveal_strlit("response.output_text.delta");
                        reveal_strlit("response.completed");
                        reveal_strlit("response.failed");
                        reveal_strlit("response.incomplete");
                        assert("response.output_text.delta"@.len() == 26);
                        assert("response.completed"@.len() == 18);
                        assert("response.failed"@.len() == 15);
                        assert("response.incomplete"@.len() == 19);
                        assert(!maps_to_end(parsed.kind, Some(data@)));
                        assert(maps_to_delta(parsed.kind, Some(data@)));
                    }
                    Some(self.emit(EventKind::OutputTextDelta { delta }))
                } else if string_is(event_type, "response.completed") || string_is(
                    event_type,
                    "response.failed",
                ) || string_is(event_type, "response.incomplete") {
                    self.ended = true;
                    Some(
                        self.emit(
                            EventKind::SessionEnded { reason: clone_string(event_type) },
                        ),
                    )
                } else {
                    None
                }
            },
        }
    }

    /// Stamps one frame under the current counter and advances it.
    fn emit(&mut self, kind: EventKind) -> (e: Event)
        requires
            old(self).seq < i64::MAX as u64,
            (kind matches EventKind::ToolStarted { timeout_ms: Some(t), .. } ==> t <= i64::MAX
                as u64),
            (kind matches EventKind::ToolEnded { duration_ms, .. } ==> duration_ms <= i64::MAX
                as u64),
        ensures
            final (self).seq == old(self).seq + 1,
            final (self).session_id@ == old(self).session_id@,
            final (self).ended == old(self).ended,
            e.kind == kind,
            e.session_id@ == old(self).session_id@,
            e.seq == old(self).seq,
            event_wire_safe(e),
    {
        let seq0 = self.seq;
        self.seq = seq0 + 1;
        Event {
            id: fresh_id(),
            session_id: clone_string(&self.session_id),
            timestamp_ms: now_ms(),
            seq: seq0,
            kind,
        }
    }
}

} // verus!
