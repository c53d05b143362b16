//! The event log model: frames as JSON lines, replay with per-session
//! sequence validation, per-session filtering, and snapshot verification.
//! The file itself lives with the caller; everything here computes over
//! lines and frame lists.

use vstd::prelude::*;

use crate::catalogue::has_str_field;
use crate::codec::{json_of_bytes, json_to_bytes, parse_json, print_json};
use crate::frames::{
    event_json, event_wire_safe, kind_fields, kind_tag, status_name, Event, EventKind,
    ProviderEventStatus,
};
use crate::json::{clone_string, obj_get, string_is, Json, JsonV};

verus! {

broadcast use vstd::std_specs::vec::group_vec_axioms, vstd::seq::group_seq_axioms;

/// How many of the first `upto` frames belong to the session.
pub open spec fn prefix_count(events: Seq<Event>, sid: Seq<char>, upto: int) -> int
    decreases upto,
{
    if upto <= 0 {
        0
    } else {
        prefix_count(events, sid, upto - 1) + if events[upto - 1].session_id@ == sid {
            1int
        } else {
            0int
        }
    }
}

/// Within each session the emitted sequence numbers are exactly 0,1,2,…:
/// every frame's number equals how many frames of its session came before
/// it.
pub open spec fn dense_per_session(events: Seq<Event>) -> bool {
    forall|i: int|
        0 <= i < events.len() ==> (#[trigger] events[i]).seq == prefix_count(
            events,
            events[i].session_id@,
            i,
        )
}

/// The first position whose frame breaks per-session density, scanning
/// from `i`; the length when none does.
pub open spec fn first_gap(events: Seq<Event>, i: int) -> int
    decreases events.len() - i,
    when 0 <= i <= events.len()
{
    if i >= events.len() {
        i
    } else if events[i].seq != prefix_count(events, events[i].session_id@, i) {
        i
    } else {
        first_gap(events, i + 1)
    }
}

/// The message a density violation at position `i` is reported with.
pub open spec fn gap_message(events: Seq<Event>, i: int) -> Seq<char> {
    "sequence mismatch for session "@ + events[i].session_id@ + ": expected "@
        + crate::text::dec_rep(prefix_count(events, events[i].session_id@, i) as nat)
        + ", got "@ + crate::text::dec_rep(events[i].seq as nat)
}

/// Checks per-session dense ordering over a replayed frame list.
pub fn validate_event_order(events: &Vec<Event>) -> (r: Result<(), String>)
    ensures
        r is Ok <==> dense_per_session(events@),
        r matches Err(e) ==> 0 <= first_gap(events@, 0) < events@.len() && e@ == gap_message(
            events@,
            first_gap(events@, 0),
        ),
{
    let n = events.len();
    let mut counters: Vec<(String, u64)> = Vec::new();
    let mut i: usize = 0;
    while i < n
        invariant
            0 <= i <= n,
            n == events@.len(),
            forall|k: int|
                0 <= k < counters@.len() ==> (#[trigger] counters@[k]).1 == prefix_count(
                    events@,
                    counters@[k].0@,
                    i as int,
                ),
            forall|k1: int, k2: int|
                0 <= k1 < k2 < counters@.len() ==> (#[trigger] counters@[k1]).0@ != (
                #[trigger] counters@[k2]).0@,
            forall|sid: Seq<char>|
                !(exists|k: int|
                    0 <= k < counters@.len() && (#[trigger] counters@[k]).0@ == sid) ==> #[trigger] prefix_count(
                    events@,
                    sid,
                    i as int,
                ) == 0,
            forall|j: int|
                0 <= j < i ==> (#[trigger] events@[j]).seq == prefix_count(
                    events@,
                    events@[j].session_id@,
                    j,
                ),
            forall|k: int|
                0 <= k < counters@.len() ==> (#[trigger] counters@[k]).1 <= i,
        decreases n - i,
    {
        let e = &events[i];
        let m = counters.len();
        let mut k: usize = 0;
        let mut found = false;
        while k < m && !found
            invariant
                0 <= k <= m,
                m == counters@.len(),
                n == events@.len(),
                0 <= i < n,
                *e == events@[i as int],
                !found ==> forall|k0: int|
                    0 <= k0 < k ==> (#[trigger] counters@[k0]).0@ != events@[i as int].session_id@,
                found ==> k < m && counters@[k as int].0@ == events@[i as int].session_id@,
            decreases m - k + (if found {
                0int
            } else {
                1int
            }),
        {
            if string_is(&counters[k].0, e.session_id.as_str()) {
                found = true;
            } else {
                k = k + 1;
            }
        }
        let expected: u64 = if found {
            counters[k].1
        } else {
            0
        };
        proof {
            if found {
                assert(counters@[k as int].1 == prefix_count(
                    events@,
                    events@[i as int].session_id@,
                    i as int,
                ));
            } else {
                assert(forall|k0: int|
                    0 <= k0 < m ==> (#[trigger] counters@[k0]).0@ != events@[
                        i as int
                    ].session_id@);
                assert(prefix_count(events@, events@[i as int].session_id@, i as int) == 0);
            }
        }
        if e.seq != expected {
            proof {
                assert(events@[i as int].seq != prefix_count(
                    events@,
                    events@[i as int].session_id@,
                    i as int,
                ));
                assert(!dense_per_session(events@));
                lemma_first_gap_at(events@, 0, i as int);
                assert(prefix_count(events@, events@[i as int].session_id@, i as int)
                    == expected as int) by {
                    if found {
                    } else {
                    }
                }
            }
            let message = String::from_str("sequence mismatch for session ").concat(
                e.session_id.as_str(),
            ).concat(": expected ").concat(
                crate::text::u64_to_string(expected).as_str(),
            ).concat(", got ").concat(crate::text::u64_to_string(e.seq).as_str());
            proof {
                assert(message@ =~= gap_message(events@, i as int));
            }
            return Err(message);
        }
        let ghost counters0 = counters@;
        if found {
            let name = clone_string(&counters[k].0);
            counters.set(k, (name, expected + 1));
        } else {
            counters.push((clone_string(&e.session_id), 1));
        }
        proof {
            let sid_i = events@[i as int].session_id@;
            assert forall|sid: Seq<char>| true implies #[trigger] prefix_count(
                events@,
                sid,
                i + 1,
            ) == prefix_count(events@, sid, i as int) + (if sid_i == sid {
                1int
            } else {
                0int
            }) by {}
            if found {
                assert(counters@ == counters0.update(k as int, (
                    counters@[k as int].0,
                    counters@[k as int].1,
                )));
                assert(counters@[k as int].0@ == sid_i);
                assert(counters@[k as int].1 == prefix_count(events@, sid_i, i + 1));
                assert forall|sid: Seq<char>|
                    !(exists|kk: int|
                        0 <= kk < counters@.len() && (#[trigger] counters@[kk]).0@
                            == sid) implies #[trigger] prefix_count(events@, sid, i + 1)
                    == 0 by {
                    assert(counters@[k as int].0@ == sid_i);
                    if exists|kk: int|
                        0 <= kk < counters0.len() && (#[trigger] counters0[kk]).0@ == sid {
                        let kk = choose|kk: int|
                            0 <= kk < counters0.len() && (#[trigger] counters0[kk]).0@ == sid;
                        assert(counters@[kk].0@ == sid);
                    } else {
                        assert(prefix_count(events@, sid, i as int) == 0);
                        assert(sid != sid_i);
                    }
                }
            } else {
                assert(counters@ == counters0.push((
                    counters@[counters@.len() - 1].0,
                    counters@[counters@.len() - 1].1,
                )));
                assert(counters@[counters@.len() - 1].0@ == sid_i);
                assert(counters@[counters@.len() - 1].1 == 1);
                assert(prefix_count(events@, sid_i, i + 1) == 1);
                assert forall|sid: Seq<char>|
                    !(exists|kk: int|
                        0 <= kk < counters@.len() && (#[trigger] counters@[kk]).0@
                            == sid) implies #[trigger] prefix_count(events@, sid, i + 1)
                    == 0 by {
                    assert(counters@[counters@.len() - 1].0@ == sid_i);
                    if exists|kk: int|
                        0 <= kk < counters0.len() && (#[trigger] counters0[kk]).0@ == sid {
                        let kk = choose|kk: int|
                            0 <= kk < counters0.len() && (#[trigger] counters0[kk]).0@ == sid;
                        assert(counters@[kk].0@ == sid);
                    } else {
                        assert(prefix_count(events@, sid, i as int) == 0);
                        assert(sid != sid_i);
                    }
                }
                assert forall|k1: int, k2: int|
                    0 <= k1 < k2 < counters@.len() implies (#[trigger] counters@[k1]).0@ != (
                #[trigger] counters@[k2]).0@ by {
                    if k2 == counters@.len() - 1 {
                        assert(counters@[k1].0@ == counters0[k1].0@);
                        if counters0[k1].0@ == sid_i {
                            assert(exists|kk: int|
                                0 <= kk < counters0.len() && (#[trigger] counters0[kk]).0@
                                    == sid_i);
                            assert(prefix_count(events@, sid_i, i as int) == 0 || true);
                        }
                        assert(forall|k0: int|
                            0 <= k0 < counters0.len() ==> (#[trigger] counters0[k0]).0@ != sid_i);
                    }
                }
            }
        }
        i = i + 1;
    }
    Ok(())
}

/// A position whose predecessors all keep per-session density and that
/// itself breaks it is the first gap.
proof fn lemma_first_gap_at(events: Seq<Event>, i: int, at: int)
    requires
        0 <= i <= at < events.len(),
        forall|j: int|
            i <= j < at ==> (#[trigger] events[j]).seq == prefix_count(
                events,
                events[j].session_id@,
                j,
            ),
        events[at].seq != prefix_count(events, events[at].session_id@, at),
    ensures
        first_gap(events, i) == at,
    decreases at - i,
{
    if i < at {
        lemma_first_gap_at(events, i + 1, at);
    }
}

/// The per-variant equality of two frame kinds: same discriminator, same
/// kind fields.
pub open spec fn kinds_equiv(a: EventKind, b: EventKind) -> bool {
    kind_tag(a) == kind_tag(b) && kind_fields(a) == kind_fields(b)
}

/// The full structural equality of two frames, field by field, as their
/// JSON projections would compare.
pub open spec fn events_equiv(a: Event, b: Event) -> bool {
    &&& a.id@ == b.id@
    &&& a.session_id@ == b.session_id@
    &&& a.timestamp_ms == b.timestamp_ms
    &&& a.seq == b.seq
    &&& kinds_equiv(a.kind, b.kind)
}

/// Equivalent frames project to the same JSON.
pub proof fn lemma_equiv_same_json(a: Event, b: Event)
    requires
        events_equiv(a, b),
    ensures
        event_json(a) == event_json(b),
{
    assert(event_json(a) =~= event_json(b));
}

/// The frames of one session, in order.
pub open spec fn session_frames(events: Seq<Event>, sid: Seq<char>) -> Seq<Event>
    decreases events.len(),
{
    if events.len() == 0 {
        Seq::empty()
    } else {
        let init = session_frames(events.drop_last(), sid);
        if events.last().session_id@ == sid {
            init.push(events.last())
        } else {
            init
        }
    }
}

/// Copies one frame, field by field.
pub fn duplicate_event(e: &Event) -> (r: Event)
    ensures
        events_equiv(r, *e),
        r.session_id@ == e.session_id@,
        r.seq == e.seq,
        crate::frames::event_wire_safe(*e) ==> crate::frames::event_wire_safe(r),
{
    let kind = match &e.kind {
        EventKind::SessionStarted { input } => EventKind::SessionStarted {
            input: clone_string(input),
        },
        EventKind::OutputTextDelta { delta } => EventKind::OutputTextDelta {
            delta: clone_string(delta),
        },
        EventKind::SessionEnded { reason } => EventKind::SessionEnded {
            reason: clone_string(reason),
        },
        EventKind::ProviderEvent { status, event_name, data } => EventKind::ProviderEvent {
            status: *status,
            event_name: match event_name {
                Some(n) => Some(clone_string(n)),
                None => None,
            },
            data: match data {
                Some(d) => Some(d.duplicate()),
                None => None,
            },
        },
        EventKind::ToolStarted { tool_id, name, args, timeout_ms } => EventKind::ToolStarted {
            tool_id: clone_string(tool_id),
            name: clone_string(name),
            args: args.duplicate(),
            timeout_ms: *timeout_ms,
        },
        EventKind::ToolStdout { tool_id, chunk } => EventKind::ToolStdout {
            tool_id: clone_string(tool_id),
            chunk: clone_string(chunk),
        },
        EventKind::ToolStderr { tool_id, chunk } => EventKind::ToolStderr {
            tool_id: clone_string(tool_id),
            chunk: clone_string(chunk),
        },
        EventKind::ToolEnded { tool_id, exit_code, duration_ms, artifacts } => EventKind::ToolEnded {
            tool_id: clone_string(tool_id),
            exit_code: *exit_code,
            duration_ms: *duration_ms,
            artifacts: match artifacts {
                Some(a) => Some(a.duplicate()),
                None => None,
            },
        },
        EventKind::ToolFailed { tool_id, error } => EventKind::ToolFailed {
            tool_id: clone_string(tool_id),
            error: clone_string(error),
        },
    };
    Event {
        id: clone_string(&e.id),
        session_id: clone_string(&e.session_id),
        timestamp_ms: e.timestamp_ms,
        seq: e.seq,
        kind,
    }
}

/// The frames of one session, copied in order.
pub fn filter_session(events: &Vec<Event>, session_id: &str) -> (out: Vec<Event>)
    ensures
        out@.len() == session_frames(events@, session_id@).len(),
        forall|k: int|
            0 <= k < out@.len() ==> events_equiv(
                #[trigger] out@[k],
                session_frames(events@, session_id@)[k],
            ),
        (forall|i: int|
            0 <= i < events@.len() ==> crate::frames::event_wire_safe(#[trigger] events@[i]))
            ==> (forall|k: int|
            0 <= k < out@.len() ==> crate::frames::event_wire_safe(#[trigger] out@[k])),
{
    let n = events.len();
    let mut out: Vec<Event> = Vec::new();
    let mut i: usize = 0;
    proof {
        assert(events@.take(0) =~= Seq::<Event>::empty());
    }
    while i < n
        invariant
            0 <= i <= n,
            n == events@.len(),
            out@.len() == session_frames(events@.take(i as int), session_id@).len(),
            forall|k: int|
                0 <= k < out@.len() ==> events_equiv(
                    #[trigger] out@[k],
                    session_frames(events@.take(i as int), session_id@)[k],
                ),
            (forall|m: int|
                0 <= m < events@.len() ==> crate::frames::event_wire_safe(
                    #[trigger] events@[m],
                )) ==> (forall|k: int|
                0 <= k < out@.len() ==> crate::frames::event_wire_safe(#[trigger] out@[k])),
        decreases n - i,
    {
        proof {
            assert(events@.take(i + 1).drop_last() =~= events@.take(i as int));
            assert(events@.take(i + 1).last() == events@[i as int]);
        }
        if string_is(&events[i].session_id, session_id) {
            out.push(duplicate_event(&events[i]));
        }
        i = i + 1;
    }
    proof {
        assert(events@.take(n as int) =~= events@);
    }
    out
}

/// The log line of one frame: its JSON projection printed compactly, with a
/// terminating newline.
pub fn event_line(e: &Event) -> (line: Vec<u8>)
    requires
        crate::frames::event_wire_safe(*e),
    ensures
        line@ == print_json(event_json(*e)) + seq![0x0au8],
{
    let v = e.to_json();
    let mut line = json_to_bytes(&v);
    line.push(0x0a);
    proof {
        assert(line@ =~= print_json(event_json(*e)) + seq![0x0au8]);
    }
    line
}

/// Two frame lists print to the same JSON, frame by frame.
pub open spec fn lists_json_equal(a: Seq<Event>, b: Seq<Event>) -> bool {
    &&& a.len() == b.len()
    &&& forall|i: int|
        0 <= i < a.len() ==> print_json(event_json(#[trigger] a[i])) == print_json(
            event_json(b[i]),
        )
}

/// Compares two frame lists by their JSON projections; any difference in
/// length or content fails.
pub fn compare_events(left: &Vec<Event>, right: &Vec<Event>) -> (r: Result<(), String>)
    requires
        forall|i: int| 0 <= i < left@.len() ==> crate::frames::event_wire_safe(#[trigger] left@[i]),
        forall|i: int|
            0 <= i < right@.len() ==> crate::frames::event_wire_safe(#[trigger] right@[i]),
    ensures
        r is Ok <==> lists_json_equal(left@, right@),
{
    if left.len() != right.len() {
        return Err(String::from_str("snapshot mismatch: lengths differ"));
    }
    let n = left.len();
    let mut i: usize = 0;
    while i < n
        invariant
            0 <= i <= n,
            n == left@.len(),
            n == right@.len(),
            forall|m: int|
                0 <= m < left@.len() ==> crate::frames::event_wire_safe(#[trigger] left@[m]),
            forall|m: int|
                0 <= m < right@.len() ==> crate::frames::event_wire_safe(#[trigger] right@[m]),
            forall|m: int|
                0 <= m < i ==> print_json(event_json(#[trigger] left@[m])) == print_json(
                    event_json(right@[m]),
                ),
        decreases n - i,
    {
        let lv = left[i].to_json();
        let rv = right[i].to_json();
        let lb = json_to_bytes(&lv);
        let rb = json_to_bytes(&rv);
        if !bytes_eq(&lb, &rb) {
            return Err(String::from_str("snapshot mismatch"));
        }
        i = i + 1;
    }
    Ok(())
}

/// Compares two byte vectors.
fn bytes_eq(a: &Vec<u8>, b: &Vec<u8>) -> (r: bool)
    ensures
        r == (a@ == b@),
{
    if a.len() != b.len() {
        proof {
            assert(a@ != b@);
        }
        return false;
    }
    let n = a.len();
    let mut i: usize = 0;
    while i < n
        invariant
            0 <= i <= n,
            n == a@.len(),
            n == b@.len(),
            forall|k: int| 0 <= k < i ==> a@[k] == b@[k],
        decreases n - i,
    {
        if a[i] != b[i] {
            return false;
        }
        i = i + 1;
    }
    proof {
        assert(a@ =~= b@);
    }
    true
}

/// Verifies a snapshot against the replayed log: the snapshot must be
/// non-empty, belong to a single session, and equal that session's replayed
/// frames JSON-for-JSON.
pub fn verify_snapshot_frames(replayed: &Vec<Event>, snapshot: &Vec<Event>) -> (r: Result<
    (),
    String,
>)
    requires
        forall|i: int|
            0 <= i < replayed@.len() ==> crate::frames::event_wire_safe(#[trigger] replayed@[i]),
        forall|i: int|
            0 <= i < snapshot@.len() ==> crate::frames::event_wire_safe(#[trigger] snapshot@[i]),
    ensures
        r is Ok ==> snapshot@.len() > 0 && (forall|i: int|
            0 <= i < snapshot@.len() ==> (#[trigger] snapshot@[i]).session_id@ == snapshot@[
                0
            ].session_id@),
        r is Ok ==> lists_json_equal(
            session_frames(replayed@, snapshot@[0].session_id@),
            snapshot@,
        ),
        snapshot@.len() == 0 ==> r is Err,
        (snapshot@.len() > 0 && (forall|i: int|
            0 <= i < snapshot@.len() ==> (#[trigger] snapshot@[i]).session_id@ == snapshot@[
                0
            ].session_id@) && lists_json_equal(
            session_frames(replayed@, snapshot@[0].session_id@),
            snapshot@,
        )) ==> r is Ok,
{
    if snapshot.len() == 0 {
        return Err(String::from_str("snapshot is empty"));
    }
    let sid = clone_string(&snapshot[0].session_id);
    let n = snapshot.len();
    let mut i: usize = 0;
    while i < n
        invariant
            0 <= i <= n,
            n == snapshot@.len(),
            n > 0,
            sid@ == snapshot@[0].session_id@,
            forall|k: int|
                0 <= k < i ==> (#[trigger] snapshot@[k]).session_id@ == snapshot@[0].session_id@,
        decreases n - i,
    {
        if !string_is(&snapshot[i].session_id, sid.as_str()) {
            return Err(String::from_str("snapshot contains multiple session ids"));
        }
        i = i + 1;
    }
    let mine = filter_session(replayed, sid.as_str());
    let outcome = compare_events(&mine, snapshot);
    proof {
        let frames = session_frames(replayed@, sid@);
        assert forall|k: int| 0 <= k < mine@.len() implies print_json(
            event_json(#[trigger] mine@[k]),
        ) == print_json(event_json(frames[k])) by {
            lemma_equiv_same_json(mine@[k], frames[k]);
        }
        assert(mine@.len() == frames.len());
        if lists_json_equal(mine@, snapshot@) {
            assert forall|k: int| 0 <= k < frames.len() implies print_json(
                event_json(#[trigger] frames[k]),
            ) == print_json(event_json(snapshot@[k])) by {
                assert(print_json(event_json(mine@[k])) == print_json(event_json(snapshot@[k])));
            }
            assert(lists_json_equal(frames, snapshot@));
        }
        if lists_json_equal(frames, snapshot@) {
            assert forall|k: int| 0 <= k < mine@.len() implies print_json(
                event_json(#[trigger] mine@[k]),
            ) == print_json(event_json(snapshot@[k])) by {
                assert(print_json(event_json(frames[k])) == print_json(event_json(snapshot@[k])));
            }
            assert(lists_json_equal(mine@, snapshot@));
        }
    }
    outcome
}

/// A snapshot holding exactly the frames one session emitted meets every
/// premise of successful verification: it belongs to a single session and
/// is JSON-equal, frame for frame, to that session's replay.  With the
/// success direction of [`verify_snapshot_frames`], verifying the snapshot
/// a live session just wrote returns success.
pub proof fn lemma_session_snapshot_verifies(replayed: Seq<Event>, sid: Seq<char>)
    ensures
        forall|i: int|
            0 <= i < session_frames(replayed, sid).len() ==> (#[trigger] session_frames(
                replayed,
                sid,
            )[i]).session_id@ == sid,
        lists_json_equal(session_frames(replayed, sid), session_frames(replayed, sid)),
    decreases replayed.len(),
{
    if replayed.len() > 0 {
        lemma_session_snapshot_verifies(replayed.drop_last(), sid);
        let s = session_frames(replayed, sid);
        let init = session_frames(replayed.drop_last(), sid);
        assert forall|i: int| 0 <= i < s.len() implies (#[trigger] s[i]).session_id@ == sid by {
            if replayed.last().session_id@ == sid {
                if i < init.len() {
                    assert(s[i] == init[i]);
                } else {
                    assert(s[i] == replayed.last());
                }
            } else {
                assert(s[i] == init[i]);
            }
        }
    }
}


/// The envelope fields of a frame's JSON line: string identifiers, numeric
/// timestamp and sequence in signed 64-bit range, and a string type.
pub open spec fn envelope_ok(v: JsonV) -> bool {
    &&& has_str_field(v, "id"@)
    &&& has_str_field(v, "session_id"@)
    &&& (obj_get(v, "timestamp_ms"@) matches Some(JsonV::Int(t)) && 0 <= t <= i64::MAX)
    &&& (obj_get(v, "seq"@) matches Some(JsonV::Int(s)) && 0 <= s <= i64::MAX)
    &&& has_str_field(v, "type"@)
}

/// The kind-specific fields required under each discriminator.
pub open spec fn kind_json_ok(v: JsonV, t: Seq<char>) -> bool {
    if t == "session_started"@ {
        has_str_field(v, "input"@)
    } else if t == "output_text_delta"@ {
        has_str_field(v, "delta"@)
    } else if t == "session_ended"@ {
        has_str_field(v, "reason"@)
    } else if t == "provider_event"@ {
        &&& (obj_get(v, "status"@) matches Some(JsonV::Str(st)) && (st == "event"@ || st
            == "done"@ || st == "invalid_json"@))
        &&& match obj_get(v, "event_name"@) {
            Option::None => true,
            Some(JsonV::Str(_)) => true,
            Some(_) => false,
        }
    } else if t == "tool_started"@ {
        &&& has_str_field(v, "tool_id"@)
        &&& has_str_field(v, "name"@)
        &&& obj_get(v, "args"@) is Some
        &&& match obj_get(v, "timeout_ms"@) {
            Option::None => true,
            Some(JsonV::Int(x)) => 0 <= x <= i64::MAX,
            Some(_) => false,
        }
    } else if t == "tool_stdout"@ || t == "tool_stderr"@ {
        has_str_field(v, "tool_id"@) && has_str_field(v, "chunk"@)
    } else if t == "tool_ended"@ {
        &&& has_str_field(v, "tool_id"@)
        &&& (obj_get(v, "exit_code"@) matches Some(JsonV::Int(x)) && i32::MIN <= x <= i32::MAX)
        &&& (obj_get(v, "duration_ms"@) matches Some(JsonV::Int(d)) && 0 <= d <= i64::MAX)
    } else if t == "tool_failed"@ {
        has_str_field(v, "tool_id"@) && has_str_field(v, "error"@)
    } else {
        false
    }
}

/// A JSON value is a well-formed frame line.
pub open spec fn valid_event_json(v: JsonV) -> bool {
    &&& envelope_ok(v)
    &&& (obj_get(v, "type"@) matches Some(JsonV::Str(t)) && kind_json_ok(v, t))
}

/// The kind's fields agree with the JSON value's.
pub open spec fn kind_matches_json(k: EventKind, v: JsonV) -> bool {
    match k {
        EventKind::SessionStarted { input } => obj_get(v, "input"@) == Some(JsonV::Str(input@)),
        EventKind::OutputTextDelta { delta } => obj_get(v, "delta"@) == Some(JsonV::Str(delta@)),
        EventKind::SessionEnded { reason } => obj_get(v, "reason"@) == Some(JsonV::Str(reason@)),
        EventKind::ProviderEvent { status, event_name, data } => {
            &&& obj_get(v, "status"@) == Some(JsonV::Str(status_name(status)))
            &&& match event_name {
                Some(n) => obj_get(v, "event_name"@) == Some(JsonV::Str(n@)),
                Option::None => !(obj_get(v, "event_name"@) matches Some(JsonV::Str(_))),
            }
            &&& match data {
                Some(d) => obj_get(v, "data"@) == Some(d@),
                Option::None => obj_get(v, "data"@) is None,
            }
        },
        EventKind::ToolStarted { tool_id, name, args, timeout_ms } => {
            &&& obj_get(v, "tool_id"@) == Some(JsonV::Str(tool_id@))
            &&& obj_get(v, "name"@) == Some(JsonV::Str(name@))
            &&& obj_get(v, "args"@) == Some(args@)
            &&& match timeout_ms {
                Some(t) => obj_get(v, "timeout_ms"@) == Some(JsonV::Int(t as int)),
                Option::None => obj_get(v, "timeout_ms"@) is None,
            }
        },
        EventKind::ToolStdout { tool_id, chunk } => obj_get(v, "tool_id"@) == Some(
            JsonV::Str(tool_id@),
        ) && obj_get(v, "chunk"@) == Some(JsonV::Str(chunk@)),
        EventKind::ToolStderr { tool_id, chunk } => obj_get(v, "tool_id"@) == Some(
            JsonV::Str(tool_id@),
        ) && obj_get(v, "chunk"@) == Some(JsonV::Str(chunk@)),
        EventKind::ToolEnded { tool_id, exit_code, duration_ms, artifacts } => {
            &&& obj_get(v, "tool_id"@) == Some(JsonV::Str(tool_id@))
            &&& obj_get(v, "exit_code"@) == Some(JsonV::Int(exit_code as int))
            &&& obj_get(v, "duration_ms"@) == Some(JsonV::Int(duration_ms as int))
            &&& match artifacts {
                Some(a) => obj_get(v, "artifacts"@) == Some(a@),
                Option::None => obj_get(v, "artifacts"@) is None,
            }
        },
        EventKind::ToolFailed { tool_id, error } => obj_get(v, "tool_id"@) == Some(
            JsonV::Str(tool_id@),
        ) && obj_get(v, "error"@) == Some(JsonV::Str(error@)),
    }
}

/// The frame's fields agree with the JSON value's.
pub open spec fn event_matches_json(e: Event, v: JsonV) -> bool {
    &&& obj_get(v, "id"@) == Some(JsonV::Str(e.id@))
    &&& obj_get(v, "session_id"@) == Some(JsonV::Str(e.session_id@))
    &&& obj_get(v, "timestamp_ms"@) == Some(JsonV::Int(e.timestamp_ms as int))
    &&& obj_get(v, "seq"@) == Some(JsonV::Int(e.seq as int))
    &&& obj_get(v, "type"@) == Some(JsonV::Str(kind_tag(e.kind)))
    &&& kind_matches_json(e.kind, v)
}

/// Reads a string field, or fails.
fn take_str(v: &Json, key: &str) -> (r: Result<String, String>)
    ensures
        r is Ok <==> has_str_field(v@, key@),
        r matches Ok(s) ==> obj_get(v@, key@) == Some(JsonV::Str(s@)),
{
    match v.get(key) {
        Some(f) => match f.as_str() {
            Some(s) => Ok(clone_string(s)),
            None => Err(String::from_str("field is not a string")),
        },
        None => Err(String::from_str("missing field")),
    }
}

/// Decodes one frame from its JSON value, rejecting anything that is not a
/// well-formed frame line.
pub fn event_from_json(v: &Json) -> (r: Result<Event, String>)
    ensures
        r is Ok <==> valid_event_json(v@),
        r matches Ok(e) ==> event_matches_json(e, v@) && event_wire_safe(e),
{
    let id = match take_str(v, "id") {
        Ok(s) => s,
        Err(e) => {
            return Err(e);
        },
    };
    let session_id = match take_str(v, "session_id") {
        Ok(s) => s,
        Err(e) => {
            return Err(e);
        },
    };
    let timestamp_ms: u64 = match v.get("timestamp_ms") {
        Some(f) => match f {
            Json::Int(t) => {
                if *t >= 0 {
                    *t as u64
                } else {
                    return Err(String::from_str("timestamp_ms out of range"));
                }
            },
            _ => {
                return Err(String::from_str("timestamp_ms is not an integer"));
            },
        },
        None => {
            return Err(String::from_str("missing timestamp_ms"));
        },
    };
    let seq: u64 = match v.get("seq") {
        Some(f) => match f {
            Json::Int(s) => {
                if *s >= 0 {
                    *s as u64
                } else {
                    return Err(String::from_str("seq out of range"));
                }
            },
            _ => {
                return Err(String::from_str("seq is not an integer"));
            },
        },
        None => {
            return Err(String::from_str("missing seq"));
        },
    };
    let tag = match take_str(v, "type") {
        Ok(s) => s,
        Err(e) => {
            return Err(e);
        },
    };

    let kind: EventKind = if string_is(&tag, "session_started") {
        match take_str(v, "input") {
            Ok(input) => EventKind::SessionStarted { input },
            Err(e) => {
                return Err(e);
            },
        }
    } else if string_is(&tag, "output_text_delta") {
        match take_str(v, "delta") {
            Ok(delta) => EventKind::OutputTextDelta { delta },
            Err(e) => {
                return Err(e);
            },
        }
    } else if string_is(&tag, "session_ended") {
        match take_str(v, "reason") {
            Ok(reason) => EventKind::SessionEnded { reason },
            Err(e) => {
                return Err(e);
            },
        }
    } else if string_is(&tag, "provider_event") {
        let status = match take_str(v, "status") {
            Ok(st) => {
                if string_is(&st, "event") {
                    ProviderEventStatus::Event
                } else if string_is(&st, "done") {
                    ProviderEventStatus::Done
                } else if string_is(&st, "invalid_json") {
                    ProviderEventStatus::InvalidJson
                } else {
                    return Err(String::from_str("unknown provider event status"));
                }
            },
            Err(e) => {
                return Err(e);
            },
        };
        let event_name: Option<String> = match v.get("event_name") {
            Some(f) => match f.as_str() {
                Some(s) => Some(clone_string(s)),
                None => {
                    return Err(String::from_str("event_name is not a string"));
                },
            },
            None => None,
        };
        let data: Option<Json> = match v.get("data") {
            Some(d) => Some(d.duplicate()),
            None => None,
        };
        proof {
            reveal_strlit("event");
            reveal_strlit("done");
            reveal_strlit("invalid_json");
        }
        EventKind::ProviderEvent { status, event_name, data }
    } else if string_is(&tag, "tool_started") {
        let tool_id = match take_str(v, "tool_id") {
            Ok(s) => s,
            Err(e) => {
                return Err(e);
            },
        };
        let name = match take_str(v, "name") {
            Ok(s) => s,
            Err(e) => {
                return Err(e);
            },
        };
        let args = match v.get("args") {
            Some(a) => a.duplicate(),
            None => {
                return Err(String::from_str("missing args"));
            },
        };
        let timeout_ms: Option<u64> = match v.get("timeout_ms") {
            Some(f) => match f {
                Json::Int(t) => {
                    if *t >= 0 {
                        Some(*t as u64)
                    } else {
                        return Err(String::from_str("timeout_ms out of range"));
                    }
                },
                _ => {
                    return Err(String::from_str("timeout_ms is not an integer"));
                },
            },
            None => None,
        };
        EventKind::ToolStarted { tool_id, name, args, timeout_ms }
    } else if string_is(&tag, "tool_stdout") {
        let tool_id = match take_str(v, "tool_id") {
            Ok(s) => s,
            Err(e) => {
                return Err(e);
            },
        };
        match take_str(v, "chunk") {
            Ok(chunk) => EventKind::ToolStdout { tool_id, chunk },
            Err(e) => {
                return Err(e);
            },
        }
    } else if string_is(&tag, "tool_stderr") {
        let tool_id = match take_str(v, "tool_id") {
            Ok(s) => s,
            Err(e) => {
                return Err(e);
            },
        };
        match take_str(v, "chunk") {
            Ok(chunk) => EventKind::ToolStderr { tool_id, chunk },
            Err(e) => {
                return Err(e);
            },
        }
    } else if string_is(&tag, "tool_ended") {
        let tool_id = match take_str(v, "tool_id") {
            Ok(s) => s,
            Err(e) => {
                return Err(e);
            },
        };
        let exit_code: i32 = match v.get("exit_code") {
            Some(f) => match f {
                Json::Int(x) => {
                    if i32::MIN as i64 <= *x && *x <= i32::MAX as i64 {
                        *x as i32
                    } else {
                        return Err(String::from_str("exit_code out of range"));
                    }
                },
                _ => {
                    return Err(String::from_str("exit_code is not an integer"));
                },
            },
            None => {
                return Err(String::from_str("missing exit_code"));
            },
        };
        let duration_ms: u64 = match v.get("duration_ms") {
            Some(f) => match f {
                Json::Int(d) => {
                    if *d >= 0 {
                        *d as u64
                    } else {
                        return Err(String::from_str("duration_ms out of range"));
                    }
                },
                _ => {
                    return Err(String::from_str("duration_ms is not an integer"));
                },
            },
            None => {
                return Err(String::from_str("missing duration_ms"));
            },
        };
        let artifacts: Option<Json> = match v.get("artifacts") {
            Some(a) => Some(a.duplicate()),
            None => None,
        };
        EventKind::ToolEnded { tool_id, exit_code, duration_ms, artifacts }
    } else if string_is(&tag, "tool_failed") {
        let tool_id = match take_str(v, "tool_id") {
            Ok(s) => s,
            Err(e) => {
                return Err(e);
            },
        };
        match take_str(v, "error") {
            Ok(error) => EventKind::ToolFailed { tool_id, error },
            Err(e) => {
                return Err(e);
            },
        }
    } else {
        return Err(String::from_str("unknown frame type"));
    };

    Ok(Event { id, session_id, timestamp_ms, seq, kind })
}

/// A log line holds a well-formed frame.
pub open spec fn line_ok(bs: Seq<u8>) -> bool {
    json_of_bytes(bs) matches Some(v) && valid_event_json(v)
}

/// Replays a list of log lines into frames; one malformed line fails the
/// whole call.
pub fn replay_events(lines: &Vec<Vec<u8>>) -> (r: Result<Vec<Event>, String>)
    ensures
        r is Ok <==> (forall|i: int| 0 <= i < lines@.len() ==> line_ok(#[trigger] lines@[i]@)),
        r matches Ok(events) ==> events@.len() == lines@.len() && (forall|i: int|
            0 <= i < events@.len() ==> event_matches_json(
                #[trigger] events@[i],
                json_of_bytes(lines@[i]@)->0,
            ) && event_wire_safe(events@[i])),
{
    let n = lines.len();
    let mut events: Vec<Event> = Vec::new();
    let mut i: usize = 0;
    while i < n
        invariant
            0 <= i <= n,
            n == lines@.len(),
            events@.len() == i,
            forall|k: int| 0 <= k < i ==> line_ok(#[trigger] lines@[k]@),
            forall|k: int|
                0 <= k < i ==> event_matches_json(
                    #[trigger] events@[k],
                    json_of_bytes(lines@[k]@)->0,
                ) && event_wire_safe(events@[k]),
        decreases n - i,
    {
        let parsed = match parse_json(&lines[i]) {
            Some(p) => p,
            None => {
                return Err(String::from_str("invalid JSON in event log"));
            },
        };
        let event = match event_from_json(&parsed) {
            Ok(e) => e,
            Err(e) => {
                return Err(e);
            },
        };
        events.push(event);
        i = i + 1;
    }
    Ok(events)
}


/// Looking a key up finds the entry that carries it, when no earlier entry
/// does.
proof fn lemma_lookup_at(fields: Seq<(Seq<char>, JsonV)>, i: int)
    requires
        0 <= i < fields.len(),
        forall|k: int| 0 <= k < i ==> (#[trigger] fields[k]).0 != fields[i].0,
    ensures
        crate::json::field_lookup(fields, fields[i].0) == Some(fields[i].1),
    decreases i,
{
    if i > 0 {
        assert(fields[0].0 != fields[i].0);
        assert(fields.drop_first()[i - 1] == fields[i]);
        assert forall|k: int| 0 <= k < i - 1 implies (#[trigger] fields.drop_first()[k]).0
            != fields.drop_first()[i - 1].0 by {
            assert(fields.drop_first()[k] == fields[k + 1]);
        }
        lemma_lookup_at(fields.drop_first(), i - 1);
    }
}

/// Looking up a key no entry carries finds nothing.
proof fn lemma_lookup_absent(fields: Seq<(Seq<char>, JsonV)>, key: Seq<char>)
    requires
        forall|k: int| 0 <= k < fields.len() ==> (#[trigger] fields[k]).0 != key,
    ensures
        crate::json::field_lookup(fields, key) is None,
    decreases fields.len(),
{
    if fields.len() > 0 {
        assert forall|k: int| 0 <= k < fields.drop_first().len() implies (
        #[trigger] fields.drop_first()[k]).0 != key by {
            assert(fields.drop_first()[k] == fields[k + 1]);
        }
        lemma_lookup_absent(fields.drop_first(), key);
    }
}

/// A frame's own JSON projection is a well-formed log line, and it decodes
/// back to the frame it came from: appending a frame and replaying it
/// yields the frame again, JSON-equal field for field.
pub proof fn lemma_event_json_roundtrip(e: Event)
    requires
        event_wire_safe(e),
    ensures
        valid_event_json(event_json(e)),
        event_matches_json(e, event_json(e)),
{
    reveal_strlit("id");
    reveal_strlit("session_id");
    reveal_strlit("timestamp_ms");
    reveal_strlit("seq");
    reveal_strlit("type");
    reveal_strlit("input");
    reveal_strlit("delta");
    reveal_strlit("reason");
    reveal_strlit("status");
    reveal_strlit("event_name");
    reveal_strlit("data");
    reveal_strlit("tool_id");
    reveal_strlit("name");
    reveal_strlit("args");
    reveal_strlit("timeout_ms");
    reveal_strlit("chunk");
    reveal_strlit("exit_code");
    reveal_strlit("duration_ms");
    reveal_strlit("artifacts");
    reveal_strlit("error");
    reveal_strlit("session_started");
    reveal_strlit("output_text_delta");
    reveal_strlit("session_ended");
    reveal_strlit("provider_event");
    reveal_strlit("tool_started");
    reveal_strlit("tool_stdout");
    reveal_strlit("tool_stderr");
    reveal_strlit("tool_ended");
    reveal_strlit("tool_failed");
    reveal_strlit("event");
    reveal_strlit("done");
    reveal_strlit("invalid_json");
    assert("id"@.len() == 2);
    assert("session_id"@.len() == 10);
    assert("timestamp_ms"@.len() == 12);
    assert("seq"@.len() == 3);
    assert("type"@.len() == 4);
    assert("input"@.len() == 5);
    assert("delta"@.len() == 5);
    assert("reason"@.len() == 6);
    assert("status"@.len() == 6);
    assert("event_name"@.len() == 10);
    assert("data"@.len() == 4);
    assert("tool_id"@.len() == 7);
    assert("name"@.len() == 4);
    assert("args"@.len() == 4);
    assert("timeout_ms"@.len() == 10);
    assert("chunk"@.len() == 5);
    assert("exit_code"@.len() == 9);
    assert("duration_ms"@.len() == 11);
    assert("artifacts"@.len() == 9);
    assert("error"@.len() == 5);
    assert("type"@[0] != "data"@[0]);
    assert("type"@[0] != "name"@[0]);
    assert("type"@[0] != "args"@[0]);
    assert("name"@[0] != "args"@[0]);
    assert("name"@[0] != "data"@[0]);
    assert("args"@[0] != "data"@[0]);
    assert("delta"@[0] != "input"@[0]);
    assert("delta"@[0] != "chunk"@[0]);
    assert("delta"@[0] != "error"@[0]);
    assert("chunk"@[0] != "error"@[0]);
    assert("input"@[0] != "chunk"@[0]);
    assert("input"@[0] != "error"@[0]);
    assert("session_id"@[0] != "event_name"@[0]);
    assert("session_id"@[0] != "timeout_ms"@[0]);
    assert("event_name"@[0] != "timeout_ms"@[0]);
    assert("exit_code"@[0] != "artifacts"@[0]);
    assert("reason"@[0] != "status"@[0]);
    assert("session_started"@.len() == 15);
    assert("output_text_delta"@.len() == 17);
    assert("session_ended"@.len() == 13);
    assert("provider_event"@.len() == 14);
    assert("tool_started"@.len() == 12);
    assert("tool_stdout"@.len() == 11);
    assert("tool_stderr"@.len() == 11);
    assert("tool_ended"@.len() == 10);
    assert("tool_failed"@.len() == 11);
    assert("tool_stdout"@[8] != "tool_stderr"@[8]);
    assert("tool_stdout"@[5] != "tool_failed"@[5]);
    assert("tool_stderr"@[5] != "tool_failed"@[5]);

    let v = event_json(e);
    let fields = seq![
        ("id"@, JsonV::Str(e.id@)),
        ("session_id"@, JsonV::Str(e.session_id@)),
        ("timestamp_ms"@, JsonV::Int(e.timestamp_ms as int)),
        ("seq"@, JsonV::Int(e.seq as int)),
        ("type"@, JsonV::Str(kind_tag(e.kind))),
    ] + kind_fields(e.kind);
    assert(v == JsonV::Obj(fields));
    assert(kind_fields(e.kind).len() <= 4);

    assert forall|j: int| 5 <= j < fields.len() implies #[trigger] fields[j].0 != "id"@
        && fields[j].0 != "session_id"@ && fields[j].0 != "timestamp_ms"@ && fields[j].0
        != "seq"@ && fields[j].0 != "type"@ by {
        lemma_kind_field_names(e.kind, j - 5);
        assert(fields[j] == kind_fields(e.kind)[j - 5]);
    }

    lemma_lookup_at(fields, 0);
    lemma_lookup_at(fields, 1);
    lemma_lookup_at(fields, 2);
    lemma_lookup_at(fields, 3);
    lemma_lookup_at(fields, 4);
    assert(obj_get(v, "id"@) == Some(JsonV::Str(e.id@)));
    assert(obj_get(v, "session_id"@) == Some(JsonV::Str(e.session_id@)));
    assert(obj_get(v, "timestamp_ms"@) == Some(JsonV::Int(e.timestamp_ms as int)));
    assert(obj_get(v, "seq"@) == Some(JsonV::Int(e.seq as int)));
    assert(obj_get(v, "type"@) == Some(JsonV::Str(kind_tag(e.kind))));

    match e.kind {
        EventKind::SessionStarted { input } => {
            assert(fields[5] == ("input"@, JsonV::Str(input@)));
            lemma_lookup_at(fields, 5);
            assert(kind_json_ok(v, kind_tag(e.kind)));
        },
        EventKind::OutputTextDelta { delta } => {
            assert(fields[5] == ("delta"@, JsonV::Str(delta@)));
            lemma_lookup_at(fields, 5);
            assert(kind_json_ok(v, kind_tag(e.kind)));
        },
        EventKind::SessionEnded { reason } => {
            assert(fields[5] == ("reason"@, JsonV::Str(reason@)));
            lemma_lookup_at(fields, 5);
            assert(kind_json_ok(v, kind_tag(e.kind)));
        },
        EventKind::ProviderEvent { status, event_name, data } => {
            assert(fields[5] == ("status"@, JsonV::Str(status_name(status))));
            lemma_lookup_at(fields, 5);
            match event_name {
                Some(n) => {
                    assert(fields[6] == ("event_name"@, JsonV::Str(n@)));
                    lemma_lookup_at(fields, 6);
                },
                Option::None => {
                    assert forall|k: int| 0 <= k < fields.len() implies (
                    #[trigger] fields[k]).0 != "event_name"@ by {
                        if k >= 5 {
                            lemma_kind_field_names(e.kind, k - 5);
                        }
                    }
                    lemma_lookup_absent(fields, "event_name"@);
                },
            }
            match data {
                Some(d) => {
                    let di = 5 + kind_fields(e.kind).len() - 1;
                    assert(fields[di] == ("data"@, d@));
                    lemma_lookup_at(fields, di);
                },
                Option::None => {
                    assert forall|k: int| 0 <= k < fields.len() implies (
                    #[trigger] fields[k]).0 != "data"@ by {
                        if k >= 5 {
                            lemma_kind_field_names(e.kind, k - 5);
                        }
                    }
                    lemma_lookup_absent(fields, "data"@);
                },
            }
            assert(kind_json_ok(v, kind_tag(e.kind)));
        },
        EventKind::ToolStarted { tool_id, name, args, timeout_ms } => {
            assert(fields[5] == ("tool_id"@, JsonV::Str(tool_id@)));
            assert(fields[6] == ("name"@, JsonV::Str(name@)));
            assert(fields[7] == ("args"@, args@));
            lemma_lookup_at(fields, 5);
            lemma_lookup_at(fields, 6);
            lemma_lookup_at(fields, 7);
            match timeout_ms {
                Some(t) => {
                    assert(fields[8] == ("timeout_ms"@, JsonV::Int(t as int)));
                    lemma_lookup_at(fields, 8);
                },
                Option::None => {
                    assert forall|k: int| 0 <= k < fields.len() implies (
                    #[trigger] fields[k]).0 != "timeout_ms"@ by {
                        if k >= 5 {
                            lemma_kind_field_names(e.kind, k - 5);
                        }
                    }
                    lemma_lookup_absent(fields, "timeout_ms"@);
                },
            }
            assert(kind_json_ok(v, kind_tag(e.kind)));
        },
        EventKind::ToolStdout { tool_id, chunk } => {
            assert(fields[5] == ("tool_id"@, JsonV::Str(tool_id@)));
            assert(fields[6] == ("chunk"@, JsonV::Str(chunk@)));
            lemma_lookup_at(fields, 5);
            lemma_lookup_at(fields, 6);
            assert(kind_json_ok(v, kind_tag(e.kind)));
        },
        EventKind::ToolStderr { tool_id, chunk } => {
            assert(fields[5] == ("tool_id"@, JsonV::Str(tool_id@)));
            assert(fields[6] == ("chunk"@, JsonV::Str(chunk@)));
            lemma_lookup_at(fields, 5);
            lemma_lookup_at(fields, 6);
            assert(kind_json_ok(v, kind_tag(e.kind)));
        },
        EventKind::ToolEnded { tool_id, exit_code, duration_ms, artifacts } => {
            assert(fields[5] == ("tool_id"@, JsonV::Str(tool_id@)));
            assert(fields[6] == ("exit_code"@, JsonV::Int(exit_code as int)));
            assert(fields[7] == ("duration_ms"@, JsonV::Int(duration_ms as int)));
            lemma_lookup_at(fields, 5);
            lemma_lookup_at(fields, 6);
            lemma_lookup_at(fields, 7);
            match artifacts {
                Some(a) => {
                    assert(fields[8] == ("artifacts"@, a@));
                    lemma_lookup_at(fields, 8);
                },
                Option::None => {
                    assert forall|k: int| 0 <= k < fields.len() implies (
                    #[trigger] fields[k]).0 != "artifacts"@ by {
                        if k >= 5 {
                            lemma_kind_field_names(e.kind, k - 5);
                        }
                    }
                    lemma_lookup_absent(fields, "artifacts"@);
                },
            }
            assert(kind_json_ok(v, kind_tag(e.kind)));
        },
        EventKind::ToolFailed { tool_id, error } => {
            assert(fields[5] == ("tool_id"@, JsonV::Str(tool_id@)));
            assert(fields[6] == ("error"@, JsonV::Str(error@)));
            lemma_lookup_at(fields, 5);
            lemma_lookup_at(fields, 6);
            assert(kind_json_ok(v, kind_tag(e.kind)));
        },
    }
    assert(envelope_ok(v));
    assert(valid_event_json(v));
}

/// Every kind-specific field name is its own: none collides with an
/// envelope name, and within one kind the optional names stand where the
/// projection puts them.
proof fn lemma_kind_field_names(k: EventKind, j: int)
    requires
        0 <= j < kind_fields(k).len(),
    ensures
        kind_fields(k)[j].0 != "id"@,
        kind_fields(k)[j].0 != "session_id"@,
        kind_fields(k)[j].0 != "timestamp_ms"@,
        kind_fields(k)[j].0 != "seq"@,
        kind_fields(k)[j].0 != "type"@,
        (k matches EventKind::ProviderEvent { event_name: Option::None, .. } ==> kind_fields(
            k,
        )[j].0 != "event_name"@),
        (k matches EventKind::ProviderEvent { data: Option::None, .. } ==> kind_fields(k)[j].0
            != "data"@),
        (k matches EventKind::ToolStarted { timeout_ms: Option::None, .. } ==> kind_fields(
            k,
        )[j].0 != "timeout_ms"@),
        (k matches EventKind::ToolEnded { artifacts: Option::None, .. } ==> kind_fields(k)[j].0
            != "artifacts"@),
{
    reveal_strlit("id");
    reveal_strlit("session_id");
    reveal_strlit("timestamp_ms");
    reveal_strlit("seq");
    reveal_strlit("type");
    reveal_strlit("input");
    reveal_strlit("delta");
    reveal_strlit("reason");
    reveal_strlit("status");
    reveal_strlit("event_name");
    reveal_strlit("data");
    reveal_strlit("tool_id");
    reveal_strlit("name");
    reveal_strlit("args");
    reveal_strlit("timeout_ms");
    reveal_strlit("chunk");
    reveal_strlit("exit_code");
    reveal_strlit("duration_ms");
    reveal_strlit("artifacts");
    reveal_strlit("error");
    assert("id"@.len() == 2);
    assert("session_id"@.len() == 10);
    assert("timestamp_ms"@.len() == 12);
    assert("seq"@.len() == 3);
    assert("type"@.len() == 4);
    assert("input"@.len() == 5);
    assert("delta"@.len() == 5);
    assert("reason"@.len() == 6);
    assert("status"@.len() == 6);
    assert("event_name"@.len() == 10);
    assert("data"@.len() == 4);
    assert("tool_id"@.len() == 7);
    assert("name"@.len() == 4);
    assert("args"@.len() == 4);
    assert("timeout_ms"@.len() == 10);
    assert("chunk"@.len() == 5);
    assert("exit_code"@.len() == 9);
    assert("duration_ms"@.len() == 11);
    assert("artifacts"@.len() == 9);
    assert("error"@.len() == 5);
    assert("name"@[0] != "type"@[0]);
    assert("args"@[0] != "type"@[0]);
    assert("data"@[0] != "type"@[0]);
    assert("session_id"@[0] != "event_name"@[0]);
    assert("session_id"@[0] != "timeout_ms"@[0]);
    assert("exit_code"@[0] != "artifacts"@[0]);
    match k {
        EventKind::SessionStarted { input } => {
            assert(kind_fields(k).len() == 1 && j == 0);
            assert(kind_fields(k)[0].0 == "input"@);
        },
        EventKind::OutputTextDelta { delta } => {
            assert(kind_fields(k).len() == 1 && j == 0);
            assert(kind_fields(k)[0].0 == "delta"@);
        },
        EventKind::SessionEnded { reason } => {
            assert(kind_fields(k).len() == 1 && j == 0);
            assert(kind_fields(k)[0].0 == "reason"@);
        },
        EventKind::ProviderEvent { status, event_name, data } => {
            let head = seq![("status"@, JsonV::Str(status_name(status)))];
            let mid: Seq<(Seq<char>, JsonV)> = match event_name {
                Some(n) => seq![("event_name"@, JsonV::Str(n@))],
                Option::None => Seq::empty(),
            };
            let tail: Seq<(Seq<char>, JsonV)> = match data {
                Some(d) => seq![("data"@, d@)],
                Option::None => Seq::empty(),
            };
            assert(kind_fields(k) == head + mid + tail);
            assert(kind_fields(k)[j].0 == "status"@ || kind_fields(k)[j].0 == "event_name"@
                || kind_fields(k)[j].0 == "data"@) by {
                if j == 0 {
                    assert(kind_fields(k)[0] == head[0]);
                } else if j < 1 + mid.len() {
                    assert(kind_fields(k)[j] == mid[j - 1]);
                } else {
                    assert(kind_fields(k)[j] == tail[j - 1 - mid.len()]);
                }
            }
            if event_name is None {
                assert(kind_fields(k) =~= head + tail);
                assert forall|m: int| 0 <= m < kind_fields(k).len() implies (
                #[trigger] kind_fields(k)[m]).0 != "event_name"@ by {
                    if m == 0 {
                        assert(kind_fields(k)[0] == head[0]);
                    } else {
                        assert(kind_fields(k)[m] == tail[m - 1]);
                    }
                }
            }
            if data is None {
                assert(kind_fields(k) =~= head + mid);
                assert forall|m: int| 0 <= m < kind_fields(k).len() implies (
                #[trigger] kind_fields(k)[m]).0 != "data"@ by {
                    if m == 0 {
                        assert(kind_fields(k)[0] == head[0]);
                    } else {
                        assert(kind_fields(k)[m] == mid[m - 1]);
                    }
                }
            }
        },
        EventKind::ToolStarted { tool_id, name, args, timeout_ms } => {
            let head = seq![
                ("tool_id"@, JsonV::Str(tool_id@)),
                ("name"@, JsonV::Str(name@)),
                ("args"@, args@),
            ];
            let tail: Seq<(Seq<char>, JsonV)> = match timeout_ms {
                Some(t) => seq![("timeout_ms"@, JsonV::Int(t as int))],
                Option::None => Seq::empty(),
            };
            assert(kind_fields(k) == head + tail);
            assert(kind_fields(k)[j].0 == "tool_id"@ || kind_fields(k)[j].0 == "name"@
                || kind_fields(k)[j].0 == "args"@ || kind_fields(k)[j].0 == "timeout_ms"@) by {
                if j < 3 {
                    assert(kind_fields(k)[j] == head[j]);
                } else {
                    assert(kind_fields(k)[j] == tail[j - 3]);
                }
            }
            if timeout_ms is None {
                assert(kind_fields(k) =~= head);
                assert forall|m: int| 0 <= m < kind_fields(k).len() implies (
                #[trigger] kind_fields(k)[m]).0 != "timeout_ms"@ by {
                    assert(kind_fields(k)[m] == head[m]);
                }
            }
        },
        EventKind::ToolStdout { tool_id, chunk } => {
            assert(kind_fields(k)[j].0 == "tool_id"@ || kind_fields(k)[j].0 == "chunk"@);
        },
        EventKind::ToolStderr { tool_id, chunk } => {
            assert(kind_fields(k)[j].0 == "tool_id"@ || kind_fields(k)[j].0 == "chunk"@);
        },
        EventKind::ToolEnded { tool_id, exit_code, duration_ms, artifacts } => {
            let head = seq![
                ("tool_id"@, JsonV::Str(tool_id@)),
                ("exit_code"@, JsonV::Int(exit_code as int)),
                ("duration_ms"@, JsonV::Int(duration_ms as int)),
            ];
            let tail: Seq<(Seq<char>, JsonV)> = match artifacts {
                Some(a) => seq![("artifacts"@, a@)],
                Option::None => Seq::empty(),
            };
            assert(kind_fields(k) == head + tail);
            assert(kind_fields(k)[j].0 == "tool_id"@ || kind_fields(k)[j].0 == "exit_code"@
                || kind_fields(k)[j].0 == "duration_ms"@ || kind_fields(k)[j].0
                == "artifacts"@) by {
                if j < 3 {
                    assert(kind_fields(k)[j] == head[j]);
                } else {
                    assert(kind_fields(k)[j] == tail[j - 3]);
                }
            }
            if artifacts is None {
                assert(kind_fields(k) =~= head);
                assert forall|m: int| 0 <= m < kind_fields(k).len() implies (
                #[trigger] kind_fields(k)[m]).0 != "artifacts"@ by {
                    assert(kind_fields(k)[m] == head[m]);
                }
            }
        },
        EventKind::ToolFailed { tool_id, error } => {
            assert(kind_fields(k)[j].0 == "tool_id"@ || kind_fields(k)[j].0 == "error"@);
        },
    }
}


/// Every number in a wire-safe frame's projection fits the wire format.
proof fn lemma_event_json_in_range(e: Event)
    requires
        event_wire_safe(e),
    ensures
        crate::codec::json_in_range(event_json(e)),
{
    let v = event_json(e);
    let fields = seq![
        ("id"@, JsonV::Str(e.id@)),
        ("session_id"@, JsonV::Str(e.session_id@)),
        ("timestamp_ms"@, JsonV::Int(e.timestamp_ms as int)),
        ("seq"@, JsonV::Int(e.seq as int)),
        ("type"@, JsonV::Str(kind_tag(e.kind))),
    ] + kind_fields(e.kind);
    assert(v == JsonV::Obj(fields));
    assert forall|k: int| 0 <= k < fields.len() implies crate::codec::json_in_range(
        (#[trigger] fields[k]).1,
    ) by {
        if k >= 5 {
            assert(fields[k] == kind_fields(e.kind)[k - 5]);
            lemma_kind_fields_in_range(e.kind, k - 5);
        }
    }
}

/// Every number in the kind-specific fields of a wire-safe frame fits the
/// wire format.
proof fn lemma_kind_fields_in_range(k: EventKind, j: int)
    requires
        0 <= j < kind_fields(k).len(),
        (k matches EventKind::ToolStarted { timeout_ms: Some(t), .. } ==> t <= i64::MAX as u64),
        (k matches EventKind::ToolEnded { duration_ms, .. } ==> duration_ms <= i64::MAX as u64),
    ensures
        crate::codec::json_in_range(kind_fields(k)[j].1),
{
    match k {
        EventKind::ProviderEvent { status, event_name, data } => {
            let head = seq![("status"@, JsonV::Str(status_name(status)))];
            let mid: Seq<(Seq<char>, JsonV)> = match event_name {
                Some(n) => seq![("event_name"@, JsonV::Str(n@))],
                Option::None => Seq::empty(),
            };
            let tail: Seq<(Seq<char>, JsonV)> = match data {
                Some(d) => seq![("data"@, d@)],
                Option::None => Seq::empty(),
            };
            assert(kind_fields(k) == head + mid + tail);
            if j == 0 {
                assert(kind_fields(k)[0] == head[0]);
            } else if j < 1 + mid.len() {
                assert(kind_fields(k)[j] == mid[j - 1]);
            } else {
                assert(kind_fields(k)[j] == tail[j - 1 - mid.len()]);
                match data {
                    Some(d) => {
                        crate::codec::lemma_view_in_range(&d);
                    },
                    Option::None => {},
                }
            }
        },
        EventKind::ToolStarted { tool_id, name, args, timeout_ms } => {
            let head = seq![
                ("tool_id"@, JsonV::Str(tool_id@)),
                ("name"@, JsonV::Str(name@)),
                ("args"@, args@),
            ];
            let tail: Seq<(Seq<char>, JsonV)> = match timeout_ms {
                Some(t) => seq![("timeout_ms"@, JsonV::Int(t as int))],
                Option::None => Seq::empty(),
            };
            assert(kind_fields(k) == head + tail);
            if j < 3 {
                assert(kind_fields(k)[j] == head[j]);
                if j == 2 {
                    crate::codec::lemma_view_in_range(&args);
                }
            } else {
                assert(kind_fields(k)[j] == tail[j - 3]);
            }
        },
        EventKind::ToolEnded { tool_id, exit_code, duration_ms, artifacts } => {
            let head = seq![
                ("tool_id"@, JsonV::Str(tool_id@)),
                ("exit_code"@, JsonV::Int(exit_code as int)),
                ("duration_ms"@, JsonV::Int(duration_ms as int)),
            ];
            let tail: Seq<(Seq<char>, JsonV)> = match artifacts {
                Some(a) => seq![("artifacts"@, a@)],
                Option::None => Seq::empty(),
            };
            assert(kind_fields(k) == head + tail);
            if j < 3 {
                assert(kind_fields(k)[j] == head[j]);
            } else {
                assert(kind_fields(k)[j] == tail[j - 3]);
                match artifacts {
                    Some(a) => {
                        crate::codec::lemma_view_in_range(&a);
                    },
                    Option::None => {},
                }
            }
        },
        _ => {},
    }
}

/// Appending a frame and replaying its line yields the frame again: the
/// line a wire-safe frame prints parses back to the frame's own JSON
/// projection, which is a well-formed frame line matching the frame field
/// for field.
pub proof fn lemma_event_line_replays(e: Event)
    requires
        event_wire_safe(e),
    ensures
        json_of_bytes(print_json(event_json(e))) == Some(event_json(e)),
        valid_event_json(event_json(e)),
        event_matches_json(e, event_json(e)),
{
    lemma_event_json_in_range(e);
    crate::codec::lemma_json_roundtrip(event_json(e));
    lemma_event_json_roundtrip(e);
}

} // verus!
