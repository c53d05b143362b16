//! Stream transformers: collect the text, reasoning and tool-call argument
//! deltas carried by provider events in a frame list.

use vstd::prelude::*;

use crate::frames::{Event, EventKind, ProviderEventStatus};
use crate::json::{clone_string, obj_get, string_is, Json, JsonV};

verus! {

broadcast use vstd::std_specs::vec::group_vec_axioms, vstd::seq::group_seq_axioms;

/// The wire type of a provider event frame: the payload's `type` when it is
/// a string, the event name otherwise; nothing for other frames or statuses.
pub open spec fn provider_type(k: EventKind) -> Option<Seq<char>> {
    match k {
        EventKind::ProviderEvent { status, event_name, data } => if status
            != ProviderEventStatus::Event {
            Option::None
        } else {
            match data {
                Some(d) => match obj_get(d@, "type"@) {
                    Some(JsonV::Str(t)) => Some(t),
                    _ => match event_name {
                        Some(n) => Some(n@),
                        Option::None => Option::None,
                    },
                },
                Option::None => match event_name {
                    Some(n) => Some(n@),
                    Option::None => Option::None,
                },
            }
        },
        _ => Option::None,
    }
}

/// The delta a provider event frame carries under the expected type.
pub open spec fn provider_delta(k: EventKind, expected: Seq<char>) -> Option<Seq<char>> {
    if provider_type(k) == Some(expected) {
        match k {
            EventKind::ProviderEvent { data: Some(d), .. } => match obj_get(d@, "delta"@) {
                Some(JsonV::Str(x)) => Some(x),
                _ => Option::None,
            },
            _ => Option::None,
        }
    } else {
        Option::None
    }
}

/// The deltas carried by the frames, in order, for one expected type.
pub open spec fn deltas_of(events: Seq<Event>, expected: Seq<char>) -> Seq<Seq<char>>
    decreases events.len(),
{
    if events.len() == 0 {
        Seq::empty()
    } else {
        let init = deltas_of(events.drop_last(), expected);
        match provider_delta(events.last().kind, expected) {
            Some(x) => init.push(x),
            Option::None => init,
        }
    }
}

/// Collects the deltas of provider events whose type is `expected`.
fn extract_deltas(events: &Vec<Event>, expected: &str) -> (out: Vec<String>)
    ensures
        out@.len() == deltas_of(events@, expected@).len(),
        forall|k: int|
            0 <= k < out@.len() ==> #[trigger] out@[k]@ == deltas_of(events@, expected@)[k],
{
    let n = events.len();
    let mut out: Vec<String> = Vec::new();
    let mut i: usize = 0;
    proof {
        assert(events@.take(0) =~= Seq::<Event>::empty());
    }
    while i < n
        invariant
            0 <= i <= n,
            n == events@.len(),
            out@.len() == deltas_of(events@.take(i as int), expected@).len(),
            forall|k: int|
                0 <= k < out@.len() ==> #[trigger] out@[k]@ == deltas_of(
                    events@.take(i as int),
                    expected@,
                )[k],
        decreases n - i,
    {
        proof {
            assert(events@.take(i + 1).drop_last() =~= events@.take(i as int));
            assert(events@.take(i + 1).last() == events@[i as int]);
        }
        let e = &events[i];
        match &e.kind {
            EventKind::ProviderEvent { status, event_name, data } => {
                if *status == ProviderEventStatus::Event {
                    let matches_type: bool = {
                        let from_data: Option<&String> = match data {
                            Some(d) => match d.get("type") {
                                Some(tv) => tv.as_str(),
                                None => None,
                            },
                            None => None,
                        };
                        match from_data {
                            Some(ts) => string_is(ts, expected),
                            None => match event_name {
                                Some(nm) => string_is(nm, expected),
                                None => false,
                            },
                        }
                    };
                    if matches_type {
                        match data {
                            Some(d) => {
                                match d.get("delta") {
                                    Some(dv) => match dv.as_str() {
                                        Some(ds) => {
                                            out.push(clone_string(ds));
                                        },
                                        None => {},
                                    },
                                    None => {},
                                }
                            },
                            None => {},
                        }
                    }
                }
            },
            _ => {},
        }
        i = i + 1;
    }
    proof {
        assert(events@.take(n as int) =~= events@);
    }
    out
}

/// The text deltas of the frames.
pub fn extract_text_deltas(events: &Vec<Event>) -> (out: Vec<String>)
    ensures
        out@.len() == deltas_of(events@, "response.output_text.delta"@).len(),
        forall|k: int|
            0 <= k < out@.len() ==> #[trigger] out@[k]@ == deltas_of(
                events@,
                "response.output_text.delta"@,
            )[k],
{
    extract_deltas(events, "response.output_text.delta")
}

/// The reasoning deltas of the frames.
pub fn extract_reasoning_deltas(events: &Vec<Event>) -> (out: Vec<String>)
    ensures
        out@.len() == deltas_of(events@, "response.reasoning.delta"@).len(),
        forall|k: int|
            0 <= k < out@.len() ==> #[trigger] out@[k]@ == deltas_of(
                events@,
                "response.reasoning.delta"@,
            )[k],
{
    extract_deltas(events, "response.reasoning.delta")
}

/// The tool-call argument deltas of the frames.
pub fn extract_tool_call_argument_deltas(events: &Vec<Event>) -> (out: Vec<String>)
    ensures
        out@.len() == deltas_of(events@, "response.function_call_arguments.delta"@).len(),
        forall|k: int|
            0 <= k < out@.len() ==> #[trigger] out@[k]@ == deltas_of(
                events@,
                "response.function_call_arguments.delta"@,
            )[k],
{
    extract_deltas(events, "response.function_call_arguments.delta")
}

} // verus!
