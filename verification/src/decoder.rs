//! The provider stream decoder: an incremental parser for the
//! text/event-stream wire format.  Bytes are buffered until a full line
//! arrives; `event:` lines set the current event name, `data:` lines extend
//! the current payload, comment lines are dropped, and a blank line emits
//! the buffered payload as one parsed event.  Feeding the same bytes in any
//! chunking yields the same events.

use vstd::prelude::*;

use crate::catalogue::{
    response_resource_valid, stream_event_valid, validate_response_resource, validate_stream_event,
};
use crate::codec::{json_of_bytes, parse_json};
use crate::json::{obj_get, Json, JsonV};
use crate::text::bytes_to_string_lossy;
use vstd::string::StringSliceAdditionalSpecFns;
use vstd::utf8::{decode_utf8, valid_utf8};

verus! {

broadcast use vstd::std_specs::vec::group_vec_axioms, vstd::seq::group_seq_axioms;

/// What one decoded payload is: the terminal sentinel, a payload that did
/// not parse, or a parsed event.
#[derive(Clone, Copy, PartialEq, Eq, Structural, Debug)]
pub enum ParsedEventKind {
    Done,
    InvalidJson,
    Event,
}

/// One decoded payload, with the event name in force when it was emitted,
/// the raw payload text, the parsed value for `Event` payloads, and the
/// validation errors collected on the way.
#[derive(Clone, Debug)]
pub struct ParsedEvent {
    pub kind: ParsedEventKind,
    pub event: Option<String>,
    pub raw: String,
    pub data: Option<Json>,
    pub errors: Vec<String>,
    pub response_errors: Vec<String>,
}

/// The decoder's model: the unfinished line, the event name in force, and
/// the payload joined so far (absent until a first `data:` line arrives).
pub struct SseModel {
    pub buf: Seq<u8>,
    pub name: Option<Seq<u8>>,
    pub data: Option<Seq<u8>>,
}

/// What one emission carries: the event name in force and the raw payload
/// bytes.
pub struct SseEmit {
    pub name: Option<Seq<u8>>,
    pub raw: Seq<u8>,
}

/// A byte that `event:` values are trimmed of.
pub open spec fn is_line_ws(b: u8) -> bool {
    b == 0x20 || b == 0x09
}

/// The sequence without its leading spaces and tabs.
pub open spec fn trim_start_ws(s: Seq<u8>) -> Seq<u8>
    decreases s.len(),
{
    if s.len() > 0 && is_line_ws(s[0]) {
        trim_start_ws(s.drop_first())
    } else {
        s
    }
}

/// The sequence without its trailing spaces and tabs.
pub open spec fn trim_end_ws(s: Seq<u8>) -> Seq<u8>
    decreases s.len(),
{
    if s.len() > 0 && is_line_ws(s.last()) {
        trim_end_ws(s.drop_last())
    } else {
        s
    }
}

/// The sequence trimmed of spaces and tabs on both ends.
pub open spec fn trim_ws(s: Seq<u8>) -> Seq<u8> {
    trim_end_ws(trim_start_ws(s))
}

/// The line without one trailing carriage return.
pub open spec fn strip_cr(line: Seq<u8>) -> Seq<u8> {
    if line.len() > 0 && line.last() == 0x0d {
        line.drop_last()
    } else {
        line
    }
}

/// The bytes of the `event:` prefix.
pub open spec fn event_prefix() -> Seq<u8> {
    seq![0x65u8, 0x76, 0x65, 0x6e, 0x74, 0x3a]
}

/// The bytes of the `data:` prefix.
pub open spec fn data_prefix() -> Seq<u8> {
    seq![0x64u8, 0x61, 0x74, 0x61, 0x3a]
}

/// How one completed line changes the name and payload and what it emits.
pub open spec fn sse_line(
    name: Option<Seq<u8>>,
    data: Option<Seq<u8>>,
    line: Seq<u8>,
) -> (Option<Seq<u8>>, Option<Seq<u8>>, Option<SseEmit>) {
    let l = strip_cr(line);
    if l.len() >= 6 && l.take(6) == event_prefix() {
        let value = trim_ws(l.skip(6));
        let new_name = if value.len() == 0 {
            Option::None
        } else {
            Some(value)
        };
        (new_name, data, Option::None)
    } else if l.len() >= 5 && l.take(5) == data_prefix() {
        let rest = l.skip(5);
        let value = if rest.len() > 0 && rest[0] == 0x20 {
            rest.drop_first()
        } else {
            rest
        };
        let new_data = match data {
            Option::None => Some(value),
            Some(d) => Some(d + seq![0x0au8] + value),
        };
        (name, new_data, Option::None)
    } else if l.len() == 0 {
        match data {
            Some(d) => (Option::None, Option::None, Some(SseEmit { name, raw: d })),
            Option::None => (name, data, Option::None),
        }
    } else {
        (name, data, Option::None)
    }
}

/// Feeds bytes to the decoder model: each newline completes the buffered
/// line and runs it through [`sse_line`].
pub open spec fn sse_feed(st: SseModel, bytes: Seq<u8>) -> (SseModel, Seq<SseEmit>)
    decreases bytes.len(),
{
    if bytes.len() == 0 {
        (st, Seq::empty())
    } else {
        let b = bytes[0];
        if b == 0x0a {
            let (name2, data2, emit) = sse_line(st.name, st.data, st.buf);
            let st2 = SseModel { buf: Seq::empty(), name: name2, data: data2 };
            let (st3, ems) = sse_feed(st2, bytes.drop_first());
            match emit {
                Some(e) => (st3, seq![e] + ems),
                Option::None => (st3, ems),
            }
        } else {
            sse_feed(
                SseModel { buf: st.buf.push(b), name: st.name, data: st.data },
                bytes.drop_first(),
            )
        }
    }
}

/// Feeding a split input equals feeding it whole: the decoder's output does
/// not depend on chunk boundaries.
pub proof fn lemma_sse_feed_split(st: SseModel, a: Seq<u8>, b: Seq<u8>)
    ensures
        ({
            let (st1, ems1) = sse_feed(st, a);
            let (st2, ems2) = sse_feed(st1, b);
            sse_feed(st, a + b) == (st2, ems1 + ems2)
        }),
    decreases a.len(),
{
    let (st1, ems1) = sse_feed(st, a);
    let (st2, ems2) = sse_feed(st1, b);
    if a.len() == 0 {
        assert(a + b =~= b);
        assert(ems1 =~= Seq::<SseEmit>::empty());
        assert(Seq::<SseEmit>::empty() + ems2 =~= ems2);
    } else {
        assert((a + b)[0] == a[0]);
        assert((a + b).drop_first() =~= a.drop_first() + b);
        let hb = a[0];
        if hb == 0x0a {
            let (name2, data2, emit) = sse_line(st.name, st.data, st.buf);
            let stx = SseModel { buf: Seq::empty(), name: name2, data: data2 };
            lemma_sse_feed_split(stx, a.drop_first(), b);
            let (sty, emsy) = sse_feed(stx, a.drop_first());
            match emit {
                Some(e) => {
                    assert(seq![e] + (emsy + ems2) =~= (seq![e] + emsy) + ems2);
                },
                Option::None => {},
            }
        } else {
            let stx = SseModel { buf: st.buf.push(hb), name: st.name, data: st.data };
            lemma_sse_feed_split(stx, a.drop_first(), b);
        }
    }
}

/// What kind a payload is classified as.
pub open spec fn classify(raw: Seq<u8>) -> ParsedEventKind {
    if raw == seq![0x5bu8, 0x44, 0x4f, 0x4e, 0x45, 0x5d] {
        ParsedEventKind::Done
    } else if json_of_bytes(raw) is Some {
        ParsedEventKind::Event
    } else {
        ParsedEventKind::InvalidJson
    }
}

/// The payload's `type` differs from the event name on the wire.
pub open spec fn name_mismatch(name: Option<Seq<u8>>, d: JsonV) -> bool {
    match name {
        Some(nb) => match obj_get(d, "type"@) {
            Some(JsonV::Str(t)) => decode_utf8(nb) != t,
            _ => false,
        },
        Option::None => false,
    }
}

/// The constructed event reflects one emission: the kind classifies the
/// payload, the parsed value is the payload's, the error list is empty
/// exactly when the payload passes the stream-event checks and matches the
/// event name, and the response errors are empty exactly when the embedded
/// response, if any, is a valid resource.
pub open spec fn parsed_matches(pe: ParsedEvent, name: Option<Seq<u8>>, raw: Seq<u8>) -> bool {
    &&& pe.kind == classify(raw)
    &&& (match name {
        Some(nb) => pe.event matches Some(s) && (valid_utf8(nb) ==> s@ == decode_utf8(nb)),
        Option::None => pe.event is None,
    })
    &&& (valid_utf8(raw) ==> pe.raw@ == decode_utf8(raw))
    &&& match classify(raw) {
        ParsedEventKind::Done => {
            &&& pe.data is None
            &&& pe.errors@.len() == 0
            &&& pe.response_errors@.len() == 0
        },
        ParsedEventKind::InvalidJson => {
            &&& pe.data is None
            &&& pe.errors@.len() > 0
            &&& pe.response_errors@.len() == 0
        },
        ParsedEventKind::Event => {
            &&& pe.data matches Some(d) && json_of_bytes(raw) == Some(d@)
            &&& ((name matches Some(nb) ==> valid_utf8(nb)) ==> (pe.errors@.len() == 0 <==> (
            stream_event_valid(json_of_bytes(raw)->0) && !name_mismatch(
                name,
                json_of_bytes(raw)->0,
            ))))
            &&& (match name {
                Some(nb) => (valid_utf8(nb) && name_mismatch(name, json_of_bytes(raw)->0))
                    ==> (match obj_get(json_of_bytes(raw)->0, "type"@) {
                    Some(JsonV::Str(t)) => crate::json::has_msg(
                        pe.errors@,
                        "event name '"@ + decode_utf8(nb) + "' does not match type '"@ + t
                            + "'"@,
                    ),
                    _ => true,
                }),
                Option::None => true,
            })
            &&& (pe.response_errors@.len() == 0 <==> match obj_get(
                json_of_bytes(raw)->0,
                "response"@,
            ) {
                Some(resp) => response_resource_valid(resp),
                Option::None => true,
            })
        },
    }
}

/// Every emission of a run carries its own event name and payload; this
/// relates a whole output list to the model's emissions.
pub open spec fn all_parsed_match(out: Seq<ParsedEvent>, ems: Seq<SseEmit>) -> bool {
    &&& out.len() == ems.len()
    &&& forall|k: int|
        0 <= k < out.len() ==> parsed_matches(#[trigger] out[k], ems[k].name, ems[k].raw)
}

/// The incremental decoder.
#[derive(Debug)]
pub struct SseDecoder {
    pub buffer: Vec<u8>,
    pub event_name: Option<Vec<u8>>,
    pub data: Option<Vec<u8>>,
}

impl SseDecoder {
    /// The decoder's model.
    pub open spec fn model(&self) -> SseModel {
        SseModel {
            buf: self.buffer@,
            name: match self.event_name {
                Some(nb) => Some(nb@),
                Option::None => Option::None,
            },
            data: match self.data {
                Some(d) => Some(d@),
                Option::None => Option::None,
            },
        }
    }

    /// A fresh decoder with nothing buffered.
    pub fn new() -> (r: SseDecoder)
        ensures
            r.model() == (SseModel {
                buf: Seq::<u8>::empty(),
                name: Option::<Seq<u8>>::None,
                data: Option::<Seq<u8>>::None,
            }),
    {
        SseDecoder { buffer: Vec::new(), event_name: None, data: None }
    }

    /// Feeds one chunk and returns the events completed by it.
    pub fn push(&mut self, chunk: &str) -> (out: Vec<ParsedEvent>)
        ensures
            ({
                let (st2, ems) = sse_feed(old(self).model(), chunk.spec_bytes());
                final (self).model() == st2 && all_parsed_match(out@, ems)
            }),
    {
        let bytes = chunk.as_bytes();
        let n = bytes.len();
        let ghost cb = bytes@;
        let ghost whole = sse_feed(old(self).model(), cb);
        let mut out: Vec<ParsedEvent> = Vec::new();
        let mut k: usize = 0;
        proof {
            assert(cb.skip(0) =~= cb);
        }
        while k < n
            invariant
                0 <= k <= n,
                n == cb.len(),
                bytes@ == cb,
                whole == sse_feed(old(self).model(), cb),
                sse_feed(self.model(), cb.skip(k as int)).0 == whole.0,
                out@.len() <= whole.1.len(),
                whole.1 =~= whole.1.take(out@.len() as int) + sse_feed(
                    self.model(),
                    cb.skip(k as int),
                ).1,
                all_parsed_match(out@, whole.1.take(out@.len() as int)),
            decreases n - k,
        {
            let ghost pre = self.model();
            let ghost rest = cb.skip(k as int);
            proof {
                assert(rest[0] == cb[k as int]);
                assert(rest.drop_first() =~= cb.skip(k + 1));
            }
            let b = bytes[k];
            if b == 0x0a {
                let emitted = self.finish_line();
                proof {
                    let (name2, data2, emit) = sse_line(pre.name, pre.data, pre.buf);
                    assert(self.model() == (SseModel {
                        buf: Seq::<u8>::empty(),
                        name: name2,
                        data: data2,
                    }));
                }
                match emitted {
                    Some(pe) => {
                        let ghost done = out@.len() as int;
                        out.push(pe);
                        proof {
                            let (name2, data2, emit) = sse_line(pre.name, pre.data, pre.buf);
                            let e = emit->0;
                            let tail_run = sse_feed(self.model(), cb.skip(k + 1));
                            assert(sse_feed(pre, rest).1 =~= seq![e] + tail_run.1);
                            assert(whole.1.take(done)
                                + (seq![e] + tail_run.1) =~= (whole.1.take(done) + seq![e])
                                + tail_run.1);
                            assert(whole.1 =~= (whole.1.take(done) + seq![e]) + tail_run.1);
                            assert(whole.1.take(done + 1) =~= whole.1.take(done) + seq![e]) by {
                                assert(whole.1[done] == ((whole.1.take(done) + seq![e])
                                    + tail_run.1)[done]);
                            }
                            assert(all_parsed_match(out@, whole.1.take(out@.len() as int))) by {
                                assert(whole.1.take(done + 1)[done] == e);
                                assert(out@[done] == pe);
                                assert(parsed_matches(pe, e.name, e.raw));
                            }
                        }
                    },
                    None => {
                        proof {
                            let tail_run = sse_feed(self.model(), cb.skip(k + 1));
                            assert(sse_feed(pre, rest).1 =~= tail_run.1);
                        }
                    },
                }
            } else {
                self.buffer.push(b);
                proof {
                    assert(self.model() == (SseModel {
                        buf: pre.buf.push(cb[k as int]),
                        name: pre.name,
                        data: pre.data,
                    }));
                }
            }
            k = k + 1;
        }
        proof {
            assert(cb.skip(n as int) =~= Seq::<u8>::empty());
            assert(sse_feed(self.model(), cb.skip(n as int)) == (
                self.model(),
                Seq::<SseEmit>::empty(),
            ));
            assert(whole.1.take(out@.len() as int) + Seq::<SseEmit>::empty() =~= whole.1.take(
                out@.len() as int,
            ));
            assert(whole.1.take(out@.len() as int) =~= whole.1);
        }
        out
    }

    /// Flushes the unfinished line, as if the stream had ended with a
    /// newline.  With nothing buffered, nothing happens.
    pub fn finish(&mut self) -> (out: Vec<ParsedEvent>)
        ensures
            old(self).buffer@.len() == 0 ==> *final (self) == *old(self) && out@.len() == 0,
            old(self).buffer@.len() > 0 ==> ({
                let (st2, ems) = sse_feed(old(self).model(), seq![0x0au8]);
                final (self).model() == st2 && all_parsed_match(out@, ems)
            }),
    {
        if self.buffer.len() == 0 {
            return Vec::new();
        }
        let out = self.push("\n");
        proof {
            reveal_strlit("\n");
            assert("\n"@.len() == 1 && "\n"@[0] == '\n');
            assert(vstd::string::is_ascii("\n"));
            vstd::string::is_ascii_spec_bytes("\n");
            assert("\n".spec_bytes() =~= seq![0x0au8]);
        }
        out
    }

    /// Completes the buffered line: updates the event name and payload and
    /// builds the parsed event when the line is blank and a payload is
    /// pending.
    fn finish_line(&mut self) -> (r: Option<ParsedEvent>)
        ensures
            ({
                let (name2, data2, emit) = sse_line(
                    old(self).model().name,
                    old(self).model().data,
                    old(self).model().buf,
                );
                &&& final (self).model() == (SseModel {
                    buf: Seq::<u8>::empty(),
                    name: name2,
                    data: data2,
                })
                &&& match emit {
                    Some(e) => r matches Some(pe) && parsed_matches(pe, e.name, e.raw),
                    Option::None => r is None,
                }
            }),
    {
        let mut line: Vec<u8> = Vec::new();
        core::mem::swap(&mut line, &mut self.buffer);
        if line.len() > 0 && line[line.len() - 1] == 0x0d {
            line.pop();
            proof {
                assert(line@ =~= strip_cr(old(self).model().buf));
            }
        }
        proof {
            assert(line@ == strip_cr(old(self).model().buf));
        }
        let l = line;
        let n = l.len();
        if n >= 6 && l[0] == 0x65 && l[1] == 0x76 && l[2] == 0x65 && l[3] == 0x6e && l[4] == 0x74
            && l[5] == 0x3a {
            proof {
                assert(l@.take(6) =~= event_prefix());
            }
            let value = trim_line_ws(&l, 6);
            if value.len() == 0 {
                self.event_name = None;
            } else {
                self.event_name = Some(value);
            }
            None
        } else if n >= 5 && l[0] == 0x64 && l[1] == 0x61 && l[2] == 0x74 && l[3] == 0x61 && l[4]
            == 0x3a {
            proof {
                assert(l@.take(5) =~= data_prefix());
                if l@.len() >= 6 && l@.take(6) == event_prefix() {
                    assert(l@.take(6)[0] == event_prefix()[0]);
                    assert(l@[0] == 0x64);
                    assert(false);
                }
            }
            let start: usize = if n > 5 && l[5] == 0x20 {
                6
            } else {
                5
            };
            let mut value: Vec<u8> = Vec::new();
            let mut k = start;
            while k < n
                invariant
                    start <= k <= n,
                    n == l@.len(),
                    value@ =~= l@.subrange(start as int, k as int),
                decreases n - k,
            {
                value.push(l[k]);
                proof {
                    assert(l@.subrange(start as int, k + 1) =~= l@.subrange(
                        start as int,
                        k as int,
                    ).push(l@[k as int]));
                }
                k = k + 1;
            }
            proof {
                let restv = l@.skip(5);
                if restv.len() > 0 && restv[0] == 0x20 {
                    assert(value@ =~= restv.drop_first());
                } else {
                    assert(value@ =~= restv);
                }
            }
            let mut taken: Option<Vec<u8>> = None;
            core::mem::swap(&mut taken, &mut self.data);
            match taken {
                None => {
                    self.data = Some(value);
                },
                Some(mut d) => {
                    let ghost d0 = d@;
                    d.push(0x0a);
                    let m = value.len();
                    let mut k2: usize = 0;
                    while k2 < m
                        invariant
                            0 <= k2 <= m,
                            m == value@.len(),
                            d@ =~= d0 + seq![0x0au8] + value@.take(k2 as int),
                        decreases m - k2,
                    {
                        d.push(value[k2]);
                        proof {
                            assert(value@.take(k2 + 1) =~= value@.take(k2 as int).push(
                                value@[k2 as int],
                            ));
                            assert(d@ =~= d0 + seq![0x0au8] + value@.take(k2 + 1));
                        }
                        k2 = k2 + 1;
                    }
                    proof {
                        assert(value@.take(m as int) =~= value@);
                    }
                    self.data = Some(d);
                },
            }
            None
        } else if n == 0 {
            let mut taken: Option<Vec<u8>> = None;
            core::mem::swap(&mut taken, &mut self.data);
            match taken {
                Some(d) => {
                    let mut name: Option<Vec<u8>> = None;
                    core::mem::swap(&mut name, &mut self.event_name);
                    let pe = build_parsed(name, d);
                    Some(pe)
                },
                None => None,
            }
        } else {
            None
        }
    }
}

/// Trims spaces and tabs around the tail of the line from `start` on.
fn trim_line_ws(l: &Vec<u8>, start: usize) -> (r: Vec<u8>)
    requires
        start <= l@.len(),
    ensures
        r@ == trim_ws(l@.skip(start as int)),
{
    let n = l.len();
    let mut lo = start;
    while lo < n && (l[lo] == 0x20 || l[lo] == 0x09)
        invariant
            start <= lo <= n,
            n == l@.len(),
            trim_start_ws(l@.skip(start as int)) == trim_start_ws(l@.skip(lo as int)),
        decreases n - lo,
    {
        proof {
            assert(l@.skip(lo as int).drop_first() =~= l@.skip(lo + 1));
        }
        lo = lo + 1;
    }
    proof {
        if lo < n {
            assert(!is_line_ws(l@.skip(lo as int)[0]));
        }
        assert(trim_start_ws(l@.skip(lo as int)) == l@.skip(lo as int));
    }
    let mut hi = n;
    while hi > lo && (l[hi - 1] == 0x20 || l[hi - 1] == 0x09)
        invariant
            lo <= hi <= n,
            n == l@.len(),
            trim_end_ws(l@.subrange(lo as int, n as int)) == trim_end_ws(
                l@.subrange(lo as int, hi as int),
            ),
        decreases hi,
    {
        proof {
            assert(l@.subrange(lo as int, hi as int).drop_last() =~= l@.subrange(
                lo as int,
                hi - 1,
            ));
        }
        hi = hi - 1;
    }
    proof {
        let cur = l@.subrange(lo as int, hi as int);
        if hi > lo {
            assert(!is_line_ws(cur.last()));
        }
        assert(trim_end_ws(cur) == cur);
    }
    let mut out: Vec<u8> = Vec::new();
    let mut k = lo;
    while k < hi
        invariant
            lo <= k <= hi <= n,
            n == l@.len(),
            out@ =~= l@.subrange(lo as int, k as int),
        decreases hi - k,
    {
        out.push(l[k]);
        proof {
            assert(l@.subrange(lo as int, k + 1) =~= l@.subrange(lo as int, k as int).push(
                l@[k as int],
            ));
        }
        k = k + 1;
    }
    proof {
        assert(out@ =~= l@.subrange(lo as int, hi as int));
    }
    out
}

/// Builds the parsed event for one emitted payload.
fn build_parsed(name: Option<Vec<u8>>, raw: Vec<u8>) -> (pe: ParsedEvent)
    ensures
        parsed_matches(
            pe,
            match name {
                Some(nb) => Some(nb@),
                Option::None => Option::None,
            },
            raw@,
        ),
{
    let ghost name_model: Option<Seq<u8>> = match name {
        Some(ref nb) => Some(nb@),
        Option::None => Option::None,
    };
    let event_string: Option<String> = match &name {
        Some(nb) => {
            let ghost nbv = nb@;
            let s = bytes_to_string_lossy(nb);
            Some(s)
        },
        None => None,
    };
    let raw_string = bytes_to_string_lossy(&raw);
    let is_done = raw.len() == 6 && raw[0] == 0x5b && raw[1] == 0x44 && raw[2] == 0x4f && raw[3]
        == 0x4e && raw[4] == 0x45 && raw[5] == 0x5d;
    if is_done {
        proof {
            assert(raw@ =~= seq![0x5bu8, 0x44, 0x4f, 0x4e, 0x45, 0x5d]);
        }
        return ParsedEvent {
            kind: ParsedEventKind::Done,
            event: event_string,
            raw: raw_string,
            data: None,
            errors: Vec::new(),
            response_errors: Vec::new(),
        };
    }
    proof {
        if raw@ == seq![0x5bu8, 0x44, 0x4f, 0x4e, 0x45, 0x5d] {
            assert(raw@.len() == 6 && raw@[0] == 0x5b && raw@[1] == 0x44 && raw@[2] == 0x4f
                && raw@[3] == 0x4e && raw@[4] == 0x45 && raw@[5] == 0x5d);
        }
    }
    match parse_json(&raw) {
        Some(data) => {
            let mut errors: Vec<String> = Vec::new();
            match validate_stream_event(&data) {
                Ok(()) => {},
                Err(errs) => {
                    let m = errs.len();
                    let mut k: usize = 0;
                    while k < m
                        invariant
                            0 <= k <= m,
                            m == errs@.len(),
                            m > 0,
                            errors@.len() == k,
                        decreases m - k,
                    {
                        errors.push(crate::json::clone_string(&errs[k]));
                        k = k + 1;
                    }
                },
            }
            let ghost errors_after_schema = errors@.len() as int;
            let mut mismatch = false;
            match &event_string {
                Some(ns) => {
                    match data.get("type") {
                        Some(tv) => match tv.as_str() {
                            Some(ts) => {
                                if !crate::json::str_eq(ns.as_str(), ts.as_str()) {
                                    mismatch = true;
                                    errors.push(
                                        String::from_str("event name '").concat(
                                            ns.as_str(),
                                        ).concat("' does not match type '").concat(
                                            ts.as_str(),
                                        ).concat("'"),
                                    );
                                    proof {
                                        assert(errors@.last()@ =~= "event name '"@ + ns@
                                            + "' does not match type '"@ + ts@ + "'"@);
                                        assert(crate::json::has_msg(
                                            errors@,
                                            "event name '"@ + ns@
                                                + "' does not match type '"@ + ts@ + "'"@,
                                        ));
                                    }
                                }
                            },
                            None => {},
                        },
                        None => {},
                    }
                },
                None => {},
            }
            let mut response_errors: Vec<String> = Vec::new();
            match data.get("response") {
                Some(resp) => {
                    match validate_response_resource(resp) {
                        Ok(()) => {},
                        Err(errs) => {
                            let m = errs.len();
                            let mut k: usize = 0;
                            while k < m
                                invariant
                                    0 <= k <= m,
                                    m == errs@.len(),
                                    m > 0,
                                    response_errors@.len() == k,
                                decreases m - k,
                            {
                                response_errors.push(crate::json::clone_string(&errs[k]));
                                k = k + 1;
                            }
                        },
                    }
                },
                None => {},
            }
            ParsedEvent {
                kind: ParsedEventKind::Event,
                event: event_string,
                raw: raw_string,
                data: Some(data),
                errors,
                response_errors,
            }
        },
        None => {
            let mut errors: Vec<String> = Vec::new();
            errors.push(String::from_str("data is not valid JSON"));
            ParsedEvent {
                kind: ParsedEventKind::InvalidJson,
                event: event_string,
                raw: raw_string,
                data: None,
                errors,
                response_errors: Vec::new(),
            }
        },
    }
}

} // verus!
