//! The wire codec: JSON text over bytes.  The event log, the snapshot files
//! and the provider stream payloads all carry JSON in this form, so the
//! grammar is spelled out here: printing is total over the value model, and
//! parsing accepts exactly the grammar below, with integer numbers,
//! standard escapes, and UTF-8 string contents.

use vstd::prelude::*;

use crate::json::{json_fields_view, json_seq_view, Json, JsonV};
use crate::text::{bytes_to_string_lossy, dec_rep, dec_rep_signed, i64_to_string};
use vstd::utf8::{
    codepoint_width_2, codepoint_width_3, codepoint_width_4, decode_first_codepoint, decode_utf8,
    encode_utf8, is_continuation_byte, length_of_first_codepoint,
    partial_valid_partial_invalid_utf8, partial_valid_utf8, partial_valid_utf8_extend,
    valid_first_scalar, valid_utf8,
};

verus! {

broadcast use vstd::std_specs::vec::group_vec_axioms, vstd::seq::group_seq_axioms;

/// Decides UTF-8 validity of a byte sequence.
pub fn utf8_check(bytes: &Vec<u8>) -> (r: bool)
    ensures
        r == valid_utf8(bytes@),
{
    let n = bytes.len();
    let mut i: usize = 0;
    while i < n
        invariant
            0 <= i <= n,
            n == bytes@.len(),
            partial_valid_utf8(bytes@, i as int),
        decreases n - i,
    {
        let ghost suffix = bytes@.subrange(i as int, n as int);
        proof {
            assert(suffix.len() == n - i);
            assert(suffix[0] == bytes@[i as int]);
        }
        let b0 = bytes[i];
        let width: usize;
        if b0 < 0x80 {
            width = 1;
            proof {
                assert(((b0 & 0x7f) as u32) < 0x800) by (bit_vector);
                assert(valid_first_scalar(suffix));
                assert(length_of_first_codepoint(suffix) == 1);
            }
        } else if 0xc0 <= b0 && b0 <= 0xdf {
            if n - i < 2 || !(0x80 <= bytes[i + 1] && bytes[i + 1] <= 0xbf) {
                proof {
                    lemma_prefix_invalid(bytes@, i as int, suffix);
                }
                return false;
            }
            let b1 = bytes[i + 1];
            proof {
                assert(suffix[1] == b1);
            }
            let cp: u32 = (((b0 & 0x1f) as u32) << 6u32) | ((b1 & 0x3f) as u32);
            if !(cp >= 0x80) {
                proof {
                    assert(decode_first_codepoint(suffix) == codepoint_width_2(b0, b1));
                    assert(!valid_first_scalar(suffix));
                    lemma_prefix_invalid(bytes@, i as int, suffix);
                }
                return false;
            }
            width = 2;
            proof {
                assert((((b0 & 0x1f) as u32) << 6u32) | ((b1 & 0x3f) as u32) <= 0x7ff)
                    by (bit_vector);
                assert(decode_first_codepoint(suffix) == codepoint_width_2(b0, b1));
                assert(valid_first_scalar(suffix));
                assert(length_of_first_codepoint(suffix) == 2);
            }
        } else if 0xe0 <= b0 && b0 <= 0xef {
            if n - i < 3 || !(0x80 <= bytes[i + 1] && bytes[i + 1] <= 0xbf) || !(0x80 <= bytes[i
                + 2] && bytes[i + 2] <= 0xbf) {
                proof {
                    lemma_prefix_invalid(bytes@, i as int, suffix);
                }
                return false;
            }
            let b1 = bytes[i + 1];
            let b2 = bytes[i + 2];
            proof {
                assert(suffix[1] == b1 && suffix[2] == b2);
            }
            let cp: u32 = (((b0 & 0x0f) as u32) << 12u32) | (((b1 & 0x3f) as u32) << 6u32) | ((b2
                & 0x3f) as u32);
            if !(cp >= 0x800) || (0xd800 <= cp && cp <= 0xdfff) {
                proof {
                    assert(decode_first_codepoint(suffix) == codepoint_width_3(b0, b1, b2));
                    assert(!valid_first_scalar(suffix));
                    lemma_prefix_invalid(bytes@, i as int, suffix);
                }
                return false;
            }
            width = 3;
            proof {
                assert(decode_first_codepoint(suffix) == codepoint_width_3(b0, b1, b2));
                assert(valid_first_scalar(suffix));
                assert(length_of_first_codepoint(suffix) == 3);
            }
        } else if 0xf0 <= b0 && b0 <= 0xf7 {
            if n - i < 4 || !(0x80 <= bytes[i + 1] && bytes[i + 1] <= 0xbf) || !(0x80 <= bytes[i
                + 2] && bytes[i + 2] <= 0xbf) || !(0x80 <= bytes[i + 3] && bytes[i + 3] <= 0xbf) {
                proof {
                    lemma_prefix_invalid(bytes@, i as int, suffix);
                }
                return false;
            }
            let b1 = bytes[i + 1];
            let b2 = bytes[i + 2];
            let b3 = bytes[i + 3];
            proof {
                assert(suffix[1] == b1 && suffix[2] == b2 && suffix[3] == b3);
            }
            let cp: u32 = (((b0 & 0x07) as u32) << 18u32) | (((b1 & 0x3f) as u32) << 12u32) | (((
            b2 & 0x3f) as u32) << 6u32) | ((b3 & 0x3f) as u32);
            if !(0x10000 <= cp && cp <= 0x10ffff) {
                proof {
                    assert(decode_first_codepoint(suffix) == codepoint_width_4(b0, b1, b2, b3));
                    assert(!valid_first_scalar(suffix));
                    lemma_prefix_invalid(bytes@, i as int, suffix);
                }
                return false;
            }
            width = 4;
            proof {
                assert(decode_first_codepoint(suffix) == codepoint_width_4(b0, b1, b2, b3));
                assert(valid_first_scalar(suffix));
                assert(length_of_first_codepoint(suffix) == 4);
            }
        } else {
            proof {
                lemma_prefix_invalid(bytes@, i as int, suffix);
            }
            return false;
        }
        proof {
            partial_valid_utf8_extend(bytes@, i as int);
        }
        i = i + width;
    }
    proof {
        assert(bytes@.subrange(0, n as int) =~= bytes@);
    }
    true
}

/// The byte of one hexadecimal digit, lower case.
pub open spec fn hex_digit(d: nat) -> u8 {
    if d < 10 {
        (0x30 + d) as u8
    } else {
        (0x57 + d) as u8
    }
}

/// How one byte of string content is written: the two-character escapes for
/// quote, backslash, newline, carriage return and tab; `\u00XX` for the
/// other control bytes; every other byte as itself.
pub open spec fn escape_byte(b: u8) -> Seq<u8> {
    if b == 0x22 {
        seq![0x5c, 0x22]
    } else if b == 0x5c {
        seq![0x5c, 0x5c]
    } else if b == 0x0a {
        seq![0x5c, 0x6e]
    } else if b == 0x0d {
        seq![0x5c, 0x72]
    } else if b == 0x09 {
        seq![0x5c, 0x74]
    } else if b < 0x20 {
        seq![0x5c, 0x75, 0x30, 0x30, hex_digit((b / 16) as nat), hex_digit((b % 16) as nat)]
    } else {
        seq![b]
    }
}

/// String content, escaped byte by byte.
pub open spec fn escape_bytes(bs: Seq<u8>) -> Seq<u8>
    decreases bs.len(),
{
    if bs.len() == 0 {
        Seq::empty()
    } else {
        escape_byte(bs[0]) + escape_bytes(bs.drop_first())
    }
}

/// A printed string: quote, escaped UTF-8 content, quote.
pub open spec fn print_string(s: Seq<char>) -> Seq<u8> {
    seq![0x22u8] + escape_bytes(encode_utf8(s)) + seq![0x22u8]
}

/// Bytes of an ASCII character sequence.
pub open spec fn ascii_bytes(cs: Seq<char>) -> Seq<u8> {
    cs.map_values(|c: char| c as u8)
}

/// The printed form of a value: compact, with object fields in their stored
/// order.
pub open spec fn print_json(v: JsonV) -> Seq<u8>
    decreases v, 0int,
{
    match v {
        JsonV::Null => seq![0x6eu8, 0x75, 0x6c, 0x6c],
        JsonV::Bool(b) => if b {
            seq![0x74u8, 0x72, 0x75, 0x65]
        } else {
            seq![0x66u8, 0x61, 0x6c, 0x73, 0x65]
        },
        JsonV::Int(i) => ascii_bytes(dec_rep_signed(i)),
        JsonV::Str(s) => print_string(s),
        JsonV::Arr(items) => seq![0x5bu8] + print_items(items) + seq![0x5du8],
        JsonV::Obj(fields) => seq![0x7bu8] + print_fields(fields) + seq![0x7du8],
    }
}

/// Array elements, comma-separated.
pub open spec fn print_items(items: Seq<JsonV>) -> Seq<u8>
    decreases items, 1int,
{
    if items.len() == 0 {
        Seq::empty()
    } else if items.len() == 1 {
        print_json(items[0])
    } else {
        print_json(items[0]) + seq![0x2cu8] + print_items(items.drop_first())
    }
}

/// Object fields, comma-separated, each a printed key, a colon and a value.
pub open spec fn print_fields(fields: Seq<(Seq<char>, JsonV)>) -> Seq<u8>
    decreases fields, 1int,
{
    if fields.len() == 0 {
        Seq::empty()
    } else {
        let head = print_string(fields[0].0) + seq![0x3au8] + print_json(fields[0].1);
        if fields.len() == 1 {
            head
        } else {
            head + seq![0x2cu8] + print_fields(fields.drop_first())
        }
    }
}

/// Appends the escaped content of a string.
fn write_escaped(s: &String, out: &mut Vec<u8>)
    ensures
        final (out)@ == old(out)@ + escape_bytes(encode_utf8(s@)),
{
    let bytes = s.as_str().as_bytes();
    let n = bytes.len();
    let ghost bs = bytes@;
    let ghost base = old(out)@;
    let mut k: usize = 0;
    proof {
        assert(bs.take(0) =~= Seq::<u8>::empty());
        assert(out@ =~= base + escape_bytes(bs.take(0)));
    }
    while k < n
        invariant
            0 <= k <= n,
            n == bs.len(),
            bs == encode_utf8(s@),
            bytes@ == bs,
            out@ == base + escape_bytes(bs.take(k as int)),
        decreases n - k,
    {
        let ghost before = out@;
        let b = bytes[k];
        if b == 0x22 {
            out.push(0x5c);
            out.push(0x22);
        } else if b == 0x5c {
            out.push(0x5c);
            out.push(0x5c);
        } else if b == 0x0a {
            out.push(0x5c);
            out.push(0x6e);
        } else if b == 0x0d {
            out.push(0x5c);
            out.push(0x72);
        } else if b == 0x09 {
            out.push(0x5c);
            out.push(0x74);
        } else if b < 0x20 {
            out.push(0x5c);
            out.push(0x75);
            out.push(0x30);
            out.push(0x30);
            let hi = b / 16;
            let lo = b % 16;
            out.push(if hi < 10 { 0x30 + hi } else { 0x57 + hi });
            out.push(if lo < 10 { 0x30 + lo } else { 0x57 + lo });
        } else {
            out.push(b);
        }
        proof {
            assert(out@ =~= before + escape_byte(bs[k as int]));
            assert(bs.take(k + 1) =~= bs.take(k as int).push(bs[k as int]));
            lemma_escape_take_snoc(bs, k as int);
            assert(out@ =~= base + escape_bytes(bs.take(k + 1)));
        }
        k = k + 1;
    }
    proof {
        assert(bs.take(n as int) =~= bs);
    }
}

/// Splitting escaped content after one more byte moves that byte's escape
/// across the split.
proof fn lemma_escape_take_snoc(bs: Seq<u8>, k: int)
    requires
        0 <= k < bs.len(),
        bs.take(k + 1) =~= bs.take(k).push(bs[k]),
    ensures
        escape_bytes(bs.take(k + 1)) =~= escape_bytes(bs.take(k)) + escape_byte(bs[k]),
    decreases k,
{
    if k == 0 {
        assert(bs.take(1) =~= seq![bs[0]]);
        assert(bs.take(1).drop_first() =~= Seq::<u8>::empty());
        assert(bs.take(0) =~= Seq::<u8>::empty());
    } else {
        assert(bs.take(k + 1)[0] == bs[0]);
        assert(bs.take(k + 1).drop_first() =~= bs.drop_first().take(k));
        assert(bs.take(k).drop_first() =~= bs.drop_first().take(k - 1));
        lemma_escape_take_snoc(bs.drop_first(), k - 1);
        assert(bs.drop_first().take(k - 1).push(bs.drop_first()[k - 1]) =~= bs.drop_first().take(
            k,
        ));
        assert(bs.drop_first()[k - 1] == bs[k]);
        assert(escape_bytes(bs.take(k + 1)) == escape_byte(bs[0]) + escape_bytes(
            bs.drop_first().take(k),
        ));
        assert(escape_bytes(bs.take(k)) == escape_byte(bs[0]) + escape_bytes(
            bs.drop_first().take(k - 1),
        ));
    }
}

/// Appends the printed form of a value.
fn write_json(v: &Json, out: &mut Vec<u8>)
    ensures
        final (out)@ == old(out)@ + print_json(v@),
    decreases v, 0int,
{
    let ghost base = old(out)@;
    match v {
        Json::Null => {
            out.push(0x6e);
            out.push(0x75);
            out.push(0x6c);
            out.push(0x6c);
            proof {
                assert(out@ =~= base + print_json(v@));
            }
        },
        Json::Bool(b) => {
            if *b {
                out.push(0x74);
                out.push(0x72);
                out.push(0x75);
                out.push(0x65);
            } else {
                out.push(0x66);
                out.push(0x61);
                out.push(0x6c);
                out.push(0x73);
                out.push(0x65);
            }
            proof {
                assert(out@ =~= base + print_json(v@));
            }
        },
        Json::Int(i) => {
            let rendered = i64_to_string(*i);
            let rb = rendered.as_str().as_bytes();
            let ghost chars = dec_rep_signed(*i as int);
            proof {
                lemma_dec_chars_ascii(*i as int);
                vstd::utf8::is_ascii_chars_encode_utf8(chars);
                assert(rb@ =~= ascii_bytes(chars));
            }
            let n = rb.len();
            let mut k: usize = 0;
            while k < n
                invariant
                    0 <= k <= n,
                    n == rb@.len(),
                    out@ == base + rb@.take(k as int),
                decreases n - k,
            {
                let ghost before = out@;
                out.push(rb[k]);
                proof {
                    assert(rb@.take(k + 1) =~= rb@.take(k as int).push(rb@[k as int]));
                    assert(out@ =~= base + rb@.take(k + 1));
                }
                k = k + 1;
            }
            proof {
                assert(rb@.take(n as int) =~= rb@);
                assert(out@ =~= base + print_json(v@));
            }
        },
        Json::Str(s) => {
            out.push(0x22);
            write_escaped(s, out);
            out.push(0x22);
            proof {
                assert(out@ =~= base + print_string(s@));
            }
        },
        Json::Arr(items) => {
            out.push(0x5b);
            write_items(items, 0, out);
            out.push(0x5d);
            proof {
                assert(json_seq_view(items@).skip(0) =~= json_seq_view(items@));
                assert(out@ =~= base + print_json(v@));
            }
        },
        Json::Obj(fields) => {
            out.push(0x7b);
            write_fields(fields, 0, out);
            out.push(0x7d);
            proof {
                assert(json_fields_view(fields@).skip(0) =~= json_fields_view(fields@));
                assert(out@ =~= base + print_json(v@));
            }
        },
    }
}

/// Appends the elements from position `k` on, comma-separated.
fn write_items(items: &Vec<Json>, k: usize, out: &mut Vec<u8>)
    requires
        k <= items@.len(),
    ensures
        final (out)@ == old(out)@ + print_items(json_seq_view(items@).skip(k as int)),
    decreases items, items@.len() - k,
{
    let ghost base = old(out)@;
    let ghost s = json_seq_view(items@);
    proof {
        crate::json::lemma_json_seq_view(items@);
    }
    if k < items.len() {
        write_json(&items[k], out);
        proof {
            assert(s.skip(k as int)[0] == s[k as int]);
            assert(s[k as int] == items@[k as int]@);
        }
        if k + 1 < items.len() {
            out.push(0x2c);
            let ghost mid = out@;
            write_items(items, k + 1, out);
            proof {
                assert(s.skip(k as int).drop_first() =~= s.skip(k + 1));
                assert(s.skip(k as int).len() > 1);
                assert(out@ =~= base + print_items(s.skip(k as int)));
            }
        } else {
            proof {
                assert(s.skip(k as int).len() == 1);
                assert(print_items(s.skip(k as int)) == print_json(s[k as int]));
                assert(out@ =~= base + print_items(s.skip(k as int)));
            }
        }
    } else {
        proof {
            assert(s.skip(k as int) =~= Seq::<JsonV>::empty());
            assert(out@ =~= base + print_items(s.skip(k as int)));
        }
    }
}

/// Appends the fields from position `k` on, comma-separated.
fn write_fields(fields: &Vec<(String, Json)>, k: usize, out: &mut Vec<u8>)
    requires
        k <= fields@.len(),
    ensures
        final (out)@ == old(out)@ + print_fields(json_fields_view(fields@).skip(k as int)),
    decreases fields, fields@.len() - k,
{
    let ghost base = old(out)@;
    let ghost s = json_fields_view(fields@);
    proof {
        crate::json::lemma_json_fields_view(fields@);
    }
    if k < fields.len() {
        out.push(0x22);
        write_escaped(&fields[k].0, out);
        out.push(0x22);
        out.push(0x3a);
        write_json(&fields[k].1, out);
        proof {
            assert(s.skip(k as int)[0] == s[k as int]);
            assert(s[k as int] == (fields@[k as int].0@, fields@[k as int].1@));
            assert(out@ =~= base + (print_string(s.skip(k as int)[0].0) + seq![0x3au8]
                + print_json(s.skip(k as int)[0].1)));
        }
        if k + 1 < fields.len() {
            out.push(0x2c);
            write_fields(fields, k + 1, out);
            proof {
                assert(s.skip(k as int).drop_first() =~= s.skip(k + 1));
                assert(s.skip(k as int).len() > 1);
                assert(out@ =~= base + print_fields(s.skip(k as int)));
            }
        } else {
            proof {
                assert(s.skip(k as int).len() == 1);
                assert(out@ =~= base + print_fields(s.skip(k as int)));
            }
        }
    } else {
        proof {
            assert(s.skip(k as int) =~= Seq::<(Seq<char>, JsonV)>::empty());
            assert(out@ =~= base + print_fields(s.skip(k as int)));
        }
    }
}

/// The decimal rendering of a signed number holds ASCII characters only.
proof fn lemma_dec_chars_ascii(n: int)
    ensures
        vstd::utf8::is_ascii_chars(dec_rep_signed(n)),
{
    if n < 0 {
        lemma_dec_rep_ascii((-n) as nat);
        assert(dec_rep_signed(n) =~= seq!['-'] + crate::text::dec_rep((-n) as nat));
        assert forall|i: int| 0 <= i < dec_rep_signed(n).len() implies '\0'
            <= #[trigger] dec_rep_signed(n)[i] <= '\u{7f}' by {
            if i > 0 {
                assert(dec_rep_signed(n)[i] == crate::text::dec_rep((-n) as nat)[i - 1]);
            }
        }
    } else {
        lemma_dec_rep_ascii(n as nat);
    }
}

/// The decimal rendering of a non-negative number holds ASCII characters
/// only.
proof fn lemma_dec_rep_ascii(n: nat)
    ensures
        vstd::utf8::is_ascii_chars(crate::text::dec_rep(n)),
    decreases n,
{
    if n < 10 {
        assert(crate::text::dec_rep(n) =~= seq![crate::text::digit_char(n)]);
    } else {
        lemma_dec_rep_ascii(n / 10);
        let s = crate::text::dec_rep(n);
        assert(s =~= crate::text::dec_rep(n / 10).push(crate::text::digit_char(n % 10)));
        assert forall|i: int| 0 <= i < s.len() implies '\0' <= #[trigger] s[i] <= '\u{7f}' by {
            if i < s.len() - 1 {
                assert(s[i] == crate::text::dec_rep(n / 10)[i]);
            }
        }
    }
}

/// The printed form of a value, as bytes ready for the wire.
pub fn json_to_bytes(v: &Json) -> (out: Vec<u8>)
    ensures
        out@ == print_json(v@),
{
    let mut out: Vec<u8> = Vec::new();
    write_json(v, &mut out);
    proof {
        assert(out@ =~= print_json(v@));
    }
    out
}

/// A byte sequence whose tail is no valid encoding is itself invalid, for
/// any valid prefix before the tail.
proof fn lemma_prefix_invalid(bytes: Seq<u8>, i: int, suffix: Seq<u8>)
    requires
        0 <= i < bytes.len(),
        suffix =~= bytes.subrange(i, bytes.len() as int),
        partial_valid_utf8(bytes, i),
        !valid_first_scalar(suffix),
    ensures
        !valid_utf8(bytes),
{
    assert(!valid_utf8(suffix));
    partial_valid_partial_invalid_utf8(bytes, i);
}

/// A whitespace byte of the grammar.
pub open spec fn is_ws(b: u8) -> bool {
    b == 0x20 || b == 0x09 || b == 0x0a || b == 0x0d
}

/// An ASCII decimal digit.
pub open spec fn is_digit(b: u8) -> bool {
    0x30 <= b <= 0x39
}

/// The first position at or after `i` holding no whitespace.
pub open spec fn ws_end(s: Seq<u8>, i: int) -> int
    decreases s.len() - i,
    when 0 <= i <= s.len()
{
    if i < s.len() && is_ws(s[i]) {
        ws_end(s, i + 1)
    } else {
        i
    }
}

/// `ws_end` stays within the input.
pub proof fn lemma_ws_end(s: Seq<u8>, i: int)
    requires
        0 <= i <= s.len(),
    ensures
        i <= ws_end(s, i) <= s.len(),
    decreases s.len() - i,
{
    if i < s.len() && is_ws(s[i]) {
        lemma_ws_end(s, i + 1);
    }
}

/// The first position at or after `i` holding no digit.
pub open spec fn digits_end(s: Seq<u8>, i: int) -> int
    decreases s.len() - i,
    when 0 <= i <= s.len()
{
    if i < s.len() && is_digit(s[i]) {
        digits_end(s, i + 1)
    } else {
        i
    }
}

/// `digits_end` stays within the input.
pub proof fn lemma_digits_end(s: Seq<u8>, i: int)
    requires
        0 <= i <= s.len(),
    ensures
        i <= digits_end(s, i) <= s.len(),
    decreases s.len() - i,
{
    if i < s.len() && is_digit(s[i]) {
        lemma_digits_end(s, i + 1);
    }
}

/// The value of the digit run from `j` to `e`.
pub open spec fn digits_val(s: Seq<u8>, j: int, e: int) -> int
    decreases e - j,
{
    if e <= j {
        0
    } else {
        digits_val(s, j, e - 1) * 10 + (s[e - 1] - 0x30)
    }
}

/// Powers of ten.
pub open spec fn pow10(n: nat) -> int
    decreases n,
{
    if n == 0 {
        1
    } else {
        pow10((n - 1) as nat) * 10
    }
}

/// A number: an optional minus sign and a digit run without a leading
/// zero, holding a value the signed 64-bit range can carry.
pub open spec fn scan_int(s: Seq<u8>, i: int) -> Option<(JsonV, int)> {
    let neg = i < s.len() && s[i] == 0x2d;
    let j = if neg {
        i + 1
    } else {
        i
    };
    if !(j < s.len() && is_digit(s[j])) {
        Option::None
    } else {
        let e = digits_end(s, j);
        let m = digits_val(s, j, e);
        if s[j] == 0x30 && e > j + 1 {
            Option::None
        } else if e - j > 19 {
            Option::None
        } else if m > (if neg {
            i64::MAX + 1
        } else {
            i64::MAX as int
        }) {
            Option::None
        } else {
            Some((JsonV::Int(if neg { -m } else { m }), e))
        }
    }
}


/// The decimal rendering holds digit characters only, and no leading zero
/// unless the number is zero itself.
proof fn lemma_dec_rep_digits(n: nat)
    ensures
        dec_rep(n).len() >= 1,
        forall|k: int|
            0 <= k < dec_rep(n).len() ==> 0x30 <= (#[trigger] dec_rep(n)[k]) as u8 <= 0x39,
        n >= 10 ==> dec_rep(n)[0] as u8 != 0x30,
        n >= 1 ==> dec_rep(n)[0] as u8 != 0x30,
    decreases n,
{
    if n < 10 {
        assert(dec_rep(n) =~= seq![crate::text::digit_char(n)]);
        assert(crate::text::digit_char(n) as u8 == 0x30 + n);
    } else {
        lemma_dec_rep_digits(n / 10);
        let s = dec_rep(n);
        assert(s =~= dec_rep(n / 10).push(crate::text::digit_char(n % 10)));
        assert(crate::text::digit_char(n % 10) as u8 == 0x30 + n % 10);
        assert forall|k: int| 0 <= k < s.len() implies 0x30 <= (#[trigger] s[k]) as u8
            <= 0x39 by {
            if k < s.len() - 1 {
                assert(s[k] == dec_rep(n / 10)[k]);
            }
        }
        assert(s[0] == dec_rep(n / 10)[0]);
    }
}

/// A number below the k-th power of ten needs at most k digits.
proof fn lemma_dec_rep_len(n: nat, k: nat)
    requires
        k >= 1,
        n < pow10(k),
    ensures
        dec_rep(n).len() <= k,
    decreases n,
{
    if n < 10 {
    } else {
        assert(pow10(k) == pow10((k - 1) as nat) * 10);
        lemma_pow10_le(1, (k - 1) as nat);
        assert(n / 10 < pow10((k - 1) as nat));
        lemma_dec_rep_len(n / 10, (k - 1) as nat);
        assert(dec_rep(n) =~= dec_rep(n / 10).push(crate::text::digit_char(n % 10)));
    }
}

/// The digit run of a printed number ends where the rendering ends, and
/// reading it back yields the number.
proof fn lemma_scan_digits_print(s: Seq<u8>, j: int, n: nat)
    requires
        0 <= j,
        j + dec_rep(n).len() <= s.len(),
        s.subrange(j, j + dec_rep(n).len()) == ascii_bytes(dec_rep(n)),
        j + dec_rep(n).len() == s.len() || !is_digit(s[j + dec_rep(n).len()]),
    ensures
        digits_end(s, j) == j + dec_rep(n).len(),
        digits_val(s, j, j + dec_rep(n).len()) == n,
{
    lemma_dec_rep_digits(n);
    let len = dec_rep(n).len() as int;
    assert forall|k: int| j <= k < j + len implies is_digit(#[trigger] s[k]) by {
        assert(s[k] == s.subrange(j, j + len)[k - j]);
        assert(ascii_bytes(dec_rep(n))[k - j] == dec_rep(n)[k - j] as u8);
    }
    lemma_digits_end_at(s, j, j + len);
    lemma_digits_val_print(s, j, n);
}

/// Reading a printed number's digits back yields the number.
proof fn lemma_digits_val_print(s: Seq<u8>, j: int, n: nat)
    requires
        0 <= j,
        j + dec_rep(n).len() <= s.len(),
        s.subrange(j, j + dec_rep(n).len()) == ascii_bytes(dec_rep(n)),
    ensures
        digits_val(s, j, j + dec_rep(n).len()) == n,
    decreases n,
{
    lemma_dec_rep_digits(n);
    let len = dec_rep(n).len() as int;
    if n < 10 {
        assert(s[j] == s.subrange(j, j + len)[0]);
        assert(ascii_bytes(dec_rep(n))[0] == dec_rep(n)[0] as u8);
        assert(dec_rep(n)[0] as u8 == 0x30 + n);
        assert(digits_val(s, j, j + 1) == digits_val(s, j, j) * 10 + (s[j] - 0x30));
    } else {
        let shorter = dec_rep(n / 10).len() as int;
        assert(dec_rep(n) =~= dec_rep(n / 10).push(crate::text::digit_char(n % 10)));
        lemma_dec_rep_digits(n / 10);
        assert(s.subrange(j, j + shorter) =~= ascii_bytes(dec_rep(n / 10))) by {
            assert forall|k: int| 0 <= k < shorter implies #[trigger] s.subrange(
                j,
                j + shorter,
            )[k] == ascii_bytes(dec_rep(n / 10))[k] by {
                assert(s.subrange(j, j + shorter)[k] == s[j + k]);
                assert(s[j + k] == s.subrange(j, j + len)[k]);
                assert(ascii_bytes(dec_rep(n))[k] == dec_rep(n)[k] as u8);
                assert(dec_rep(n)[k] == dec_rep(n / 10)[k]);
                assert(ascii_bytes(dec_rep(n / 10))[k] == dec_rep(n / 10)[k] as u8);
            }
        }
        lemma_digits_val_print(s, j, n / 10);
        assert(s[j + len - 1] == s.subrange(j, j + len)[len - 1]);
        assert(ascii_bytes(dec_rep(n))[len - 1] == dec_rep(n)[len - 1] as u8);
        assert(dec_rep(n)[len - 1] == crate::text::digit_char(n % 10));
        assert(crate::text::digit_char(n % 10) as u8 == 0x30 + n % 10);
        assert(digits_val(s, j, j + len) == digits_val(s, j, j + len - 1) * 10 + (s[j + len - 1]
            - 0x30));
        assert(digits_val(s, j, j + shorter) == n / 10);
    }
}

/// The digit run from `j` ends exactly at `e` when everything before is a
/// digit and `e` is the end or a non-digit.
proof fn lemma_digits_end_at(s: Seq<u8>, j: int, e: int)
    requires
        0 <= j <= e <= s.len(),
        forall|k: int| j <= k < e ==> is_digit(#[trigger] s[k]),
        e == s.len() || !is_digit(s[e]),
    ensures
        digits_end(s, j) == e,
    decreases e - j,
{
    if j < e {
        lemma_digits_end_at(s, j + 1, e);
    }
}



/// A hexadecimal digit byte reads back as its value.
proof fn lemma_hex_digit_val(d: nat)
    requires
        d < 16,
    ensures
        hex_val(hex_digit(d)) == Some(d as u32),
{
}

/// Escaped string content followed by a closing quote reads back as the
/// content.
proof fn lemma_scan_escaped(s: Seq<u8>, i: int, bs: Seq<u8>)
    requires
        0 <= i,
        i + escape_bytes(bs).len() + 1 <= s.len(),
        s.subrange(i, i + escape_bytes(bs).len() as int) == escape_bytes(bs),
        s[i + escape_bytes(bs).len()] == 0x22,
    ensures
        scan_string_bytes(s, i) == Some((bs, i + escape_bytes(bs).len() + 1)),
    decreases bs.len(),
{
    let elen = escape_bytes(bs).len() as int;
    if bs.len() == 0 {
        assert(escape_bytes(bs) =~= Seq::<u8>::empty());
        assert(s[i] == 0x22);
    } else {
        let b = bs[0];
        let eb = escape_byte(b);
        let rest = bs.drop_first();
        let erest = escape_bytes(rest);
        assert(escape_bytes(bs) == eb + erest);
        let eblen = eb.len() as int;
        assert forall|k: int| 0 <= k < eblen implies s[i + k] == #[trigger] eb[k] by {
            assert(s[i + k] == s.subrange(i, i + elen)[k]);
            assert((eb + erest)[k] == eb[k]);
        }
        assert(s.subrange(i + eblen, i + eblen + erest.len() as int) =~= erest) by {
            assert forall|k: int| 0 <= k < erest.len() implies #[trigger] s.subrange(
                i + eblen,
                i + eblen + erest.len() as int,
            )[k] == erest[k] by {
                assert(s.subrange(i + eblen, i + eblen + erest.len() as int)[k] == s[i + eblen
                    + k]);
                assert(s[i + eblen + k] == s.subrange(i, i + elen)[eblen + k]);
                assert((eb + erest)[eblen + k] == erest[k]);
            }
        }
        lemma_scan_escaped(s, i + eblen, rest);
        if b == 0x22 || b == 0x5c {
            assert(s[i] == 0x5c && s[i + 1] == b);
        } else if b == 0x0a {
            assert(s[i] == 0x5c && s[i + 1] == 0x6e);
        } else if b == 0x0d {
            assert(s[i] == 0x5c && s[i + 1] == 0x72);
        } else if b == 0x09 {
            assert(s[i] == 0x5c && s[i + 1] == 0x74);
        } else if b < 0x20 {
            assert(s[i] == 0x5c && s[i + 1] == 0x75 && s[i + 2] == 0x30 && s[i + 3] == 0x30);
            assert(s[i + 4] == hex_digit((b / 16) as nat));
            assert(s[i + 5] == hex_digit((b % 16) as nat));
            lemma_hex_digit_val((b / 16) as nat);
            lemma_hex_digit_val((b % 16) as nat);
            assert(hex_val(0x30) == Some(0u32));
            assert(scan_hex4(s, i + 2) is Some);
            let cp = scan_hex4(s, i + 2)->0;
            assert(cp == (0u32 << 12) | (0u32 << 8) | (((b / 16) as u32) << 4) | ((b
                % 16) as u32));
            let hi = (b / 16) as u32;
            let lo = (b % 16) as u32;
            assert((0u32 << 12) | (0u32 << 8) | (hi << 4) | lo == hi * 16 + lo)
                by (bit_vector)
                requires
                    hi < 2 && lo < 16,
            ;
            assert(cp == b as u32);
            assert(!(0xd800 <= cp <= 0xdfff));
            assert(vstd::utf8::encode_scalar(cp) =~= seq![b]) by {
                assert(vstd::utf8::has_width_1_encoding(cp));
                assert(vstd::utf8::leading_byte_width_1(cp) == (cp & 0x7f) as u8);
                assert((cp & 0x7f) as u8 == b) by (bit_vector)
                    requires
                        cp == b as u32 && b < 0x20,
                ;
            }
            assert(scan_string_bytes(s, i) == Some((seq![b] + rest, i + elen + 1)));
            assert(seq![b] + rest =~= bs);
        } else {
            assert(eb == seq![b]);
            assert(eb[0] == b);
            assert(s[i] == eb[0]);
            assert(b != 0x22 && b != 0x5c);
            assert(scan_string_bytes(s, i) == Some((seq![b] + rest, i + elen + 1)));
            assert(seq![b] + rest =~= bs);
        }
        if b == 0x22 || b == 0x5c || b == 0x0a || b == 0x0d || b == 0x09 {
            assert(scan_string_bytes(s, i) == Some((seq![b] + rest, i + elen + 1)));
            assert(seq![b] + rest =~= bs);
        }
    }
}

/// Printed output is never empty and never starts with whitespace, a
/// comma, or a closing bracket: the printer's first byte always starts a
/// value.
proof fn lemma_print_shape(v: JsonV)
    ensures
        print_json(v).len() > 0,
        !is_ws(print_json(v)[0]),
        print_json(v)[0] != 0x2c && print_json(v)[0] != 0x5d && print_json(v)[0] != 0x7d
            && print_json(v)[0] != 0x3a,
{
    match v {
        JsonV::Null => {
            assert(print_json(v)[0] == 0x6e);
        },
        JsonV::Bool(b) => {
            if b {
                assert(print_json(v)[0] == 0x74);
            } else {
                assert(print_json(v)[0] == 0x66);
            }
        },
        JsonV::Int(m) => {
            if m < 0 {
                lemma_dec_rep_digits((-m) as nat);
                assert(dec_rep_signed(m) =~= seq!['-'] + dec_rep((-m) as nat));
                assert(dec_rep_signed(m)[0] == '-');
                assert(print_json(v)[0] == ascii_bytes(dec_rep_signed(m))[0]);
                assert(ascii_bytes(dec_rep_signed(m))[0] == '-' as u8);
            } else {
                lemma_dec_rep_digits(m as nat);
                assert(print_json(v)[0] == ascii_bytes(dec_rep_signed(m))[0]);
                assert(ascii_bytes(dec_rep_signed(m))[0] == dec_rep(m as nat)[0] as u8);
                assert(0x30 <= dec_rep(m as nat)[0] as u8 <= 0x39);
            }
        },
        JsonV::Str(cs) => {
            assert(print_json(v)[0] == 0x22);
        },
        JsonV::Arr(items) => {
            assert(print_json(v)[0] == 0x5b);
        },
        JsonV::Obj(fields) => {
            assert(print_json(v)[0] == 0x7b);
        },
    }
}

/// Reading back a printed number, with no digit following it, yields the
/// number.
proof fn lemma_scan_int_print(s: Seq<u8>, i: int, m: int)
    requires
        i64::MIN <= m <= i64::MAX,
        0 <= i,
        i + ascii_bytes(dec_rep_signed(m)).len() <= s.len(),
        s.subrange(i, i + ascii_bytes(dec_rep_signed(m)).len()) == ascii_bytes(dec_rep_signed(m)),
        i + ascii_bytes(dec_rep_signed(m)).len() == s.len() || !is_digit(
            s[i + ascii_bytes(dec_rep_signed(m)).len()],
        ),
    ensures
        scan_int(s, i) == Some((JsonV::Int(m), i + ascii_bytes(dec_rep_signed(m)).len() as int)),
{
    let pb = ascii_bytes(dec_rep_signed(m));
    let plen = pb.len() as int;
    assert(pow10(19) == 10000000000000000000) by {
        reveal_with_fuel(pow10, 20);
    }
    if m < 0 {
        let n = (-m) as nat;
        lemma_dec_rep_digits(n);
        assert(dec_rep_signed(m) =~= seq!['-'] + dec_rep(n));
        assert(s[i] == pb[0]);
        assert(pb[0] == '-' as u8);
        assert('-' as u8 == 0x2d);
        let j = i + 1;
        assert(s.subrange(j, j + dec_rep(n).len()) =~= ascii_bytes(dec_rep(n))) by {
            assert forall|k: int| 0 <= k < dec_rep(n).len() implies #[trigger] s.subrange(
                j,
                j + dec_rep(n).len(),
            )[k] == ascii_bytes(dec_rep(n))[k] by {
                assert(s.subrange(j, j + dec_rep(n).len())[k] == s[j + k]);
                assert(s[j + k] == s.subrange(i, i + plen)[k + 1]);
                assert(pb[k + 1] == dec_rep_signed(m)[k + 1] as u8);
                assert(dec_rep_signed(m)[k + 1] == dec_rep(n)[k]);
            }
        }
        lemma_scan_digits_print(s, j, n);
        assert(s[j] == pb[1] && pb[1] == dec_rep(n)[0] as u8);
        assert(is_digit(s[j]));
        if n >= 10 {
            assert(s[j] != 0x30);
        } else {
            assert(digits_end(s, j) == j + 1);
        }
        lemma_dec_rep_len(n, 19);
        assert(n < pow10(19)) by {
            assert(n <= 9223372036854775808);
        }
        assert(digits_val(s, j, digits_end(s, j)) == n);
        assert(n <= i64::MAX + 1);
    } else {
        let n = m as nat;
        lemma_dec_rep_digits(n);
        assert(dec_rep_signed(m) =~= dec_rep(n));
        assert(s.subrange(i, i + dec_rep(n).len()) =~= ascii_bytes(dec_rep(n)));
        assert(s[i] == pb[0]);
        assert(pb[0] == dec_rep(n)[0] as u8);
        assert(is_digit(s[i]));
        assert(s[i] != 0x2d);
        lemma_scan_digits_print(s, i, n);
        if n >= 10 {
            assert(s[i] != 0x30);
        } else {
            assert(digits_end(s, i) == i + 1);
        }
        lemma_dec_rep_len(n, 19);
        assert(n < pow10(19)) by {
            assert(n <= 9223372036854775807);
        }
        assert(digits_val(s, i, digits_end(s, i)) == n);
    }
}

/// The numeric value of a hexadecimal digit byte.
pub open spec fn hex_val(b: u8) -> Option<u32> {
    if is_digit(b) {
        Some((b - 0x30) as u32)
    } else if 0x61 <= b <= 0x66 {
        Some((b - 0x57) as u32)
    } else if 0x41 <= b <= 0x46 {
        Some((b - 0x37) as u32)
    } else {
        Option::None
    }
}

/// Four hexadecimal digits at `i`.
pub open spec fn scan_hex4(s: Seq<u8>, i: int) -> Option<u32> {
    if i + 4 <= s.len() && hex_val(s[i]) is Some && hex_val(s[i + 1]) is Some && hex_val(
        s[i + 2],
    ) is Some && hex_val(s[i + 3]) is Some {
        Some(
            (hex_val(s[i])->0 << 12) | (hex_val(s[i + 1])->0 << 8) | (hex_val(s[i + 2])->0 << 4)
                | hex_val(s[i + 3])->0,
        )
    } else {
        Option::None
    }
}

/// String content from `i` to the closing quote, unescaped to bytes.
/// `\uXXXX` escapes outside the surrogate range are accepted and encoded as
/// UTF-8; surrogate escapes are not.
pub open spec fn scan_string_bytes(s: Seq<u8>, i: int) -> Option<(Seq<u8>, int)>
    decreases s.len() - i,
    when 0 <= i <= s.len()
{
    if i >= s.len() {
        Option::None
    } else if s[i] == 0x22 {
        Some((Seq::empty(), i + 1))
    } else if s[i] == 0x5c {
        if i + 1 >= s.len() {
            Option::None
        } else {
            let e = s[i + 1];
            if e == 0x75 {
                match scan_hex4(s, i + 2) {
                    Some(cp) => if 0xd800 <= cp <= 0xdfff {
                        Option::None
                    } else {
                        match scan_string_bytes(s, i + 6) {
                            Some((rest, end)) => Some(
                                (vstd::utf8::encode_scalar(cp) + rest, end),
                            ),
                            Option::None => Option::None,
                        }
                    },
                    Option::None => Option::None,
                }
            } else {
                let decoded: Option<u8> = if e == 0x22 {
                    Some(0x22)
                } else if e == 0x5c {
                    Some(0x5c)
                } else if e == 0x2f {
                    Some(0x2f)
                } else if e == 0x6e {
                    Some(0x0a)
                } else if e == 0x72 {
                    Some(0x0d)
                } else if e == 0x74 {
                    Some(0x09)
                } else if e == 0x62 {
                    Some(0x08)
                } else if e == 0x66 {
                    Some(0x0c)
                } else {
                    Option::None
                };
                match decoded {
                    Some(b) => match scan_string_bytes(s, i + 2) {
                        Some((rest, end)) => Some((seq![b] + rest, end)),
                        Option::None => Option::None,
                    },
                    Option::None => Option::None,
                }
            }
        }
    } else {
        match scan_string_bytes(s, i + 1) {
            Some((rest, end)) => Some((seq![s[i]] + rest, end)),
            Option::None => Option::None,
        }
    }
}

/// A string body from `i` (just after the opening quote): its characters
/// when the unescaped content is valid UTF-8.
pub open spec fn scan_string(s: Seq<u8>, i: int) -> Option<(Seq<char>, int)> {
    match scan_string_bytes(s, i) {
        Some((bs, end)) => if valid_utf8(bs) {
            Some((decode_utf8(bs), end))
        } else {
            Option::None
        },
        Option::None => Option::None,
    }
}

/// A value at `i`, after optional whitespace: one of the literals, a
/// number, a string, an array or an object, with its end position.
pub open spec fn scan_value(s: Seq<u8>, i: int) -> Option<(JsonV, int)>
    decreases s.len() - i, 0int,
    when 0 <= i <= s.len()
{
    let j = ws_end(s, i);
    proof {
        lemma_ws_end(s, i);
    }
    if j >= s.len() {
        Option::None
    } else {
        let b = s[j];
        if b == 0x6e {
            if j + 4 <= s.len() && s[j + 1] == 0x75 && s[j + 2] == 0x6c && s[j + 3] == 0x6c {
                Some((JsonV::Null, j + 4))
            } else {
                Option::None
            }
        } else if b == 0x74 {
            if j + 4 <= s.len() && s[j + 1] == 0x72 && s[j + 2] == 0x75 && s[j + 3] == 0x65 {
                Some((JsonV::Bool(true), j + 4))
            } else {
                Option::None
            }
        } else if b == 0x66 {
            if j + 5 <= s.len() && s[j + 1] == 0x61 && s[j + 2] == 0x6c && s[j + 3] == 0x73 && s[j
                + 4] == 0x65 {
                Some((JsonV::Bool(false), j + 5))
            } else {
                Option::None
            }
        } else if b == 0x22 {
            match scan_string(s, j + 1) {
                Some((cs, end)) => Some((JsonV::Str(cs), end)),
                Option::None => Option::None,
            }
        } else if b == 0x5b {
            match scan_items(s, j + 1, true) {
                Some((items, end)) => Some((JsonV::Arr(items), end)),
                Option::None => Option::None,
            }
        } else if b == 0x7b {
            match scan_fields(s, j + 1, true) {
                Some((fields, end)) => Some((JsonV::Obj(fields), end)),
                Option::None => Option::None,
            }
        } else if b == 0x2d || is_digit(b) {
            scan_int(s, j)
        } else {
            Option::None
        }
    }
}

/// Array elements from `i`: at the start (`first`) a closing bracket means
/// an empty array; otherwise one value, then either a comma and the rest or
/// the closing bracket.
pub open spec fn scan_items(s: Seq<u8>, i: int, first: bool) -> Option<(Seq<JsonV>, int)>
    decreases s.len() - i, 2int,
    when 0 <= i <= s.len()
{
    let j = ws_end(s, i);
    proof {
        lemma_ws_end(s, i);
    }
    if first && j < s.len() && s[j] == 0x5d {
        Some((Seq::empty(), j + 1))
    } else {
        match scan_value(s, i) {
            Some((v, e)) => {
                proof {
                    lemma_ws_end(s, i);
                }
                if !(i <= e <= s.len()) {
                    Option::None
                } else {
                    let k = ws_end(s, e);
                    proof {
                        lemma_ws_end(s, e);
                    }
                    if k < s.len() && s[k] == 0x2c {
                        if k + 1 <= i {
                            Option::None
                        } else {
                            match scan_items(s, k + 1, false) {
                                Some((rest, end)) => Some((seq![v] + rest, end)),
                                Option::None => Option::None,
                            }
                        }
                    } else if k < s.len() && s[k] == 0x5d {
                        Some((seq![v], k + 1))
                    } else {
                        Option::None
                    }
                }
            },
            Option::None => Option::None,
        }
    }
}

/// Object fields from `i`: at the start (`first`) a closing brace means an
/// empty object; otherwise a key string, a colon and a value, then either a
/// comma and the rest or the closing brace.
pub open spec fn scan_fields(s: Seq<u8>, i: int, first: bool) -> Option<
    (Seq<(Seq<char>, JsonV)>, int),
>
    decreases s.len() - i, 2int,
    when 0 <= i <= s.len()
{
    let j = ws_end(s, i);
    proof {
        lemma_ws_end(s, i);
    }
    if first && j < s.len() && s[j] == 0x7d {
        Some((Seq::empty(), j + 1))
    } else if j < s.len() && s[j] == 0x22 {
        match scan_string(s, j + 1) {
            Some((key, e1)) => if !(i <= e1 <= s.len()) {
                Option::None
            } else {
                let m = ws_end(s, e1);
                proof {
                    lemma_ws_end(s, e1);
                }
                if m < s.len() && s[m] == 0x3a {
                    if !(m + 1 > i) {
                        Option::None
                    } else {
                        match scan_value(s, m + 1) {
                            Some((v, e2)) => if !(i <= e2 <= s.len()) {
                                Option::None
                            } else {
                                let k = ws_end(s, e2);
                                proof {
                                    lemma_ws_end(s, e2);
                                }
                                if k < s.len() && s[k] == 0x2c {
                                    if k + 1 <= i {
                                        Option::None
                                    } else {
                                        match scan_fields(s, k + 1, false) {
                                            Some((rest, end)) => Some(
                                                (seq![(key, v)] + rest, end),
                                            ),
                                            Option::None => Option::None,
                                        }
                                    }
                                } else if k < s.len() && s[k] == 0x7d {
                                    Some((seq![(key, v)], k + 1))
                                } else {
                                    Option::None
                                }
                            },
                            Option::None => Option::None,
                        }
                    }
                } else {
                    Option::None
                }
            },
            Option::None => Option::None,
        }
    } else {
        Option::None
    }
}

/// The scanned content with a prefix prepended, position unchanged.
spec fn with_prefix(o: Option<(Seq<u8>, int)>, pre: Seq<u8>) -> Option<(Seq<u8>, int)> {
    match o {
        Some((rest, end)) => Some((pre + rest, end)),
        Option::None => Option::None,
    }
}

/// `pow10` is positive.
proof fn lemma_pow10_pos(n: nat)
    ensures
        pow10(n) >= 1,
    decreases n,
{
    if n > 0 {
        lemma_pow10_pos((n - 1) as nat);
    }
}

/// `pow10` does not decrease as the exponent grows.
proof fn lemma_pow10_le(a: nat, b: nat)
    requires
        a <= b,
    ensures
        pow10(a) <= pow10(b),
    decreases b,
{
    if a < b {
        lemma_pow10_le(a, (b - 1) as nat);
        lemma_pow10_pos((b - 1) as nat);
    }
}

/// Skips whitespace.
fn ws_scan(s: &Vec<u8>, i: usize) -> (r: usize)
    requires
        i <= s@.len(),
    ensures
        r == ws_end(s@, i as int),
        i <= r <= s@.len(),
{
    let n = s.len();
    let mut k = i;
    while k < n && (s[k] == 0x20 || s[k] == 0x09 || s[k] == 0x0a || s[k] == 0x0d)
        invariant
            i <= k <= n,
            n == s@.len(),
            ws_end(s@, i as int) == ws_end(s@, k as int),
        decreases n - k,
    {
        k = k + 1;
    }
    proof {
        lemma_ws_end(s@, k as int);
    }
    k
}

/// Skips a digit run.
fn digits_scan(s: &Vec<u8>, i: usize) -> (r: usize)
    requires
        i <= s@.len(),
    ensures
        r == digits_end(s@, i as int),
        i <= r <= s@.len(),
{
    let n = s.len();
    let mut k = i;
    while k < n && 0x30 <= s[k] && s[k] <= 0x39
        invariant
            i <= k <= n,
            n == s@.len(),
            digits_end(s@, i as int) == digits_end(s@, k as int),
        decreases n - k,
    {
        k = k + 1;
    }
    proof {
        lemma_digits_end(s@, k as int);
    }
    k
}

/// Reads one hexadecimal digit byte.
fn hex_digit_val(b: u8) -> (r: Option<u32>)
    ensures
        r == hex_val(b),
        r matches Some(d) ==> d <= 0xf,
{
    if 0x30 <= b && b <= 0x39 {
        Some((b - 0x30) as u32)
    } else if 0x61 <= b && b <= 0x66 {
        Some((b - 0x57) as u32)
    } else if 0x41 <= b && b <= 0x46 {
        Some((b - 0x37) as u32)
    } else {
        None
    }
}

/// Reads four hexadecimal digits.
fn parse_hex4(s: &Vec<u8>, i: usize) -> (r: Option<u32>)
    requires
        i <= s@.len(),
    ensures
        r == scan_hex4(s@, i as int),
        r matches Some(cp) ==> cp <= 0xffff,
{
    if s.len() - i < 4 {
        return None;
    }
    let d0 = match hex_digit_val(s[i]) {
        Some(d) => d,
        None => {
            return None;
        },
    };
    let d1 = match hex_digit_val(s[i + 1]) {
        Some(d) => d,
        None => {
            return None;
        },
    };
    let d2 = match hex_digit_val(s[i + 2]) {
        Some(d) => d,
        None => {
            return None;
        },
    };
    let d3 = match hex_digit_val(s[i + 3]) {
        Some(d) => d,
        None => {
            return None;
        },
    };
    let cp: u32 = (d0 << 12u32) | (d1 << 8u32) | (d2 << 4u32) | d3;
    proof {
        assert((d0 << 12u32) | (d1 << 8u32) | (d2 << 4u32) | d3 <= 0xffff) by (bit_vector)
            requires
                d0 <= 0xf && d1 <= 0xf && d2 <= 0xf && d3 <= 0xf,
        ;
    }
    Some(cp)
}

/// Appends the UTF-8 encoding of a scalar.
fn push_scalar(out: &mut Vec<u8>, cp: u32)
    requires
        vstd::utf8::is_scalar(cp),
    ensures
        final (out)@ == old(out)@ + vstd::utf8::encode_scalar(cp),
{
    let ghost base = old(out)@;
    if cp <= 0x7f {
        out.push((cp & 0x7f) as u8);
    } else if cp <= 0x7ff {
        out.push(0xc0 | (((cp >> 6u32) & 0x1f) as u8));
        out.push(0x80 | ((cp & 0x3f) as u8));
    } else if cp <= 0xffff {
        out.push(0xe0 | (((cp >> 12u32) & 0x0f) as u8));
        out.push(0x80 | (((cp >> 6u32) & 0x3f) as u8));
        out.push(0x80 | ((cp & 0x3f) as u8));
    } else {
        out.push(0xf0 | (((cp >> 18u32) & 0x7) as u8));
        out.push(0x80 | (((cp >> 12u32) & 0x3f) as u8));
        out.push(0x80 | (((cp >> 6u32) & 0x3f) as u8));
        out.push(0x80 | ((cp & 0x3f) as u8));
    }
    proof {
        assert(out@ =~= base + vstd::utf8::encode_scalar(cp));
    }
}

/// Reads a string body from just after the opening quote.
fn parse_string_body(s: &Vec<u8>, start: usize) -> (r: Option<(String, usize)>)
    requires
        start <= s@.len(),
    ensures
        match r {
            Some((st, e)) => scan_string(s@, start as int) == Some((st@, e as int)) && start <= e
                <= s@.len(),
            Option::None => scan_string(s@, start as int) is None,
        },
{
    let n = s.len();
    let mut cur = start;
    let mut content: Vec<u8> = Vec::new();
    proof {
        let o = scan_string_bytes(s@, start as int);
        match o {
            Some((rest, end)) => {
                assert(Seq::<u8>::empty() + rest =~= rest);
            },
            Option::None => {},
        }
        assert(scan_string_bytes(s@, start as int) == with_prefix(o, Seq::<u8>::empty()));
    }
    loop
        invariant
            start <= cur <= n,
            n == s@.len(),
            scan_string_bytes(s@, start as int) == with_prefix(
                scan_string_bytes(s@, cur as int),
                content@,
            ),
        decreases n - cur,
    {
        if cur >= n {
            return None;
        }
        let b = s[cur];
        if b == 0x22 {
            proof {
                assert(scan_string_bytes(s@, cur as int) == Some(
                    (Seq::<u8>::empty(), cur + 1int),
                ));
                assert(content@ + Seq::<u8>::empty() =~= content@);
                assert(scan_string_bytes(s@, start as int) == Some((content@, cur + 1int)));
            }
            if utf8_check(&content) {
                let st = bytes_to_string_lossy(&content);
                return Some((st, cur + 1));
            } else {
                return None;
            }
        } else if b == 0x5c {
            if cur + 1 >= n {
                return None;
            }
            let e = s[cur + 1];
            let ghost before = content@;
            if e == 0x75 {
                match parse_hex4(s, cur + 2) {
                    Some(cp) => {
                        if 0xd800 <= cp && cp <= 0xdfff {
                            return None;
                        }
                        proof {
                            assert(vstd::utf8::is_scalar(cp)) by {
                                assert(cp <= 0xffff);
                            }
                        }
                        push_scalar(&mut content, cp);
                        proof {
                            let o = scan_string_bytes(s@, cur + 6);
                            assert(scan_string_bytes(s@, cur as int) == with_prefix(
                                o,
                                vstd::utf8::encode_scalar(cp),
                            ));
                            match o {
                                Some((rest, end)) => {
                                    assert(before + (vstd::utf8::encode_scalar(cp) + rest)
                                        =~= content@ + rest);
                                },
                                Option::None => {},
                            }
                            assert(scan_string_bytes(s@, start as int) == with_prefix(
                                o,
                                content@,
                            ));
                        }
                        cur = cur + 6;
                    },
                    None => {
                        return None;
                    },
                }
            } else {
                let decoded: u8;
                if e == 0x22 {
                    decoded = 0x22;
                } else if e == 0x5c {
                    decoded = 0x5c;
                } else if e == 0x2f {
                    decoded = 0x2f;
                } else if e == 0x6e {
                    decoded = 0x0a;
                } else if e == 0x72 {
                    decoded = 0x0d;
                } else if e == 0x74 {
                    decoded = 0x09;
                } else if e == 0x62 {
                    decoded = 0x08;
                } else if e == 0x66 {
                    decoded = 0x0c;
                } else {
                    return None;
                }
                content.push(decoded);
                proof {
                    let o = scan_string_bytes(s@, cur + 2);
                    assert(scan_string_bytes(s@, cur as int) == with_prefix(o, seq![decoded]));
                    match o {
                        Some((rest, end)) => {
                            assert(before + (seq![decoded] + rest) =~= content@ + rest);
                        },
                        Option::None => {},
                    }
                    assert(scan_string_bytes(s@, start as int) == with_prefix(o, content@));
                }
                cur = cur + 2;
            }
        } else {
            let ghost before = content@;
            content.push(b);
            proof {
                let o = scan_string_bytes(s@, cur + 1);
                assert(scan_string_bytes(s@, cur as int) == with_prefix(o, seq![b]));
                match o {
                    Some((rest, end)) => {
                        assert(before + (seq![b] + rest) =~= content@ + rest);
                    },
                    Option::None => {},
                }
                assert(scan_string_bytes(s@, start as int) == with_prefix(o, content@));
            }
            cur = cur + 1;
        }
    }
}

/// The value of a whole input: one value surrounded by whitespace and
/// nothing else.
pub open spec fn json_of_bytes(s: Seq<u8>) -> Option<JsonV> {
    match scan_value(s, 0) {
        Some((v, e)) => if 0 <= e <= s.len() && ws_end(s, e) == s.len() {
            Some(v)
        } else {
            Option::None
        },
        Option::None => Option::None,
    }
}

/// Every byte of a digit run is a digit.
proof fn lemma_digits_end_all(s: Seq<u8>, i: int)
    requires
        0 <= i <= s.len(),
    ensures
        forall|m: int| i <= m < digits_end(s, i) ==> is_digit(#[trigger] s[m]),
    decreases s.len() - i,
{
    if i < s.len() && is_digit(s[i]) {
        lemma_digits_end_all(s, i + 1);
        lemma_digits_end(s, i + 1);
    }
}

/// Reads a number.
fn parse_int_at(s: &Vec<u8>, i: usize) -> (r: Option<(i64, usize)>)
    requires
        i <= s@.len(),
    ensures
        match r {
            Some((m, e)) => scan_int(s@, i as int) == Some((JsonV::Int(m as int), e as int)) && i
                <= e <= s@.len(),
            Option::None => scan_int(s@, i as int) is None,
        },
{
    let n = s.len();
    let neg = i < n && s[i] == 0x2d;
    let j = if neg {
        i + 1
    } else {
        i
    };
    if !(j < n && 0x30 <= s[j] && s[j] <= 0x39) {
        return None;
    }
    let e = digits_scan(s, j);
    proof {
        lemma_digits_end_all(s@, j as int);
    }
    if s[j] == 0x30 && e > j + 1 {
        return None;
    }
    if e - j > 19 {
        return None;
    }
    let mut acc: u64 = 0;
    let mut k = j;
    proof {
        assert(pow10(19) == 10000000000000000000) by {
            reveal_with_fuel(pow10, 20);
        }
    }
    while k < e
        invariant
            j <= k <= e,
            e <= n,
            n == s@.len(),
            e == digits_end(s@, j as int),
            e - j <= 19,
            forall|m: int| j <= m < e ==> is_digit(#[trigger] s@[m]),
            acc == digits_val(s@, j as int, k as int),
            acc < pow10((k - j) as nat),
            pow10(19) == 10000000000000000000,
        decreases e - k,
    {
        proof {
            lemma_pow10_le((k - j) as nat, 18);
            assert(pow10(18) * 10 == pow10(19));
        }
        let d = (s[k] - 0x30) as u64;
        acc = acc * 10 + d;
        proof {
            assert(acc == digits_val(s@, j as int, k + 1));
            assert(pow10(((k + 1) - j) as nat) == pow10((k - j) as nat) * 10);
        }
        k = k + 1;
    }
    if neg {
        if acc > i64::MAX as u64 + 1 {
            return None;
        }
        let m: i64 = if acc == i64::MAX as u64 + 1 {
            i64::MIN
        } else {
            -(acc as i64)
        };
        Some((m, e))
    } else {
        if acc > i64::MAX as u64 {
            return None;
        }
        Some((acc as i64, e))
    }
}

/// Reads a value after optional whitespace.
fn parse_value_at(s: &Vec<u8>, i: usize) -> (r: Option<(Json, usize)>)
    requires
        i <= s@.len(),
    ensures
        match r {
            Some((v, e)) => scan_value(s@, i as int) == Some((v@, e as int)) && i <= e <= s@.len(),
            Option::None => scan_value(s@, i as int) is None,
        },
    decreases s@.len() - i, 0int,
{
    let n = s.len();
    let j = ws_scan(s, i);
    if j >= n {
        return None;
    }
    let b = s[j];
    if b == 0x6e {
        if n - j >= 4 && s[j + 1] == 0x75 && s[j + 2] == 0x6c && s[j + 3] == 0x6c {
            Some((Json::Null, j + 4))
        } else {
            None
        }
    } else if b == 0x74 {
        if n - j >= 4 && s[j + 1] == 0x72 && s[j + 2] == 0x75 && s[j + 3] == 0x65 {
            Some((Json::Bool(true), j + 4))
        } else {
            None
        }
    } else if b == 0x66 {
        if n - j >= 5 && s[j + 1] == 0x61 && s[j + 2] == 0x6c && s[j + 3] == 0x73 && s[j + 4]
            == 0x65 {
            Some((Json::Bool(false), j + 5))
        } else {
            None
        }
    } else if b == 0x22 {
        match parse_string_body(s, j + 1) {
            Some((st, e)) => Some((Json::Str(st), e)),
            None => None,
        }
    } else if b == 0x5b {
        match parse_items_at(s, j + 1, true) {
            Some((items, e)) => Some((Json::Arr(items), e)),
            None => None,
        }
    } else if b == 0x7b {
        match parse_fields_at(s, j + 1, true) {
            Some((fields, e)) => Some((Json::Obj(fields), e)),
            None => None,
        }
    } else if b == 0x2d || (0x30 <= b && b <= 0x39) {
        match parse_int_at(s, j) {
            Some((m, e)) => Some((Json::Int(m), e)),
            None => None,
        }
    } else {
        None
    }
}

/// Reads array elements.
fn parse_items_at(s: &Vec<u8>, i: usize, first: bool) -> (r: Option<(Vec<Json>, usize)>)
    requires
        i <= s@.len(),
    ensures
        match r {
            Some((items, e)) => scan_items(s@, i as int, first) == Some(
                (json_seq_view(items@), e as int),
            ) && i <= e <= s@.len(),
            Option::None => scan_items(s@, i as int, first) is None,
        },
    decreases s@.len() - i, 2int,
{
    let n = s.len();
    let j = ws_scan(s, i);
    if first && j < n && s[j] == 0x5d {
        let items: Vec<Json> = Vec::new();
        proof {
            assert(json_seq_view(items@) =~= Seq::<JsonV>::empty());
        }
        return Some((items, j + 1));
    }
    match parse_value_at(s, i) {
        None => None,
        Some((v, e)) => {
            let k = ws_scan(s, e);
            if k < n && s[k] == 0x2c {
                if k + 1 <= i {
                    return None;
                }
                match parse_items_at(s, k + 1, false) {
                    None => None,
                    Some((rest, end)) => {
                        let ghost tail = rest@;
                        let mut items = rest;
                        items.insert(0, v);
                        proof {
                            crate::json::lemma_json_seq_view(items@);
                            crate::json::lemma_json_seq_view(tail);
                            assert(items@ == tail.insert(0, v));
                            assert(json_seq_view(items@) =~= seq![v@] + json_seq_view(tail));
                        }
                        Some((items, end))
                    },
                }
            } else if k < n && s[k] == 0x5d {
                let mut items: Vec<Json> = Vec::new();
                items.push(v);
                proof {
                    crate::json::lemma_json_seq_view(items@);
                    assert(json_seq_view(items@) =~= seq![v@]);
                }
                Some((items, k + 1))
            } else {
                None
            }
        },
    }
}

/// Reads object fields.
fn parse_fields_at(s: &Vec<u8>, i: usize, first: bool) -> (r: Option<(Vec<(String, Json)>, usize)>)
    requires
        i <= s@.len(),
    ensures
        match r {
            Some((fields, e)) => scan_fields(s@, i as int, first) == Some(
                (json_fields_view(fields@), e as int),
            ) && i <= e <= s@.len(),
            Option::None => scan_fields(s@, i as int, first) is None,
        },
    decreases s@.len() - i, 2int,
{
    let n = s.len();
    let j = ws_scan(s, i);
    if first && j < n && s[j] == 0x7d {
        let fields: Vec<(String, Json)> = Vec::new();
        proof {
            assert(json_fields_view(fields@) =~= Seq::<(Seq<char>, JsonV)>::empty());
        }
        return Some((fields, j + 1));
    }
    if !(j < n && s[j] == 0x22) {
        return None;
    }
    match parse_string_body(s, j + 1) {
        None => None,
        Some((key, e1)) => {
            let m = ws_scan(s, e1);
            if !(m < n && s[m] == 0x3a) {
                return None;
            }
            if !(m + 1 > i) {
                return None;
            }
            match parse_value_at(s, m + 1) {
                None => None,
                Some((v, e2)) => {
                    let k = ws_scan(s, e2);
                    if k < n && s[k] == 0x2c {
                        if k + 1 <= i {
                            return None;
                        }
                        match parse_fields_at(s, k + 1, false) {
                            None => None,
                            Some((rest, end)) => {
                                let ghost tail = rest@;
                                let ghost keyv = key@;
                                let ghost vv = v@;
                                let mut fields = rest;
                                fields.insert(0, (key, v));
                                proof {
                                    crate::json::lemma_json_fields_view(fields@);
                                    crate::json::lemma_json_fields_view(tail);
                                    assert(fields@ == tail.insert(0, (key, v)));
                                    assert(json_fields_view(fields@) =~= seq![(keyv, vv)]
                                        + json_fields_view(tail));
                                }
                                Some((fields, end))
                            },
                        }
                    } else if k < n && s[k] == 0x7d {
                        let ghost keyv = key@;
                        let ghost vv = v@;
                        let mut fields: Vec<(String, Json)> = Vec::new();
                        fields.push((key, v));
                        proof {
                            crate::json::lemma_json_fields_view(fields@);
                            assert(json_fields_view(fields@) =~= seq![(keyv, vv)]);
                        }
                        Some((fields, k + 1))
                    } else {
                        None
                    }
                },
            }
        },
    }
}

/// Parses a whole input: one value surrounded by whitespace and nothing
/// else.
pub fn parse_json(bytes: &Vec<u8>) -> (r: Option<Json>)
    ensures
        match r {
            Some(v) => json_of_bytes(bytes@) == Some(v@),
            Option::None => json_of_bytes(bytes@) is None,
        },
{
    match parse_value_at(bytes, 0) {
        None => None,
        Some((v, e)) => {
            let t = ws_scan(bytes, e);
            if t == bytes.len() {
                Some(v)
            } else {
                None
            }
        },
    }
}


/// A delimiter that may follow a printed value: whitespace, a comma, or a
/// closing bracket or brace.
pub open spec fn is_delim(b: u8) -> bool {
    is_ws(b) || b == 0x2c || b == 0x5d || b == 0x7d
}

/// Every number in the value fits the signed 64-bit range the wire format
/// carries.
pub open spec fn json_in_range(v: JsonV) -> bool
    decreases v,
{
    match v {
        JsonV::Null => true,
        JsonV::Bool(_) => true,
        JsonV::Int(m) => i64::MIN <= m <= i64::MAX,
        JsonV::Str(_) => true,
        JsonV::Arr(items) => forall|k: int|
            0 <= k < items.len() ==> json_in_range(#[trigger] items[k]),
        JsonV::Obj(fields) => forall|k: int|
            0 <= k < fields.len() ==> json_in_range((#[trigger] fields[k]).1),
    }
}

/// The model of every held value is in range: the held numbers are signed
/// 64-bit integers to begin with.
pub proof fn lemma_view_in_range(j: &Json)
    ensures
        json_in_range(j@),
    decreases j,
{
    match j {
        Json::Arr(items) => {
            crate::json::lemma_json_seq_view(items@);
            let s = json_seq_view(items@);
            assert forall|k: int| 0 <= k < s.len() implies json_in_range(#[trigger] s[k]) by {
                lemma_view_in_range(&items[k]);
            }
        },
        Json::Obj(fields) => {
            crate::json::lemma_json_fields_view(fields@);
            let s = json_fields_view(fields@);
            assert forall|k: int| 0 <= k < s.len() implies json_in_range(
                (#[trigger] s[k]).1,
            ) by {
                lemma_view_in_range(&fields[k].1);
            }
        },
        _ => {},
    }
}

/// Splits a matched region into its two parts.
proof fn lemma_region(s: Seq<u8>, i: int, a: Seq<u8>, b: Seq<u8>)
    requires
        0 <= i,
        i + a.len() + b.len() <= s.len(),
        s.subrange(i, i + a.len() + b.len()) == a + b,
    ensures
        s.subrange(i, i + a.len() as int) =~= a,
        s.subrange(i + a.len() as int, i + a.len() + b.len()) =~= b,
{
    assert forall|k: int| 0 <= k < a.len() implies #[trigger] s.subrange(
        i,
        i + a.len() as int,
    )[k] == a[k] by {
        assert(s.subrange(i, i + a.len() as int)[k] == s[i + k]);
        assert(s[i + k] == s.subrange(i, i + a.len() + b.len())[k]);
        assert((a + b)[k] == a[k]);
    }
    assert forall|k: int| 0 <= k < b.len() implies #[trigger] s.subrange(
        i + a.len() as int,
        i + a.len() + b.len(),
    )[k] == b[k] by {
        assert(s.subrange(i + a.len() as int, i + a.len() + b.len())[k] == s[i + a.len() + k]);
        assert(s[i + a.len() + k] == s.subrange(i, i + a.len() + b.len())[a.len() + k]);
        assert((a + b)[a.len() + k] == b[k]);
    }
}

/// Reading back a printed value yields the value, whatever delimited
/// content follows.
proof fn lemma_scan_print(s: Seq<u8>, i: int, v: JsonV)
    requires
        json_in_range(v),
        0 <= i,
        i + print_json(v).len() <= s.len(),
        s.subrange(i, i + print_json(v).len() as int) == print_json(v),
        i + print_json(v).len() == s.len() || is_delim(s[i + print_json(v).len()]),
    ensures
        scan_value(s, i) == Some((v, i + print_json(v).len() as int)),
    decreases v, 0int,
{
    lemma_print_shape(v);
    let p = print_json(v);
    let plen = p.len() as int;
    assert forall|k: int| 0 <= k < plen implies s[i + k] == #[trigger] p[k] by {
        assert(s[i + k] == s.subrange(i, i + plen)[k]);
    }
    assert(s[i] == p[0]);
    assert(ws_end(s, i) == i);
    match v {
        JsonV::Null => {
            assert(p == seq![0x6eu8, 0x75, 0x6c, 0x6c]);
            assert(s[i] == 0x6e && s[i + 1] == 0x75 && s[i + 2] == 0x6c && s[i + 3] == 0x6c);
        },
        JsonV::Bool(b) => {
            if b {
                assert(p == seq![0x74u8, 0x72, 0x75, 0x65]);
                assert(s[i] == 0x74 && s[i + 1] == 0x72 && s[i + 2] == 0x75 && s[i + 3] == 0x65);
            } else {
                assert(p == seq![0x66u8, 0x61, 0x6c, 0x73, 0x65]);
                assert(s[i] == 0x66 && s[i + 1] == 0x61 && s[i + 2] == 0x6c && s[i + 3] == 0x73
                    && s[i + 4] == 0x65);
            }
        },
        JsonV::Int(m) => {
            assert(p == ascii_bytes(dec_rep_signed(m)));
            assert(i + plen == s.len() || !is_digit(s[i + plen]));
            lemma_scan_int_print(s, i, m);
            assert(s[i] != 0x6e && s[i] != 0x74 && s[i] != 0x66 && s[i] != 0x22 && s[i] != 0x5b
                && s[i] != 0x7b) by {
                if m < 0 {
                    assert(p[0] == 0x2d);
                } else {
                    lemma_dec_rep_digits(m as nat);
                    assert(p[0] == dec_rep(m as nat)[0] as u8);
                }
            }
            assert(s[i] == 0x2d || is_digit(s[i]));
        },
        JsonV::Str(cs) => {
            let content = escape_bytes(encode_utf8(cs));
            assert(p == seq![0x22u8] + (content + seq![0x22u8]));
            lemma_region(s, i, seq![0x22u8], content + seq![0x22u8]);
            lemma_region(s, i + 1, content, seq![0x22u8]);
            assert(s[i + 1 + content.len()] == s.subrange(
                i + 1 + content.len() as int,
                i + 1 + content.len() + 1,
            )[0]);
            lemma_scan_escaped(s, i + 1, encode_utf8(cs));
            vstd::utf8::encode_utf8_valid_utf8(cs);
            vstd::utf8::encode_utf8_decode_utf8(cs);
            assert(scan_string(s, i + 1) == Some((cs, i + plen)));
        },
        JsonV::Arr(items) => {
            let body = print_items(items);
            assert(p == seq![0x5bu8] + (body + seq![0x5du8]));
            lemma_region(s, i, seq![0x5bu8], body + seq![0x5du8]);
            lemma_region(s, i + 1, body, seq![0x5du8]);
            assert(s[i + 1 + body.len()] == s.subrange(
                i + 1 + body.len() as int,
                i + 1 + body.len() + 1,
            )[0]);
            if items.len() == 0 {
                assert(body =~= Seq::<u8>::empty());
                assert(s[i + 1] == 0x5d);
                assert(ws_end(s, i + 1) == i + 1);
                assert(scan_items(s, i + 1, true) == Some((Seq::<JsonV>::empty(), i + 2)));
                assert(items =~= Seq::<JsonV>::empty());
            } else {
                lemma_scan_items_print(s, i + 1, items);
            }
        },
        JsonV::Obj(fields) => {
            let body = print_fields(fields);
            assert(p == seq![0x7bu8] + (body + seq![0x7du8]));
            lemma_region(s, i, seq![0x7bu8], body + seq![0x7du8]);
            lemma_region(s, i + 1, body, seq![0x7du8]);
            assert(s[i + 1 + body.len()] == s.subrange(
                i + 1 + body.len() as int,
                i + 1 + body.len() + 1,
            )[0]);
            if fields.len() == 0 {
                assert(body =~= Seq::<u8>::empty());
                assert(s[i + 1] == 0x7d);
                assert(ws_end(s, i + 1) == i + 1);
                assert(scan_fields(s, i + 1, true) == Some(
                    (Seq::<(Seq<char>, JsonV)>::empty(), i + 2),
                ));
                assert(fields =~= Seq::<(Seq<char>, JsonV)>::empty());
            } else {
                lemma_scan_fields_print(s, i + 1, fields);
            }
        },
    }
}

/// Reading back printed array elements, with the closing bracket after
/// them, yields the elements.
proof fn lemma_scan_items_print(s: Seq<u8>, i: int, items: Seq<JsonV>)
    requires
        items.len() > 0,
        forall|k: int| 0 <= k < items.len() ==> json_in_range(#[trigger] items[k]),
        0 <= i,
        i + print_items(items).len() + 1 <= s.len(),
        s.subrange(i, i + print_items(items).len() as int) == print_items(items),
        s[i + print_items(items).len()] == 0x5d,
    ensures
        scan_items(s, i, true) == Some((items, i + print_items(items).len() + 1)),
        scan_items(s, i, false) == Some((items, i + print_items(items).len() + 1)),
    decreases items, 1int,
{
    let body = print_items(items);
    let blen = body.len() as int;
    let head = print_json(items[0]);
    let hlen = head.len() as int;
    lemma_print_shape(items[0]);
    assert(items[0] == items.first());
    if items.len() == 1 {
        assert(body == head);
        assert(is_delim(s[i + hlen]));
        lemma_scan_print(s, i, items[0]);
        assert(ws_end(s, i) == i) by {
            assert(s[i] == s.subrange(i, i + blen)[0]);
        }
        assert(s[i] != 0x5d) by {
            assert(s[i] == s.subrange(i, i + blen)[0]);
            assert(body[0] == head[0]);
        }
        assert(ws_end(s, i + hlen) == i + hlen);
        assert(scan_items(s, i, true) == Some((seq![items[0]], i + hlen + 1)));
        assert(scan_items(s, i, false) == Some((seq![items[0]], i + hlen + 1)));
        assert(seq![items[0]] =~= items);
    } else {
        let rest = items.drop_first();
        let rbody = print_items(rest);
        assert(body == head + (seq![0x2cu8] + rbody));
        lemma_region(s, i, head, seq![0x2cu8] + rbody);
        lemma_region(s, i + hlen, seq![0x2cu8], rbody);
        assert(s[i + hlen] == s.subrange(i + hlen, i + hlen + 1)[0]);
        assert(s[i + hlen] == 0x2c);
        assert(is_delim(s[i + hlen]));
        lemma_scan_print(s, i, items[0]);
        assert(ws_end(s, i) == i) by {
            assert(s[i] == s.subrange(i, i + blen)[0]);
        }
        assert(s[i] != 0x5d) by {
            assert(s[i] == s.subrange(i, i + blen)[0]);
            assert(body[0] == head[0]);
        }
        assert(ws_end(s, i + hlen) == i + hlen);
        assert forall|k: int| 0 <= k < rest.len() implies json_in_range(
            #[trigger] rest[k],
        ) by {
            assert(rest[k] == items[k + 1]);
        }
        assert(i + hlen + 1 + rbody.len() == i + blen);
        lemma_scan_items_print(s, i + hlen + 1, rest);
        assert(scan_items(s, i + hlen + 1, false) == Some((rest, i + blen + 1)));
        assert(seq![items[0]] + rest =~= items);
    }
}

/// Reading back printed object fields, with the closing brace after them,
/// yields the fields.
proof fn lemma_scan_fields_print(s: Seq<u8>, i: int, fields: Seq<(Seq<char>, JsonV)>)
    requires
        fields.len() > 0,
        forall|k: int| 0 <= k < fields.len() ==> json_in_range((#[trigger] fields[k]).1),
        0 <= i,
        i + print_fields(fields).len() + 1 <= s.len(),
        s.subrange(i, i + print_fields(fields).len() as int) == print_fields(fields),
        s[i + print_fields(fields).len()] == 0x7d,
    ensures
        scan_fields(s, i, true) == Some((fields, i + print_fields(fields).len() + 1)),
        scan_fields(s, i, false) == Some((fields, i + print_fields(fields).len() + 1)),
    decreases fields, 1int,
{
    let body = print_fields(fields);
    let blen = body.len() as int;
    let key = fields[0].0;
    let val = fields[0].1;
    let ks = print_string(key);
    let kslen = ks.len() as int;
    let vp = print_json(val);
    let vplen = vp.len() as int;
    let head = ks + seq![0x3au8] + vp;
    let hlen = head.len() as int;
    assert(fields[0] == fields.first());
    if fields.len() == 1 {
        assert(body == head);
        assert(body == ks + (seq![0x3au8] + vp)) by {
            assert(ks + seq![0x3au8] + vp =~= ks + (seq![0x3au8] + vp));
        }
        lemma_region(s, i, ks, seq![0x3au8] + vp);
        lemma_region(s, i + kslen, seq![0x3au8], vp);
        lemma_fields_key(s, i, key, kslen);
        assert(s[i + kslen] == s.subrange(i + kslen, i + kslen + 1)[0]);
        assert(s[i + kslen] == 0x3a);
        assert(is_delim(s[i + blen]) || s[i + blen] == 0x7d);
        lemma_scan_print(s, i + kslen + 1, val);
        assert(ws_end(s, i + kslen) == i + kslen);
        assert(ws_end(s, i + kslen + 1 + vplen) == i + kslen + 1 + vplen);
        assert(scan_fields(s, i, true) == Some((seq![(key, val)], i + blen + 1)));
        assert(scan_fields(s, i, false) == Some((seq![(key, val)], i + blen + 1)));
        assert(seq![(key, val)] =~= fields);
    } else {
        let rest = fields.drop_first();
        let rbody = print_fields(rest);
        assert(body == head + (seq![0x2cu8] + rbody));
        lemma_region(s, i, head, seq![0x2cu8] + rbody);
        lemma_region(s, i + hlen, seq![0x2cu8], rbody);
        assert(head == ks + (seq![0x3au8] + vp)) by {
            assert(ks + seq![0x3au8] + vp =~= ks + (seq![0x3au8] + vp));
        }
        lemma_region(s, i, ks, seq![0x3au8] + vp);
        lemma_region(s, i + kslen, seq![0x3au8], vp);
        lemma_fields_key(s, i, key, kslen);
        assert(s[i + kslen] == s.subrange(i + kslen, i + kslen + 1)[0]);
        assert(s[i + kslen] == 0x3a);
        assert(s[i + hlen] == s.subrange(i + hlen, i + hlen + 1)[0]);
        assert(s[i + hlen] == 0x2c);
        lemma_scan_print(s, i + kslen + 1, val);
        assert(ws_end(s, i + kslen) == i + kslen);
        assert(ws_end(s, i + hlen) == i + hlen);
        assert forall|k: int| 0 <= k < rest.len() implies json_in_range(
            (#[trigger] rest[k]).1,
        ) by {
            assert(rest[k] == fields[k + 1]);
        }
        assert(i + hlen + 1 + rbody.len() == i + blen);
        lemma_scan_fields_print(s, i + hlen + 1, rest);
        assert(seq![(key, val)] + rest =~= fields);
    }
}

/// The key string of a printed field reads back as the key.
proof fn lemma_fields_key(s: Seq<u8>, i: int, key: Seq<char>, kslen: int)
    requires
        0 <= i,
        kslen == print_string(key).len(),
        i + kslen + 1 <= s.len(),
        s.subrange(i, i + kslen) == print_string(key),
    ensures
        ws_end(s, i) == i,
        s[i] == 0x22,
        scan_string(s, i + 1) == Some((key, i + kslen)),
{
    let content = escape_bytes(encode_utf8(key));
    assert(print_string(key) == seq![0x22u8] + (content + seq![0x22u8])) by {
        assert(seq![0x22u8] + content + seq![0x22u8] =~= seq![0x22u8] + (content
            + seq![0x22u8]));
    }
    lemma_region(s, i, seq![0x22u8], content + seq![0x22u8]);
    lemma_region(s, i + 1, content, seq![0x22u8]);
    assert(s[i] == s.subrange(i, i + 1)[0]);
    assert(s[i + 1 + content.len()] == s.subrange(
        i + 1 + content.len() as int,
        i + 1 + content.len() + 1,
    )[0]);
    lemma_scan_escaped(s, i + 1, encode_utf8(key));
    vstd::utf8::encode_utf8_valid_utf8(key);
    vstd::utf8::encode_utf8_decode_utf8(key);
}

/// Printing a value and parsing the result yields the value back: the
/// wire codec loses nothing.
pub proof fn lemma_json_roundtrip(v: JsonV)
    requires
        json_in_range(v),
    ensures
        json_of_bytes(print_json(v)) == Some(v),
{
    let p = print_json(v);
    assert(p.subrange(0, p.len() as int) =~= p);
    lemma_scan_print(p, 0, v);
    lemma_ws_end(p, p.len() as int);
}

} // verus!
