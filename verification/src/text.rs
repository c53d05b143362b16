//! Text building blocks: decimal rendering of integers and the one bridge
//! from raw bytes to owned strings.

use vstd::prelude::*;

use vstd::utf8::{
    decode_utf8, encode_utf8, encode_utf8_decode_utf8, is_ascii_chars, is_ascii_chars_encode_utf8,
    valid_utf8,
};

verus! {

broadcast use vstd::std_specs::vec::group_vec_axioms, vstd::seq::group_seq_axioms;

/// The character of one decimal digit.
pub open spec fn digit_char(d: nat) -> char {
    ((d + 0x30) as u8) as char
}

/// The decimal rendering of a non-negative number, most significant digit
/// first, without leading zeroes.
pub open spec fn dec_rep(n: nat) -> Seq<char>
    decreases n,
{
    if n < 10 {
        seq![digit_char(n)]
    } else {
        dec_rep(n / 10).push(digit_char(n % 10))
    }
}

/// The decimal rendering of a signed number: a minus sign before the
/// rendering of its magnitude.
pub open spec fn dec_rep_signed(n: int) -> Seq<char> {
    if n < 0 {
        seq!['-'] + dec_rep((-n) as nat)
    } else {
        dec_rep(n as nat)
    }
}

/// Relies on String::from_utf8_lossy: bytes that are valid UTF-8 decode to
/// exactly the characters they encode.
#[verifier::external_body]
pub fn bytes_to_string_lossy(bytes: &Vec<u8>) -> (s: String)
    ensures
        valid_utf8(bytes@) ==> s@ == decode_utf8(bytes@),
{
    String::from_utf8_lossy(bytes.as_slice()).into_owned()
}

/// Characters of a byte sequence that stays below 0x80.
pub open spec fn ascii_chars_of(bytes: Seq<u8>) -> Seq<char> {
    bytes.map_values(|b: u8| b as char)
}

/// A sequence of bytes below 0x80 encodes, as UTF-8, exactly its bytes read
/// as characters.
pub proof fn lemma_ascii_decode(bytes: Seq<u8>)
    requires
        forall|i: int| 0 <= i < bytes.len() ==> #[trigger] bytes[i] < 0x80,
    ensures
        valid_utf8(bytes),
        decode_utf8(bytes) == ascii_chars_of(bytes),
{
    let chars = ascii_chars_of(bytes);
    assert(is_ascii_chars(chars)) by {
        assert forall|i: int| 0 <= i < chars.len() implies '\0' <= #[trigger] chars[i]
            <= '\u{7f}' by {
            assert(chars[i] == bytes[i] as char);
        }
    }
    is_ascii_chars_encode_utf8(chars);
    assert(encode_utf8(chars) =~= bytes) by {
        assert forall|i: int| 0 <= i < bytes.len() implies #[trigger] encode_utf8(chars)[i]
            == bytes[i] by {
            assert(chars[i] as u8 == encode_utf8(chars)[i]);
            assert(chars[i] == bytes[i] as char);
        }
    }
    vstd::utf8::encode_utf8_valid_utf8(chars);
    encode_utf8_decode_utf8(chars);
}

/// Renders a number in decimal.
pub fn u64_to_string(n: u64) -> (s: String)
    ensures
        s@ == dec_rep(n as nat),
{
    let mut rev: Vec<u8> = Vec::new();
    let mut m: u64 = n;
    loop
        invariant_except_break
            dec_rep(n as nat) =~= dec_rep(m as nat) + ascii_chars_of(rev@).reverse(),
        invariant
            forall|i: int| 0 <= i < rev@.len() ==> 0x30 <= #[trigger] rev@[i] <= 0x39,
        ensures
            dec_rep(n as nat) =~= ascii_chars_of(rev@).reverse(),
            forall|i: int| 0 <= i < rev@.len() ==> 0x30 <= #[trigger] rev@[i] <= 0x39,
            rev@.len() > 0,
        decreases m,
    {
        let ghost m0 = m as nat;
        let ghost rev0 = rev@;
        let d: u8 = (m % 10) as u8 + 0x30;
        rev.push(d);
        m = m / 10;
        proof {
            assert(d as char == digit_char(m0 % 10));
            assert(ascii_chars_of(rev@) =~= ascii_chars_of(rev0).push(digit_char(m0 % 10)));
            if m0 < 10 {
                assert(dec_rep(m0) == seq![digit_char(m0)]);
                assert(m0 % 10 == m0);
                assert(ascii_chars_of(rev@).reverse() =~= seq![digit_char(m0)]
                    + ascii_chars_of(rev0).reverse());
                assert(dec_rep(n as nat) =~= ascii_chars_of(rev@).reverse());
            } else {
                assert(dec_rep(m0) == dec_rep(m0 / 10).push(digit_char(m0 % 10)));
                assert(ascii_chars_of(rev@).reverse() =~= seq![digit_char(m0 % 10)]
                    + ascii_chars_of(rev0).reverse());
                assert(dec_rep(m0) + ascii_chars_of(rev0).reverse() =~= dec_rep(m0 / 10)
                    + ascii_chars_of(rev@).reverse());
            }
        }
        if m == 0 {
            break ;
        }
    }
    let k = rev.len();
    let mut bytes: Vec<u8> = Vec::new();
    let mut j: usize = k;
    while j > 0
        invariant
            0 <= j <= k,
            k == rev@.len(),
            bytes@.len() == k - j,
            forall|i: int| 0 <= i < rev@.len() ==> 0x30 <= #[trigger] rev@[i] <= 0x39,
            forall|i: int| 0 <= i < bytes@.len() ==> #[trigger] bytes@[i] == rev@[k - 1 - i],
        decreases j,
    {
        j = j - 1;
        bytes.push(rev[j]);
    }
    proof {
        assert(bytes@ =~= rev@.reverse());
        assert forall|i: int| 0 <= i < bytes@.len() implies #[trigger] bytes@[i] < 0x80 by {
            assert(bytes@[i] == rev@[k - 1 - i]);
        }
        lemma_ascii_decode(bytes@);
        assert(ascii_chars_of(bytes@) =~= ascii_chars_of(rev@).reverse());
    }
    bytes_to_string_lossy(&bytes)
}

/// Renders a signed number in decimal.
pub fn i64_to_string(n: i64) -> (s: String)
    ensures
        s@ == dec_rep_signed(n as int),
{
    if n >= 0 {
        u64_to_string(n as u64)
    } else {
        let neg: i128 = -(n as i128);
        proof {
            assert(0 < neg <= u64::MAX as i128);
        }
        let magnitude: u64 = neg as u64;
        proof {
            assert(magnitude == (-(n as int)));
        }
        let rendered = u64_to_string(magnitude);
        let s = String::from_str("-").concat(rendered.as_str());
        proof {
            reveal_strlit("-");
            assert(s@ =~= dec_rep_signed(n as int));
        }
        s
    }
}

/// Renders an index in decimal.
pub fn usize_to_string(n: usize) -> (s: String)
    ensures
        s@ == dec_rep(n as nat),
{
    u64_to_string(n as u64)
}

} // verus!
