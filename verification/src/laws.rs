//! The guarantees that relate the codec's functions to one another: both
//! round trips, and the shape of everything the encoder emits.

use vstd::prelude::*;
use crate::codec::{
    encode_byte,
    hex_digit_of,
    hex_digit_value,
    hex_pair_value,
    is_hex_digit,
    is_unreserved,
    is_upper_hex_digit,
    spec_decode_lenient,
    spec_decode_strict,
    spec_encode,
};
use crate::text::spec_decode_text;
use crate::utf8::spec_is_utf8;

verus! {

/// A value below 16 is encoded as an uppercase hexadecimal digit that reads
/// back as that value.
pub proof fn lemma_hex_digit_round_trip(n: u8)
    requires
        n < 16,
    ensures
        is_upper_hex_digit(hex_digit_of(n)),
        hex_digit_value(hex_digit_of(n)) == n,
{
}

/// The two digits the encoder writes for a byte denote that byte.
pub proof fn lemma_hex_pair_of_byte(b: u8)
    ensures
        b >> 4 < 16,
        b & 15 < 16,
        hex_pair_value(hex_digit_of(b >> 4), hex_digit_of(b & 15)) == b,
{
    assert(b >> 4 < 16 && b & 15 < 16) by (bit_vector);
    lemma_hex_digit_round_trip(b >> 4);
    lemma_hex_digit_round_trip(b & 15);
    assert(((b >> 4) << 4) | (b & 15) == b) by (bit_vector);
}

/// Strict decoding inverts encoding, on every byte sequence.
pub proof fn lemma_strict_decode_of_encode(b: Seq<u8>)
    ensures
        spec_decode_strict(spec_encode(b)) == Some(b),
    decreases b.len(),
{
    if b.len() == 0 {
        assert(b =~= Seq::<u8>::empty());
    } else {
        let b0 = b[0];
        let tail = b.skip(1);
        let te = spec_encode(tail);
        let e = spec_encode(b);
        lemma_strict_decode_of_encode(tail);
        if is_unreserved(b0) {
            assert(e == seq![b0] + te);
            assert(e[0] == b0 && b0 != 0x25);
            assert(e.skip(1) =~= te);
            assert(seq![b0] + tail =~= b);
        } else {
            lemma_hex_pair_of_byte(b0);
            let h1 = hex_digit_of(b0 >> 4);
            let h2 = hex_digit_of(b0 & 15);
            assert(e == seq![0x25u8, h1, h2] + te);
            assert(e[0] == 0x25 && e[1] == h1 && e[2] == h2);
            assert(is_hex_digit(h1) && is_hex_digit(h2));
            assert(e.skip(3) =~= te);
            assert(hex_pair_value(e[1], e[2]) == b0);
            assert(seq![b0] + tail =~= b);
        }
    }
}

/// Wherever strict decoding succeeds, permissive decoding returns the same
/// bytes.
pub proof fn lemma_strict_implies_lenient(s: Seq<u8>)
    ensures
        spec_decode_strict(s) matches Some(d) ==> spec_decode_lenient(s) == d,
    decreases s.len(),
{
    if s.len() == 0 {
    } else if s[0] != 0x25 {
        lemma_strict_implies_lenient(s.skip(1));
    } else if s.len() >= 3 && is_hex_digit(s[1]) && is_hex_digit(s[2]) {
        lemma_strict_implies_lenient(s.skip(3));
    }
}

/// Round trip over arbitrary bytes: permissively decoding an encoded byte
/// sequence gives the bytes back.
pub proof fn lemma_round_trip_bytes(b: Seq<u8>)
    ensures
        spec_decode_lenient(spec_encode(b)) == b,
{
    lemma_strict_decode_of_encode(b);
    lemma_strict_implies_lenient(spec_encode(b));
}

/// Round trip over text: strictly decoding encoded UTF-8 text succeeds and
/// gives the text back.
pub proof fn lemma_round_trip_text(t: Seq<u8>)
    requires
        spec_is_utf8(t),
    ensures
        spec_decode_text(spec_encode(t)) == Some(t),
{
    lemma_strict_decode_of_encode(t);
}

/// The shape of encoder output: every byte is unreserved or `%`, and every
/// `%` is followed by exactly two uppercase hexadecimal digits.
pub open spec fn is_encoded_form(s: Seq<u8>) -> bool {
    &&& forall|i: int| 0 <= i < s.len() ==> is_unreserved(#[trigger] s[i]) || s[i] == 0x25
    &&& forall|i: int|
        0 <= i < s.len() && #[trigger] s[i] == 0x25 ==> i + 3 <= s.len() && is_upper_hex_digit(
            s[i + 1],
        ) && is_upper_hex_digit(s[i + 2])
}

/// Everything the encoder emits has that shape.
pub proof fn lemma_encode_is_encoded_form(b: Seq<u8>)
    ensures
        is_encoded_form(spec_encode(b)),
    decreases b.len(),
{
    if b.len() == 0 {
    } else {
        let b0 = b[0];
        let e0 = encode_byte(b0);
        let te = spec_encode(b.skip(1));
        let e = spec_encode(b);
        lemma_encode_is_encoded_form(b.skip(1));
        assert(e == e0 + te);
        if !is_unreserved(b0) {
            lemma_hex_pair_of_byte(b0);
            lemma_hex_digit_round_trip(b0 >> 4);
            lemma_hex_digit_round_trip(b0 & 15);
        }
        let k = e0.len() as int;
        assert forall|i: int| 0 <= i < e.len() implies is_unreserved(#[trigger] e[i]) || e[i]
            == 0x25 by {
            if i >= k {
                assert(e[i] == te[i - k]);
            }
        }
        assert forall|i: int| 0 <= i < e.len() && #[trigger] e[i] == 0x25 implies i + 3 <= e.len()
            && is_upper_hex_digit(e[i + 1]) && is_upper_hex_digit(e[i + 2]) by {
            if i < k {
                assert(i == 0 && !is_unreserved(b0));
                assert(e[1] == e0[1] && e[2] == e0[2]);
            } else {
                let j = i - k;
                assert(e[i] == te[j]);
                assert(j + 3 <= te.len());
                assert(e[i + 1] == te[j + 1] && e[i + 2] == te[j + 2]);
            }
        }
    }
}

/// A sequence of ASCII bytes is well-formed UTF-8.
pub proof fn lemma_ascii_is_utf8(s: Seq<u8>)
    requires
        forall|i: int| 0 <= i < s.len() ==> #[trigger] s[i] <= 0x7f,
    ensures
        spec_is_utf8(s),
    decreases s.len(),
{
    if s.len() > 0 {
        assert forall|i: int| 0 <= i < s.skip(1).len() implies #[trigger] s.skip(1)[i] <= 0x7f by {
            assert(s.skip(1)[i] == s[i + 1]);
        }
        lemma_ascii_is_utf8(s.skip(1));
    }
}

/// Encoder output is ASCII, hence itself well-formed UTF-8 text.
pub proof fn lemma_encode_output_is_text(b: Seq<u8>)
    ensures
        spec_is_utf8(spec_encode(b)),
{
    lemma_encode_is_encoded_form(b);
    lemma_ascii_is_utf8(spec_encode(b));
}

/// Encoder output never contains a zero byte, so it always fits in a
/// null-terminated buffer.
pub proof fn lemma_encode_has_no_nul(b: Seq<u8>)
    ensures
        forall|i: int| 0 <= i < spec_encode(b).len() ==> #[trigger] spec_encode(b)[i] != 0,
{
    lemma_encode_is_encoded_form(b);
}

} // verus!
