//! The boundary layer as seen through values: a missing pointer is `None`,
//! and every failure of an operation is `None`, exactly as the C surface
//! signals failure with a null pointer. Results are meant to be handed out as
//! null-terminated buffers, so a decoded sequence that contains a zero byte
//! cannot be returned and yields `None` as well.

use vstd::prelude::*;
use crate::codec;
use crate::laws;
use crate::text;
use crate::utf8;

verus! {

/// The byte sequence contains a zero byte, so it cannot be carried in a
/// null-terminated buffer.
pub open spec fn has_nul(s: Seq<u8>) -> bool {
    exists|i: int| 0 <= i < s.len() && s[i] == 0
}

/// What `encode` answers for a present input: the encoding of UTF-8 text,
/// nothing otherwise.
pub open spec fn spec_encode_response(d: Seq<u8>) -> Option<Seq<u8>> {
    if utf8::spec_is_utf8(d) {
        Some(codec::spec_encode(d))
    } else {
        None
    }
}

/// What `encode_binary` answers for a present input: the encoding, always.
pub open spec fn spec_encode_binary_response(d: Seq<u8>) -> Option<Seq<u8>> {
    Some(codec::spec_encode(d))
}

/// What `decode` answers for a present input: the strict text decode, failing
/// on non-UTF-8 input, on a malformed escape, on non-UTF-8 decoded bytes, and
/// on a decoded zero byte.
pub open spec fn spec_decode_response(d: Seq<u8>) -> Option<Seq<u8>> {
    if !utf8::spec_is_utf8(d) {
        None
    } else {
        match text::spec_decode_text(d) {
            Some(out) => if has_nul(out) {
                None
            } else {
                Some(out)
            },
            None => None,
        }
    }
}

/// What `decode_binary` answers for a present input: the permissive decode,
/// which only fails on a decoded zero byte.
pub open spec fn spec_decode_binary_response(d: Seq<u8>) -> Option<Seq<u8>> {
    let out = codec::spec_decode_lenient(d);
    if has_nul(out) {
        None
    } else {
        Some(out)
    }
}

/// Decide whether a byte sequence contains a zero byte.
fn contains_nul(v: &Vec<u8>) -> (r: bool)
    ensures
        r == has_nul(v@),
{
    let mut i: usize = 0;
    while i < v.len()
        invariant
            i <= v.len(),
            forall|j: int| 0 <= j < i ==> v@[j] != 0,
        decreases v.len() - i,
    {
        if v[i] == 0 {
            return true;
        }
        i = i + 1;
    }
    false
}

/// Encode a null-terminated text buffer; a missing or non-UTF-8 input yields
/// nothing. A returned buffer never contains a zero byte.
pub fn encode(data: Option<&Vec<u8>>) -> (r: Option<Vec<u8>>)
    ensures
        data is None ==> r is None,
        data matches Some(d) ==> match spec_encode_response(d@) {
            Some(o) => r matches Some(v) && v@ == o,
            None => r is None,
        },
        r matches Some(v) ==> forall|i: int| 0 <= i < v@.len() ==> #[trigger] v@[i] != 0,
{
    match data {
        None => None,
        Some(d) => {
            if utf8::is_utf8(d) {
                proof {
                    laws::lemma_encode_has_no_nul(d@);
                }
                Some(codec::encode_bytes(d))
            } else {
                None
            }
        },
    }
}

/// Encode a byte buffer of explicit length; only a missing input yields
/// nothing. A returned buffer never contains a zero byte.
pub fn encode_binary(data: Option<&Vec<u8>>) -> (r: Option<Vec<u8>>)
    ensures
        data is None ==> r is None,
        data matches Some(d) ==> match spec_encode_binary_response(d@) {
            Some(o) => r matches Some(v) && v@ == o,
            None => r is None,
        },
        r matches Some(v) ==> forall|i: int| 0 <= i < v@.len() ==> #[trigger] v@[i] != 0,
{
    match data {
        None => None,
        Some(d) => {
            proof {
                laws::lemma_encode_has_no_nul(d@);
            }
            Some(codec::encode_bytes(d))
        },
    }
}

/// Strictly decode a null-terminated text buffer; a missing input, non-UTF-8
/// input, a malformed escape, non-UTF-8 decoded bytes, or a decoded zero byte
/// yields nothing.
pub fn decode(data: Option<&Vec<u8>>) -> (r: Option<Vec<u8>>)
    ensures
        data is None ==> r is None,
        data matches Some(d) ==> match spec_decode_response(d@) {
            Some(o) => r matches Some(v) && v@ == o,
            None => r is None,
        },
{
    match data {
        None => None,
        Some(d) => {
            if !utf8::is_utf8(d) {
                return None;
            }
            match text::decode_text(d) {
                Some(out) => {
                    if contains_nul(&out) {
                        None
                    } else {
                        Some(out)
                    }
                },
                None => None,
            }
        },
    }
}

/// Permissively decode a byte buffer of explicit length; a missing input or a
/// decoded zero byte yields nothing.
pub fn decode_binary(data: Option<&Vec<u8>>) -> (r: Option<Vec<u8>>)
    ensures
        data is None ==> r is None,
        data matches Some(d) ==> match spec_decode_binary_response(d@) {
            Some(o) => r matches Some(v) && v@ == o,
            None => r is None,
        },
{
    match data {
        None => None,
        Some(d) => {
            let out = codec::decode_bytes(d);
            if contains_nul(&out) {
                None
            } else {
                Some(out)
            }
        },
    }
}

} // verus!
