//! The text paths of the codec: inputs that are UTF-8 text, and the strict
//! decode whose result must again be UTF-8 text.

use vstd::prelude::*;
use crate::codec;
use crate::utf8;

verus! {

/// Strict text decoding: substitute every `%XX` escape, failing on a
/// malformed escape, and fail as well when the substituted bytes are not
/// well-formed UTF-8.
pub open spec fn spec_decode_text(s: Seq<u8>) -> Option<Seq<u8>> {
    match codec::spec_decode_strict(s) {
        Some(d) => if utf8::spec_is_utf8(d) {
            Some(d)
        } else {
            None
        },
        None => None,
    }
}

/// Percent-encode UTF-8 text. The transform is the byte transform; the
/// precondition records that the input is text.
pub fn encode_text(data: &Vec<u8>) -> (r: Vec<u8>)
    requires
        utf8::spec_is_utf8(data@),
    ensures
        r@ == codec::spec_encode(data@),
{
    codec::encode_bytes(data)
}

/// Strictly percent-decode UTF-8 text: `None` on a malformed escape and on
/// decoded bytes that are not well-formed UTF-8.
pub fn decode_text(data: &Vec<u8>) -> (r: Option<Vec<u8>>)
    requires
        utf8::spec_is_utf8(data@),
    ensures
        match spec_decode_text(data@) {
            Some(d) => r matches Some(v) && v@ == d,
            None => r is None,
        },
{
    match codec::decode_strict(data) {
        Some(decoded) => {
            if utf8::is_utf8(&decoded) {
                Some(decoded)
            } else {
                None
            }
        },
        None => None,
    }
}

} // verus!
