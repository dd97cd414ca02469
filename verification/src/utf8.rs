//! UTF-8 well-formedness of byte sequences, following the RFC 3629 table of
//! well-formed byte ranges: no overlong forms, no surrogate code points, and
//! nothing above U+10FFFF.

use vstd::prelude::*;
use crate::codec::lemma_skip_skip;

verus! {

/// A continuation byte `10xxxxxx`.
pub open spec fn is_continuation(b: u8) -> bool {
    0x80 <= b <= 0xbf
}

/// The byte sequence is well-formed UTF-8.
pub open spec fn spec_is_utf8(s: Seq<u8>) -> bool
    decreases s.len(),
{
    if s.len() == 0 {
        true
    } else {
        let b0 = s[0];
        if b0 <= 0x7f {
            spec_is_utf8(s.skip(1))
        } else if 0xc2 <= b0 <= 0xdf {
            s.len() >= 2 && is_continuation(s[1]) && spec_is_utf8(s.skip(2))
        } else if b0 == 0xe0 {
            s.len() >= 3 && 0xa0 <= s[1] <= 0xbf && is_continuation(s[2]) && spec_is_utf8(s.skip(3))
        } else if 0xe1 <= b0 <= 0xec || 0xee <= b0 <= 0xef {
            s.len() >= 3 && is_continuation(s[1]) && is_continuation(s[2]) && spec_is_utf8(
                s.skip(3),
            )
        } else if b0 == 0xed {
            s.len() >= 3 && 0x80 <= s[1] <= 0x9f && is_continuation(s[2]) && spec_is_utf8(
                s.skip(3),
            )
        } else if b0 == 0xf0 {
            s.len() >= 4 && 0x90 <= s[1] <= 0xbf && is_continuation(s[2]) && is_continuation(s[3])
                && spec_is_utf8(s.skip(4))
        } else if 0xf1 <= b0 <= 0xf3 {
            s.len() >= 4 && is_continuation(s[1]) && is_continuation(s[2]) && is_continuation(s[3])
                && spec_is_utf8(s.skip(4))
        } else if b0 == 0xf4 {
            s.len() >= 4 && 0x80 <= s[1] <= 0x8f && is_continuation(s[2]) && is_continuation(s[3])
                && spec_is_utf8(s.skip(4))
        } else {
            false
        }
    }
}

/// Decide whether a byte sequence is well-formed UTF-8.
pub fn is_utf8(data: &Vec<u8>) -> (r: bool)
    ensures
        r == spec_is_utf8(data@),
{
    let ghost whole: Seq<u8> = data@;
    let mut i: usize = 0;
    proof {
        assert(whole.skip(0) =~= whole);
    }
    while i < data.len()
        invariant
            i <= data.len(),
            whole == data@,
            spec_is_utf8(whole) == spec_is_utf8(whole.skip(i as int)),
        decreases data.len() - i,
    {
        let ghost s = whole.skip(i as int);
        let n = data.len() - i;
        let b0 = data[i];
        assert(s[0] == b0);
        if b0 <= 0x7f {
            proof {
                lemma_skip_skip(whole, i as int, 1);
            }
            i = i + 1;
        } else if 0xc2 <= b0 && b0 <= 0xdf {
            if !(n >= 2 && 0x80 <= data[i + 1] && data[i + 1] <= 0xbf) {
                return false;
            }
            proof {
                assert(s[1] == whole[i + 1]);
                lemma_skip_skip(whole, i as int, 2);
            }
            i = i + 2;
        } else if 0xe0 <= b0 && b0 <= 0xef {
            if !(n >= 3) {
                return false;
            }
            let b1 = data[i + 1];
            let b2 = data[i + 2];
            assert(s[1] == b1 && s[2] == b2);
            let lo: u8 = if b0 == 0xe0 {
                0xa0
            } else {
                0x80
            };
            let hi: u8 = if b0 == 0xed {
                0x9f
            } else {
                0xbf
            };
            if !(lo <= b1 && b1 <= hi && 0x80 <= b2 && b2 <= 0xbf) {
                return false;
            }
            proof {
                lemma_skip_skip(whole, i as int, 3);
            }
            i = i + 3;
        } else if 0xf0 <= b0 && b0 <= 0xf4 {
            if !(n >= 4) {
                return false;
            }
            let b1 = data[i + 1];
            let b2 = data[i + 2];
            let b3 = data[i + 3];
            assert(s[1] == b1 && s[2] == b2 && s[3] == b3);
            let lo: u8 = if b0 == 0xf0 {
                0x90
            } else {
                0x80
            };
            let hi: u8 = if b0 == 0xf4 {
                0x8f
            } else {
                0xbf
            };
            if !(lo <= b1 && b1 <= hi && 0x80 <= b2 && b2 <= 0xbf && 0x80 <= b3 && b3 <= 0xbf) {
                return false;
            }
            proof {
                lemma_skip_skip(whole, i as int, 4);
            }
            i = i + 4;
        } else {
            return false;
        }
    }
    proof {
        assert(whole.skip(whole.len() as int) =~= Seq::<u8>::empty());
    }
    true
}

} // verus!
