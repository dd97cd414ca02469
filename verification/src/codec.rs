//! Percent-encoding and percent-decoding over byte sequences.
//!
//! The encoder passes ASCII alphanumerics and `-`, `_`, `.`, `~` through
//! unchanged and writes every other byte as `%` followed by two uppercase
//! hexadecimal digits. Two decoders are offered: a strict one that rejects
//! any `%` not followed by two hexadecimal digits, and a permissive one that
//! copies malformed escapes through literally.

use vstd::prelude::*;

verus! {

/// A byte passes through percent-encoding unchanged exactly when it is an
/// ASCII alphanumeric character or one of `-`, `_`, `.`, `~`.
pub open spec fn is_unreserved(b: u8) -> bool {
    (0x41 <= b <= 0x5a)  // 'A'..='Z'
    || (0x61 <= b <= 0x7a)  // 'a'..='z'
    || (0x30 <= b <= 0x39)  // '0'..='9'
    || b == 0x2d  // '-'
    || b == 0x5f  // '_'
    || b == 0x2e  // '.'
    || b == 0x7e  // '~'
}

/// A byte that the decoder accepts as a hexadecimal digit, either case.
pub open spec fn is_hex_digit(b: u8) -> bool {
    (0x30 <= b <= 0x39)  // '0'..='9'
    || (0x41 <= b <= 0x46)  // 'A'..='F'
    || (0x61 <= b <= 0x66)  // 'a'..='f'
}

/// A byte that the encoder may emit after `%`: an uppercase hexadecimal digit.
pub open spec fn is_upper_hex_digit(b: u8) -> bool {
    (0x30 <= b <= 0x39) || (0x41 <= b <= 0x46)
}

/// Numeric value of a hexadecimal digit byte (0 on a non-digit).
pub open spec fn hex_digit_value(b: u8) -> u8 {
    if 0x30 <= b <= 0x39 {
        (b - 0x30) as u8
    } else if 0x41 <= b <= 0x46 {
        (b - 0x41 + 10) as u8
    } else if 0x61 <= b <= 0x66 {
        (b - 0x61 + 10) as u8
    } else {
        0
    }
}

/// The uppercase hexadecimal digit for a value below 16.
pub open spec fn hex_digit_of(n: u8) -> u8 {
    if n < 10 {
        (0x30 + n) as u8
    } else {
        (0x41 + (n - 10)) as u8
    }
}

/// The byte denoted by two hexadecimal digit bytes.
pub open spec fn hex_pair_value(hi: u8, lo: u8) -> u8 {
    (hex_digit_value(hi) << 4) | hex_digit_value(lo)
}

/// How one input byte appears in the encoder's output: either itself, or a
/// three-byte escape `%XX` with uppercase hexadecimal digits.
pub open spec fn encode_byte(b: u8) -> Seq<u8> {
    if is_unreserved(b) {
        seq![b]
    } else {
        seq![0x25u8, hex_digit_of(b >> 4), hex_digit_of(b & 15)]
    }
}

/// Percent-encoding of a whole byte sequence.
pub open spec fn spec_encode(s: Seq<u8>) -> Seq<u8>
    decreases s.len(),
{
    if s.len() == 0 {
        Seq::empty()
    } else {
        encode_byte(s[0]) + spec_encode(s.skip(1))
    }
}

/// Strict percent-decoding: each `%` must be followed by two hexadecimal
/// digits (either case); any other `%` fails the whole decode.
pub open spec fn spec_decode_strict(s: Seq<u8>) -> Option<Seq<u8>>
    decreases s.len(),
{
    if s.len() == 0 {
        Some(Seq::empty())
    } else if s[0] != 0x25 {
        match spec_decode_strict(s.skip(1)) {
            Some(d) => Some(seq![s[0]] + d),
            None => None,
        }
    } else if s.len() >= 3 && is_hex_digit(s[1]) && is_hex_digit(s[2]) {
        match spec_decode_strict(s.skip(3)) {
            Some(d) => Some(seq![hex_pair_value(s[1], s[2])] + d),
            None => None,
        }
    } else {
        None
    }
}

/// Permissive percent-decoding: a complete `%XX` escape is substituted; a `%`
/// followed by one hexadecimal digit and a non-digit emits the `%` and that
/// digit and rescans from the non-digit; a `%` followed by a non-digit emits
/// the `%` alone and rescans from the non-digit; a `%` within two bytes of the
/// end of the input is copied through with whatever follows it.
pub open spec fn spec_decode_lenient(s: Seq<u8>) -> Seq<u8>
    decreases s.len(),
{
    if s.len() == 0 {
        Seq::empty()
    } else if s[0] != 0x25 {
        seq![s[0]] + spec_decode_lenient(s.skip(1))
    } else if s.len() < 3 {
        s
    } else if is_hex_digit(s[1]) && is_hex_digit(s[2]) {
        seq![hex_pair_value(s[1], s[2])] + spec_decode_lenient(s.skip(3))
    } else if is_hex_digit(s[1]) {
        seq![0x25u8, s[1]] + spec_decode_lenient(s.skip(2))
    } else {
        seq![0x25u8] + spec_decode_lenient(s.skip(1))
    }
}

/// Exec mirror of `is_unreserved`.
pub fn is_unreserved_byte(b: u8) -> (r: bool)
    ensures
        r == is_unreserved(b),
{
    (0x41 <= b && b <= 0x5a) || (0x61 <= b && b <= 0x7a) || (0x30 <= b && b <= 0x39) || b == 0x2d
        || b == 0x5f || b == 0x2e || b == 0x7e
}

/// Exec mirror of `is_hex_digit`.
pub fn is_hex_digit_byte(b: u8) -> (r: bool)
    ensures
        r == is_hex_digit(b),
{
    (0x30 <= b && b <= 0x39) || (0x41 <= b && b <= 0x46) || (0x61 <= b && b <= 0x66)
}

/// Exec mirror of `hex_digit_value`.
pub fn hex_digit_value_byte(b: u8) -> (r: u8)
    ensures
        r == hex_digit_value(b),
{
    if 0x30 <= b && b <= 0x39 {
        b - 0x30
    } else if 0x41 <= b && b <= 0x46 {
        b - 0x41 + 10
    } else if 0x61 <= b && b <= 0x66 {
        b - 0x61 + 10
    } else {
        0
    }
}

/// Exec mirror of `hex_digit_of`.
pub fn hex_digit_of_byte(n: u8) -> (r: u8)
    requires
        n < 16,
    ensures
        r == hex_digit_of(n),
{
    if n < 10 {
        0x30 + n
    } else {
        0x41 + (n - 10)
    }
}

/// Splitting the input anywhere splits the encoding at the matching place.
pub proof fn lemma_encode_concat(s: Seq<u8>, t: Seq<u8>)
    ensures
        spec_encode(s + t) == spec_encode(s) + spec_encode(t),
    decreases s.len(),
{
    if s.len() == 0 {
        assert(s + t =~= t);
        assert(spec_encode(s) + spec_encode(t) =~= spec_encode(t));
    } else {
        assert((s + t).skip(1) =~= s.skip(1) + t);
        lemma_encode_concat(s.skip(1), t);
        assert(encode_byte(s[0]) + (spec_encode(s.skip(1)) + spec_encode(t)) =~= (encode_byte(s[0])
            + spec_encode(s.skip(1))) + spec_encode(t));
    }
}

/// The encoding of a single byte is that byte's encoding.
pub proof fn lemma_encode_singleton(b: u8)
    ensures
        spec_encode(seq![b]) == encode_byte(b),
{
    let q = seq![b];
    assert(q.skip(1) =~= Seq::<u8>::empty());
    assert(spec_encode(q) == encode_byte(b) + spec_encode(Seq::<u8>::empty()));
    assert(encode_byte(b) + Seq::<u8>::empty() =~= encode_byte(b));
}

/// Encoding one more byte appends that byte's encoding.
pub proof fn lemma_encode_snoc(s: Seq<u8>, i: int)
    requires
        0 <= i < s.len(),
    ensures
        spec_encode(s.take(i + 1)) == spec_encode(s.take(i)) + encode_byte(s[i]),
{
    assert(s.take(i + 1) =~= s.take(i) + seq![s[i]]);
    lemma_encode_concat(s.take(i), seq![s[i]]);
    lemma_encode_singleton(s[i]);
}

/// Percent-encode an arbitrary byte sequence.
pub fn encode_bytes(data: &Vec<u8>) -> (r: Vec<u8>)
    ensures
        r@ == spec_encode(data@),
{
    let mut out: Vec<u8> = Vec::new();
    let mut i: usize = 0;
    while i < data.len()
        invariant
            i <= data.len(),
            out@ == spec_encode(data@.take(i as int)),
        decreases data.len() - i,
    {
        let b = data[i];
        if is_unreserved_byte(b) {
            out.push(b);
            assert(out@ =~= spec_encode(data@.take(i as int)) + encode_byte(b));
        } else {
            proof {
                assert(b >> 4 < 16 && b & 15 < 16) by (bit_vector);
            }
            out.push(0x25);
            out.push(hex_digit_of_byte(b >> 4));
            out.push(hex_digit_of_byte(b & 15));
            assert(out@ =~= spec_encode(data@.take(i as int)) + encode_byte(b));
        }
        proof {
            lemma_encode_snoc(data@, i as int);
        }
        i = i + 1;
    }
    proof {
        assert(data@.take(data@.len() as int) =~= data@);
    }
    out
}

/// Dropping `a` bytes and then `b` bytes drops `a + b` bytes.
pub(crate) proof fn lemma_skip_skip(s: Seq<u8>, a: int, b: int)
    requires
        0 <= a,
        0 <= b,
        a + b <= s.len(),
    ensures
        s.skip(a).skip(b) == s.skip(a + b),
{
    assert(s.skip(a).skip(b) =~= s.skip(a + b));
}

/// Percent-decode an arbitrary byte sequence, copying malformed escapes
/// through literally.
pub fn decode_bytes(data: &Vec<u8>) -> (r: Vec<u8>)
    ensures
        r@ == spec_decode_lenient(data@),
{
    let ghost whole: Seq<u8> = data@;
    let mut out: Vec<u8> = Vec::new();
    let mut i: usize = 0;
    proof {
        assert(whole.skip(0) =~= whole);
    }
    while i < data.len()
        invariant
            i <= data.len(),
            whole == data@,
            spec_decode_lenient(whole) == out@ + spec_decode_lenient(whole.skip(i as int)),
        decreases data.len() - i,
    {
        let ghost s = whole.skip(i as int);
        let ghost pre = out@;
        let b = data[i];
        assert(s[0] == b);
        if b != 0x25 {
            out.push(b);
            proof {
                lemma_skip_skip(whole, i as int, 1);
                assert(pre + (seq![b] + spec_decode_lenient(s.skip(1))) =~= out@
                    + spec_decode_lenient(s.skip(1)));
            }
            i = i + 1;
        } else if data.len() - i > 2 && is_hex_digit_byte(data[i + 1]) && is_hex_digit_byte(
            data[i + 2],
        ) {
            let v = (hex_digit_value_byte(data[i + 1]) << 4u8) | hex_digit_value_byte(data[i + 2]);
            out.push(v);
            proof {
                assert(s[1] == whole[i + 1] && s[2] == whole[i + 2]);
                lemma_skip_skip(whole, i as int, 3);
                assert(pre + (seq![v] + spec_decode_lenient(s.skip(3))) =~= out@
                    + spec_decode_lenient(s.skip(3)));
            }
            i = i + 3;
        } else if data.len() - i > 2 && is_hex_digit_byte(data[i + 1]) {
            out.push(0x25);
            out.push(data[i + 1]);
            proof {
                assert(s[1] == whole[i + 1] && s[2] == whole[i + 2]);
                lemma_skip_skip(whole, i as int, 2);
                assert(pre + (seq![0x25u8, whole[i + 1]] + spec_decode_lenient(s.skip(2))) =~= out@
                    + spec_decode_lenient(s.skip(2)));
            }
            i = i + 2;
        } else if data.len() - i > 2 {
            out.push(0x25);
            proof {
                assert(s[1] == whole[i + 1] && s[2] == whole[i + 2]);
                lemma_skip_skip(whole, i as int, 1);
                assert(pre + (seq![0x25u8] + spec_decode_lenient(s.skip(1))) =~= out@
                    + spec_decode_lenient(s.skip(1)));
            }
            i = i + 1;
        } else {
            // A `%` with fewer than two bytes after it: copy the tail through.
            out.push(0x25);
            if i + 1 < data.len() {
                out.push(data[i + 1]);
            }
            proof {
                assert(s.len() < 3);
                assert(spec_decode_lenient(s) == s);
                assert(pre + s =~= out@);
                assert(whole.skip(whole.len() as int) =~= Seq::<u8>::empty());
            }
            i = data.len();
        }
    }
    proof {
        assert(whole.skip(whole.len() as int) =~= Seq::<u8>::empty());
        assert(out@ + Seq::<u8>::empty() =~= out@);
    }
    out
}

/// Strictly percent-decode a byte sequence: `None` exactly when some `%` is
/// not followed by two hexadecimal digits.
pub fn decode_strict(data: &Vec<u8>) -> (r: Option<Vec<u8>>)
    ensures
        match spec_decode_strict(data@) {
            Some(d) => r matches Some(v) && v@ == d,
            None => r is None,
        },
{
    let ghost whole: Seq<u8> = data@;
    let mut out: Vec<u8> = Vec::new();
    let mut i: usize = 0;
    proof {
        assert(whole.skip(0) =~= whole);
    }
    while i < data.len()
        invariant
            i <= data.len(),
            whole == data@,
            spec_decode_strict(whole) == (match spec_decode_strict(whole.skip(i as int)) {
                Some(d) => Some(out@ + d),
                None => None::<Seq<u8>>,
            }),
        decreases data.len() - i,
    {
        let ghost s = whole.skip(i as int);
        let ghost pre = out@;
        let b = data[i];
        assert(s[0] == b);
        if b != 0x25 {
            out.push(b);
            proof {
                lemma_skip_skip(whole, i as int, 1);
                if let Some(d) = spec_decode_strict(s.skip(1)) {
                    assert(pre + (seq![b] + d) =~= out@ + d);
                }
            }
            i = i + 1;
        } else if data.len() - i > 2 && is_hex_digit_byte(data[i + 1]) && is_hex_digit_byte(
            data[i + 2],
        ) {
            let v = (hex_digit_value_byte(data[i + 1]) << 4u8) | hex_digit_value_byte(data[i + 2]);
            out.push(v);
            proof {
                assert(s[1] == whole[i + 1] && s[2] == whole[i + 2]);
                lemma_skip_skip(whole, i as int, 3);
                if let Some(d) = spec_decode_strict(s.skip(3)) {
                    assert(pre + (seq![v] + d) =~= out@ + d);
                }
            }
            i = i + 3;
        } else {
            proof {
                if data.len() - i > 2 {
                    assert(s[1] == whole[i + 1] && s[2] == whole[i + 2]);
                }
                assert(spec_decode_strict(s) is None);
            }
            return None;
        }
    }
    proof {
        assert(whole.skip(whole.len() as int) =~= Seq::<u8>::empty());
        assert(out@ + Seq::<u8>::empty() =~= out@);
    }
    Some(out)
}

} // verus!
