use url_encoding::boundary::{decode, decode_binary, encode, encode_binary};

#[test]
fn a_missing_input_yields_nothing() {
    assert_eq!(encode(None), None);
    assert_eq!(encode_binary(None), None);
    assert_eq!(decode(None), None);
    assert_eq!(decode_binary(None), None);
}

#[test]
fn encode_rejects_non_utf8_text() {
    assert_eq!(encode(Some(&b"\xff".to_vec())), None);
    assert_eq!(encode(Some(&b"ok \xed\xa0\x80".to_vec())), None);
}

#[test]
fn encode_binary_accepts_arbitrary_bytes() {
    assert_eq!(encode_binary(Some(&b"\xff".to_vec())), Some(b"%FF".to_vec()));
    assert_eq!(
        encode_binary(Some(&b"\xf1\xf2\xf3\xc0\xc1\xc2".to_vec())),
        Some(b"%F1%F2%F3%C0%C1%C2".to_vec())
    );
}

#[test]
fn encode_accepts_utf8_text() {
    assert_eq!(
        encode(Some(&b"This string will be URL encoded.".to_vec())),
        Some(b"This%20string%20will%20be%20URL%20encoded.".to_vec())
    );
}

#[test]
fn decode_rejects_what_the_text_path_rejects() {
    assert_eq!(decode(Some(&b"100%".to_vec())), None);
    assert_eq!(decode(Some(&b"%zz".to_vec())), None);
    assert_eq!(decode(Some(&b"%FF".to_vec())), None);
    assert_eq!(decode(Some(&b"\xff".to_vec())), None);
}

#[test]
fn decode_rejects_a_decoded_zero_byte() {
    assert_eq!(decode(Some(&b"%00".to_vec())), None);
    assert_eq!(decode_binary(Some(&b"a%00b".to_vec())), None);
}

#[test]
fn decode_binary_never_rejects_malformed_escapes() {
    assert_eq!(decode_binary(Some(&b"%zz".to_vec())), Some(b"%zz".to_vec()));
    assert_eq!(decode_binary(Some(&b"%".to_vec())), Some(b"%".to_vec()));
    assert_eq!(
        decode_binary(Some(&b"%F1%F2%F3%C0%C1%C2".to_vec())),
        Some(b"\xf1\xf2\xf3\xc0\xc1\xc2".to_vec())
    );
}

#[test]
fn decode_accepts_well_formed_text() {
    assert_eq!(
        decode(Some(&b"%F0%9F%91%BE%20Exterminate%21".to_vec())),
        Some("\u{1F47E} Exterminate!".as_bytes().to_vec())
    );
}

#[test]
fn repeated_encode_decode_cycles_are_independent() {
    for round in 0..64u32 {
        let text = format!("round {} of the cycle?", round);
        let encoded = encode(Some(&text.as_bytes().to_vec())).unwrap();
        let decoded = decode(Some(&encoded)).unwrap();
        assert_eq!(decoded, text.as_bytes().to_vec());
    }
}
