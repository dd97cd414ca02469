//! The codec against the urlencoding crate: the encoder must agree on every
//! input, the permissive decoder must agree on every input including
//! malformed ones, and the strict text decoder must agree wherever it
//! succeeds.

use url_encoding::codec::{decode_bytes, encode_bytes};
use url_encoding::text::decode_text;

fn vectors() -> Vec<Vec<u8>> {
    let mut v: Vec<Vec<u8>> = vec![
        b"".to_vec(),
        b"pureascii".to_vec(),
        b"this that".to_vec(),
        b"This string will be URL encoded.".to_vec(),
        b"&a%b!c.d?e".to_vec(),
        b"\x00".to_vec(),
        b"x\x00x".to_vec(),
        b"this%20that%".to_vec(),
        b"this%20that%2".to_vec(),
        b"this%20that%%".to_vec(),
        b"this%20that%2%".to_vec(),
        b"this%2that".to_vec(),
        b"this%%2that".to_vec(),
        b"this%2x%26that".to_vec(),
        b"this%2%26that".to_vec(),
        b"%25%s%1G".to_vec(),
        b"%2f%2F".to_vec(),
        b"%zz".to_vec(),
        b"%".to_vec(),
        b"100%".to_vec(),
        b"%F0%9F%91%BE%20Exterminate%21".to_vec(),
        b"%F1%F2%F3%C0%C1%C2".to_vec(),
        "\u{1F47E} Exterminate!".as_bytes().to_vec(),
        "\u{203D}%25%2E".as_bytes().to_vec(),
    ];
    let mut all: Vec<u8> = Vec::new();
    for b in 0..=255u8 {
        all.push(b);
    }
    v.push(all);
    v
}

#[test]
fn encoder_agrees_with_urlencoding() {
    for input in vectors() {
        let ours = encode_bytes(&input);
        let theirs = urlencoding::encode_binary(&input).into_owned().into_bytes();
        assert_eq!(ours, theirs);
    }
}

#[test]
fn permissive_decoder_agrees_with_urlencoding() {
    for input in vectors() {
        let ours = decode_bytes(&input);
        let theirs = urlencoding::decode_binary(&input).into_owned();
        assert_eq!(ours, theirs);
    }
}

#[test]
fn strict_text_decoder_agrees_with_urlencoding_where_it_succeeds() {
    for input in vectors() {
        let text = match std::str::from_utf8(&input) {
            Ok(t) => t,
            Err(_) => continue,
        };
        if let Some(ours) = decode_text(&input) {
            let theirs = urlencoding::decode(text).unwrap().into_owned();
            assert_eq!(ours, theirs.as_bytes().to_vec());
        }
    }
}
