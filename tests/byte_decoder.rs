use datum_rs::{DatumPipe, DatumUTF8Decoder};

fn decoder_should_fail(input: &[u8]) {
    let mut decoder = DatumUTF8Decoder::default();
    let mut out = Vec::new();
    for v in input {
        decoder.feed(*v, &mut out);
    }
    assert!(decoder.has_error());
}

fn decoder_should_not_allow_eof(input: &[u8]) {
    let mut decoder = DatumUTF8Decoder::default();
    let mut out = Vec::new();
    for v in input {
        decoder.feed(*v, &mut out);
    }
    assert!(!decoder.has_error());
    decoder.eof(&mut out);
    assert!(decoder.has_error());
}

fn decode(input: &[u8]) -> (Vec<char>, bool) {
    let mut decoder = DatumUTF8Decoder::default();
    let mut out = Vec::new();
    for v in input {
        decoder.feed(*v, &mut out);
    }
    decoder.eof(&mut out);
    (out, decoder.has_error())
}

#[test]
fn byte_decoder_tests() {
    // failure tests
    // random continuation
    decoder_should_fail(&[0x80]);
    // start of sequence, but nothing else
    decoder_should_not_allow_eof(&[0xC2]);
    // it just keeps going and going!
    decoder_should_fail(&[0xC2, 0x80, 0x80, 0x80, 0x80]);
    // interrupted 'characters'
    decoder_should_fail(&[0xC2, 0xC2]);
}

#[test]
fn utf8_decodes_like_std() {
    let text = "a\u{a3}\u{20ac}\u{10FFFF}z";
    let (out, err) = decode(text.as_bytes());
    assert!(!err);
    assert_eq!(out, text.chars().collect::<Vec<char>>());
}

#[test]
fn utf8_rejects_overlong_and_surrogates() {
    // overlong encoding of '/'
    assert!(decode(&[0xC0, 0xAF]).1);
    // a surrogate
    assert!(decode(&[0xED, 0xA0, 0x80]).1);
    // above the largest scalar
    assert!(decode(&[0xF4, 0x90, 0x80, 0x80]).1);
    // a byte that starts nothing
    assert!(decode(&[0xFF]).1);
    // nothing silently wrong comes out before the error
    let (out, err) = decode(&[b'a', 0xE0, 0x80, 0x80]);
    assert!(err);
    assert_eq!(out, vec!['a']);
}
