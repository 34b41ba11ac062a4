use datum_rs::{DatumChar, DatumCharClass, DatumDecoder, DatumPipe, DatumPipeExt};

fn decoder_test(input: &str, output: &str, out_class: DatumCharClass) {
    let mut decoder = DatumDecoder::default();
    let mut out = Vec::new();
    for v in input.chars() {
        decoder.feed(v, &mut out);
    }
    assert!(!decoder.has_error());
    decoder.eof(&mut out);
    assert!(!decoder.has_error());
    let expected: Vec<char> = output.chars().collect();
    assert_eq!(out.len(), expected.len());
    for (c, e) in out.iter().zip(expected.iter()) {
        assert_eq!(c.char(), *e);
        assert_eq!(c.class(), out_class);
    }
}

fn decoder_should_fail(input: &str) {
    let mut decoder = DatumDecoder::default();
    let mut out = Vec::new();
    for v in input.chars() {
        decoder.feed(v, &mut out);
    }
    assert!(decoder.has_error());
}

fn decoder_should_not_allow_eof(input: &str) {
    let mut decoder = DatumDecoder::default();
    let mut out = Vec::new();
    for v in input.chars() {
        decoder.feed(v, &mut out);
    }
    assert!(!decoder.has_error());
    decoder.eof(&mut out);
    assert!(decoder.has_error());
}

#[test]
fn decoder_results_test() {
    let mut decoder = DatumDecoder::default();
    let mut silent = Vec::new();
    for c in ['\\', 'x', '1', '0', 'F', 'F', 'F', 'F'] {
        decoder.feed(c, &mut silent);
        assert!(silent.is_empty(), "NO");
    }
    let out = [DatumChar::content('\u{10FFFF}'), DatumChar::content('a')];
    let mut tmp = Vec::new();
    decoder.feed_iter_to_vec(&mut tmp, vec![';', 'a'], true);
    assert_eq!(tmp, out);
}

#[test]
fn all_decoder_test_cases() {
    decoder_test("thequickbrownfoxjumpsoverthelazydog", "thequickbrownfoxjumpsoverthelazydog", DatumCharClass::Content);
    decoder_test("THEQUICKBROWNFOXJUMPSOVERTHELAZYDOG", "THEQUICKBROWNFOXJUMPSOVERTHELAZYDOG", DatumCharClass::Content);
    decoder_test("!\u{a3}$%^&*_+=[]{}~@:?/>.<,|", "!\u{a3}$%^&*_+=[]{}~@:?/>.<,|", DatumCharClass::Content);
    // a few simple sanity checks
    decoder_test("\\n", "\n", DatumCharClass::Content);
    decoder_test("\\r", "\r", DatumCharClass::Content);
    decoder_test("\\t", "\t", DatumCharClass::Content);
    decoder_test("\n", "\n", DatumCharClass::Newline);
    decoder_test(";", ";", DatumCharClass::LineComment);
    decoder_test("\"", "\"", DatumCharClass::String);
    decoder_test("(", "(", DatumCharClass::ListStart);
    decoder_test(")", ")", DatumCharClass::ListEnd);
    decoder_test("#", "#", DatumCharClass::SpecialID);
    decoder_test("\\;", ";", DatumCharClass::Content);
    // Hex escape check
    decoder_test("\\x0A;", "\n", DatumCharClass::Content);
    // UTF-8 encoding check
    decoder_test("\\xB9;", "\u{b9}", DatumCharClass::Content);
    decoder_test("\\x10FFff;", "\u{10FFFF}", DatumCharClass::Content);
    decoder_test("\u{10FFFF}", "\u{10FFFF}", DatumCharClass::Content);
    // failure tests
    decoder_should_fail("\\x-");
    decoder_should_fail("\\xFFFFFF;A");
    decoder_should_not_allow_eof("\\");
    decoder_should_not_allow_eof("\\x");
    decoder_should_not_allow_eof("\\xA");
}

#[test]
fn quote_is_its_own_class() {
    let c = DatumChar::identify('\'').expect("not backslash");
    assert_eq!(c.class(), DatumCharClass::Quote);
    assert_eq!(DatumChar::identify('\\'), None);
    assert_eq!(DatumChar::content('(').emit(), vec!['\\', '(']);
    assert_eq!(DatumChar::content('\n').emit(), vec!['\\', 'n']);
    assert!(DatumCharClass::Digit.potential_identifier());
    assert!(!DatumCharClass::Quote.potential_identifier());
    assert!(DatumCharClass::Sign.numeric_start());
}

#[test]
fn long_hex_escape_does_not_wrap() {
    // 0x100000041 would wrap to 'A' in 32 bits; it must stay invalid
    decoder_should_fail("\\x100000041;");
}
