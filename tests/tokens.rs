use datum_rs::{datum_char_to_token_pipeline, DatumPipe, DatumPipeExt, DatumToken, DatumTokenType};

fn text(tt: DatumTokenType, s: &str) -> String {
    DatumToken::new_not_into(tt, s.to_string()).to_string()
}

#[test]
fn test_token_write() {
    assert_eq!(&text(DatumTokenType::String, "Test\\\r\n\t"), "\"Test\\\\\\r\\n\\t\"");
    assert_eq!(&text(DatumTokenType::ID, ""), "#{}#");
    assert_eq!(&text(DatumTokenType::ID, "test"), "test");
    assert_eq!(&text(DatumTokenType::SpecialID, "test"), "#test");
    assert_eq!(&text(DatumTokenType::Numeric, "-"), "#i-");
    assert_eq!(&text(DatumTokenType::Numeric, "-1.0"), "-1.0");
    assert_eq!(&text(DatumTokenType::Numeric, "1"), "1");
    assert_eq!(&text(DatumTokenType::Numeric, "AA"), "#iAA");
    assert_eq!(&text(DatumTokenType::Numeric, "\\A"), "#i\\\\A");
    assert_eq!(&text(DatumTokenType::Numeric, ""), "#i");
    assert_eq!(&text(DatumTokenType::ListStart, ""), "(");
    assert_eq!(&text(DatumTokenType::ListEnd, ""), ")");
}

#[test]
fn identifiers_escape_what_would_misread() {
    assert_eq!(&text(DatumTokenType::ID, "1a"), "\\1a");
    assert_eq!(&text(DatumTokenType::ID, "-a"), "\\-a");
    assert_eq!(&text(DatumTokenType::ID, "-"), "-");
    assert_eq!(&text(DatumTokenType::ID, "a b"), "a\\ b");
    assert_eq!(&text(DatumTokenType::Quote, ""), "'");
    assert_eq!(&text(DatumTokenType::String, "say \"hi\""), "\"say \\\"hi\\\"\"");
    let t: DatumToken<String> = DatumToken::new(DatumTokenType::ID, "x");
    assert_eq!(t.token_type(), DatumTokenType::ID);
    assert_eq!(t.buffer(), Some(&"x".to_string()));
}

fn read_tokens(text: &str) -> (Vec<DatumToken<String>>, bool) {
    let mut p = datum_char_to_token_pipeline();
    let mut out = Vec::new();
    p.feed_iter_to_vec(&mut out, text.chars().collect(), true);
    let err = p.has_error();
    (out, err)
}

#[test]
fn written_tokens_read_back() {
    let tokens = [
        (DatumTokenType::ID, "hello"),
        (DatumTokenType::ID, "-"),
        (DatumTokenType::ID, "-x"),
        (DatumTokenType::ID, "1st (odd) id"),
        (DatumTokenType::String, "tab\tand \\ and (paren)"),
        (DatumTokenType::SpecialID, "t"),
        (DatumTokenType::SpecialID, ""),
        (DatumTokenType::Numeric, "-12.5"),
        (DatumTokenType::Numeric, "7"),
        (DatumTokenType::Quote, ""),
        (DatumTokenType::ListStart, ""),
        (DatumTokenType::ListEnd, ""),
    ];
    for (tt, text) in tokens {
        let t: DatumToken<String> = DatumToken::new(tt, text);
        let (back, err) = read_tokens(&t.to_string());
        assert!(!err);
        assert_eq!(back, vec![t]);
    }
}

#[test]
fn fallback_numeric_reads_as_special_identifier() {
    let t: DatumToken<String> = DatumToken::new(DatumTokenType::Numeric, "AA");
    let (back, err) = read_tokens(&t.to_string());
    assert!(!err);
    assert_eq!(back, vec![DatumToken::new(DatumTokenType::SpecialID, "iAA")]);
}
