use datum_rs::{
    datum_char_to_token_pipeline, DatumComposePipe, DatumFixedArray, DatumParser, DatumToken, DatumTokenType,
    FixedDatumParserStack,
    datum_byte_to_value_pipeline, datum_char_to_value_pipeline, DatumAtom, DatumFloat, DatumPipe, DatumPipeExt,
    DatumDecoder, DatumPipeTokenizer, DatumValue, DatumWriter,
};

fn parse(input: &str) -> (Vec<DatumValue>, bool) {
    let mut p = datum_char_to_value_pipeline();
    let mut out = Vec::new();
    p.feed_iter_to_vec(&mut out, input.chars().collect(), true);
    let err = p.has_error();
    (out, err)
}

fn write(values: &[DatumValue]) -> String {
    let mut s = String::new();
    let mut w = DatumWriter::default();
    for v in values {
        v.write_to(&mut s, &mut w);
        w.write_newline(&mut s);
    }
    s
}

fn id(s: &str) -> DatumValue {
    DatumValue::Atom(DatumAtom::ID(s.to_string()))
}

#[test]
fn parse_empty() {
    let (v, err) = parse("");
    assert!(!err);
    assert!(v.is_empty());
}

#[test]
fn parse_identifier() {
    let (v, err) = parse("hello");
    assert!(!err);
    assert_eq!(v, vec![id("hello")]);
    assert_eq!(write(&v), "hello\n");
}

#[test]
fn parse_list() {
    let (v, err) = parse("(hello)");
    assert!(!err);
    assert_eq!(v, vec![DatumValue::List(vec![id("hello")])]);
    assert_eq!(write(&v), "(hello)\n");
}

#[test]
fn parse_quote() {
    let (v, err) = parse("'hello");
    assert!(!err);
    assert_eq!(v, vec![DatumValue::List(vec![id("quote"), id("hello")])]);
    assert_eq!(write(&v), "(quote hello)\n");
}

#[test]
fn nested_quotes_wrap_innermost_first() {
    let (v, err) = parse("''x");
    assert!(!err);
    assert_eq!(v, vec![DatumValue::List(vec![id("quote"), DatumValue::List(vec![id("quote"), id("x")])])]);
}

#[test]
fn parse_integer() {
    let (v, err) = parse("-10");
    assert!(!err);
    assert_eq!(v, vec![DatumValue::Atom(DatumAtom::Integer(-10))]);
    let (v, _) = parse("-9223372036854775808 9223372036854775807");
    assert_eq!(
        v,
        vec![DatumValue::Atom(DatumAtom::Integer(i64::MIN)), DatumValue::Atom(DatumAtom::Integer(i64::MAX))]
    );
}

#[test]
fn parse_booleans_and_nil() {
    assert_eq!(parse("#t").0, vec![DatumValue::Atom(DatumAtom::Boolean(true))]);
    assert_eq!(parse("#f").0, vec![DatumValue::Atom(DatumAtom::Boolean(false))]);
    assert_eq!(parse("#nil").0, vec![DatumValue::Atom(DatumAtom::Nil)]);
    assert_eq!(parse("#NIL").0, vec![DatumValue::Atom(DatumAtom::Nil)]);
    assert_eq!(parse("#{}#").0, vec![id("")]);
}

#[test]
fn parse_floats() {
    let (v, err) = parse("1.5 #i+inf.0 -inf.0 1e400 #i.5");
    assert!(!err);
    assert_eq!(
        v,
        vec![
            DatumValue::Atom(DatumAtom::Float(DatumFloat::Decimal("1.5".to_string()))),
            DatumValue::Atom(DatumAtom::Float(DatumFloat::Infinity)),
            DatumValue::Atom(DatumAtom::Float(DatumFloat::NegInfinity)),
            DatumValue::Atom(DatumAtom::Float(DatumFloat::Decimal("1e400".to_string()))),
            DatumValue::Atom(DatumAtom::Float(DatumFloat::Decimal(".5".to_string()))),
        ]
    );
    assert_eq!(write(&v), "1.5\n#i+inf.0\n#i-inf.0\n1e400\n#i.5\n");
    // an integer out of range is still a number
    let (v, _) = parse("99999999999999999999");
    assert_eq!(v, vec![DatumValue::Atom(DatumAtom::Float(DatumFloat::Decimal("99999999999999999999".to_string())))]);
}

#[test]
fn unbalanced_close_is_an_error() {
    assert!(parse(")").1);
}

#[test]
fn open_list_at_end_is_an_error() {
    assert!(parse("(").1);
    assert!(parse("'").1);
}

#[test]
fn unterminated_string_is_an_error() {
    assert!(parse("\"a").1);
}

#[test]
fn largest_scalar_escape() {
    let (v, err) = parse("\\x10FFFF;");
    assert!(!err);
    assert_eq!(v, vec![id("\u{10FFFF}")]);
}

#[test]
fn invalid_scalar_escape_is_an_error() {
    assert!(parse("\\xFFFFFF;").1);
}

#[test]
fn round_trip_reparses_to_same_values() {
    let inputs = [
        "(a b (c \"d\\n\") -5 #t #f #nil 'q)",
        "\\-a \\1 #{}# (#i.5 -0.25) 12.5e3",
        "(\"tab\\tand\\\\slash\") ; comment\n x",
    ];
    for input in inputs {
        let (v, err) = parse(input);
        assert!(!err);
        let text = write(&v);
        let (v2, err2) = parse(&text);
        assert!(!err2);
        assert_eq!(v, v2);
        // the canonical form writes back to itself
        assert_eq!(write(&v2), text);
    }
}

#[test]
fn bytes_and_chars_agree() {
    let input = "(\u{e9}t\u{e9} \"\u{20ac}\")";
    let (v, err) = parse(input);
    assert!(!err);
    let mut p = datum_byte_to_value_pipeline();
    let mut out = Vec::new();
    p.feed_iter_to_vec(&mut out, input.bytes().collect(), true);
    assert!(!p.has_error());
    assert_eq!(out, v);
}

#[test]
fn outputs_per_feed_are_bounded() {
    // one character may close a token and be a token itself: two tokens
    let mut t: DatumPipeTokenizer<String> = DatumPipeTokenizer::default();
    let mut out = Vec::new();
    let mut d = DatumDecoder::default();
    let mut chars = Vec::new();
    for c in "ab(".chars() {
        d.feed(c, &mut chars);
    }
    let last = chars.pop().unwrap();
    for c in chars {
        t.feed(c, &mut out);
    }
    assert!(out.is_empty());
    t.feed(last, &mut out);
    assert_eq!(out.len(), 2);
    assert!(out.len() <= datum_rs::token::DATUM_PIPE_TOKENIZER_MAX_SIZE);
}

#[test]
fn fixed_parser_stack_overflow_is_an_error() {
    let mut shallow = DatumComposePipe(datum_char_to_token_pipeline(), DatumParser::<FixedDatumParserStack<1>>::default());
    let mut out = Vec::new();
    shallow.feed_iter_to_vec(&mut out, "(a) ((b))".chars().collect(), true);
    assert!(shallow.has_error());
    assert_eq!(out, vec![DatumValue::List(vec![id("a")])]);
    let mut deep = DatumComposePipe(datum_char_to_token_pipeline(), DatumParser::<FixedDatumParserStack<2>>::default());
    let mut out = Vec::new();
    deep.feed_iter_to_vec(&mut out, "((b))".chars().collect(), true);
    assert!(!deep.has_error());
    assert_eq!(out, vec![DatumValue::List(vec![DatumValue::List(vec![id("b")])])]);
}

#[test]
fn errors_are_sticky() {
    let (v, err) = parse(") a b");
    assert!(err);
    assert!(v.is_empty());
}

#[test]
fn strings_holding_quotes_round_trip() {
    let (v, err) = parse("\"\\\"\"");
    assert!(!err);
    assert_eq!(v, vec![DatumValue::Atom(DatumAtom::String("\"".to_string()))]);
    let text = write(&v);
    assert_eq!(text, "\"\\\"\"\n");
    let (v2, err2) = parse(&text);
    assert!(!err2);
    assert_eq!(v2, v);
    let pair = vec![
        DatumValue::Atom(DatumAtom::String("a\"b".to_string())),
        DatumValue::Atom(DatumAtom::String("c\"d".to_string())),
    ];
    let (back, err3) = parse(&write(&pair));
    assert!(!err3);
    assert_eq!(back, pair);
}

#[test]
fn decimal_floats_are_checked() {
    assert_eq!(DatumFloat::decimal("1.5"), Some(DatumFloat::Decimal("1.5".to_string())));
    assert_eq!(DatumFloat::decimal("1e400"), Some(DatumFloat::Decimal("1e400".to_string())));
    assert_eq!(DatumFloat::decimal("1"), None);
    assert_eq!(DatumFloat::decimal("abc"), None);
    assert_eq!(DatumFloat::decimal("+nan.0"), None);
}

#[test]
fn fixed_token_buffer_overflow_is_an_error() {
    let mut small = DatumComposePipe(DatumDecoder::default(), DatumPipeTokenizer::<DatumFixedArray<char, 3>>::default());
    let mut out = Vec::new();
    small.feed_iter_to_vec(&mut out, "abc (abcd x)".chars().collect(), true);
    assert!(small.has_error());
    assert_eq!(out, vec![DatumToken::new(DatumTokenType::ID, "abc"), DatumToken::new(DatumTokenType::ListStart, "")]);
    let mut fits = DatumComposePipe(DatumDecoder::default(), DatumPipeTokenizer::<DatumFixedArray<char, 3>>::default());
    let mut out = Vec::new();
    fits.feed_iter_to_vec(&mut out, "abc \"xyz\"".chars().collect(), true);
    assert!(!fits.has_error());
    assert_eq!(out, vec![DatumToken::new(DatumTokenType::ID, "abc"), DatumToken::new(DatumTokenType::String, "xyz")]);
}
