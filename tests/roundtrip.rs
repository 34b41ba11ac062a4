use datum_rs::{
    datum_byte_to_value_pipeline, datum_char_to_token_pipeline, datum_char_to_value_pipeline, DatumAtom,
    DatumPipe, DatumPipeExt, DatumWriter,
};

fn do_roundtrip_test(input: &str, output: &str) {
    let mut dectok1 = datum_char_to_token_pipeline();
    let mut ignoredout = Vec::new();
    dectok1.feed_iter_to_vec(&mut ignoredout, input.chars().collect(), true);
    assert!(!dectok1.has_error());
    // ---
    let mut dtparse = datum_char_to_value_pipeline();
    let mut out = Vec::new();
    dtparse.feed_iter_to_vec(&mut out, input.chars().collect(), true);
    assert!(!dtparse.has_error());
    let mut out_str = String::new();
    let mut writer = DatumWriter::default();
    for v in out {
        v.write_to(&mut out_str, &mut writer);
        writer.write_newline(&mut out_str);
    }
    assert_eq!(out_str, output);
    // --- same again but with bytes
    let mut dtparse = datum_byte_to_value_pipeline();
    let mut out = Vec::new();
    dtparse.feed_iter_to_vec(&mut out, input.bytes().collect(), true);
    assert!(!dtparse.has_error());
    let mut out_str = String::new();
    let mut writer = DatumWriter::default();
    for v in out {
        v.write_to(&mut out_str, &mut writer);
        writer.write_newline(&mut out_str);
    }
    assert_eq!(out_str, output);
}

fn tokenizer_should_error_eof(input: &str) {
    let mut dectok1 = datum_char_to_token_pipeline();
    let mut ignoredout = Vec::new();
    dectok1.feed_iter_to_vec(&mut ignoredout, input.chars().collect(), false);
    assert!(!dectok1.has_error());
    dectok1.eof_to_vec(&mut ignoredout);
    assert!(dectok1.has_error());
}

fn parser_should_error(input: &str) {
    let mut dtparse = datum_char_to_value_pipeline();
    let mut out = Vec::new();
    dtparse.feed_iter_to_vec(&mut out, input.chars().collect(), true);
    assert!(dtparse.has_error());
}

#[test]
fn roundtrip_tests() {
    let niltest: DatumAtom<&str> = DatumAtom::Nil;
    assert_eq!(DatumAtom::default(), niltest);

    // EOF and such tests
    do_roundtrip_test("", "");
    do_roundtrip_test("-10", "-10\n");
    do_roundtrip_test("-", "-\n");
    do_roundtrip_test("\\-a", "\\-a\n");
    do_roundtrip_test("#t", "#t\n");
    do_roundtrip_test("; line comment\n", "");
    do_roundtrip_test("\n", "");

    tokenizer_should_error_eof("\"a");

    parser_should_error(")");
    parser_should_error("(");
    parser_should_error("#atom_conv_failure");
    parser_should_error("#i0_numeric_conv_failure");

    // writer silly tests
    let mut writer_fmt = String::new();
    let mut writer_fmt_test = DatumWriter::default();
    writer_fmt_test.write_newline(&mut writer_fmt);
    writer_fmt_test.indent = 1;
    writer_fmt_test.write_comment(&mut writer_fmt, "lof\nlif\nidk?");
    assert_eq!(writer_fmt, "\n\t; lof\n\t; lif\n\t; idk?\n");
}
