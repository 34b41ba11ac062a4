//! Reading back what the writer writes.
use vstd::prelude::*;

use crate::char_classes::{
    class_of, content_view, emit_of, identify_view, potential_identifier_view, DatumCharClass, DatumCharView,
};
use crate::atom::{
    all_digits, ascii_lower, atom_of_token, digits_value, eq_ignore_case, i64_value, is_digit,
    numeric_atom, strip_sign, DatumAtom, DatumFloat,
};
use crate::decoder::{lemma_emit_decodes, DatumDecoder, DatumDecoderState};
use crate::writer::{atom_text, digit_char, int_text, nat_text};
use crate::pipeline::{lemma_compose_run, lemma_run_append, lemma_run_one, run, DatumPipe};
use crate::pipelines::{tokenizer_start, DatumCharToTokenPipeline};
use crate::token::{
    identifier_text, lemma_apply_one, string_body_text, string_char_text, token_text, DatumStringTokenizer,
    PipeTokenizerModel,
};
use crate::token_core::{DatumTokenType, DatumTokenizerAction, DatumTokenizerState, TokenizerModel};
use crate::token::DatumToken;

verus! {

/// The classified characters that the characters of an identifier become.
pub open spec fn identifier_views(s: Seq<char>) -> Seq<DatumCharView> {
    Seq::new(s.len(), |i: int| potential_identifier_view(s[i]))
}

/// The character values of classified characters.
pub open spec fn chars_of_views(cs: Seq<DatumCharView>) -> Seq<char> {
    Seq::new(cs.len(), |i: int| cs[i].ch)
}

/// The written form of identifier characters decodes to their classified characters.
proof fn lemma_identifier_text_decodes(s: Seq<char>)
    ensures
        run::<DatumDecoder>(DatumDecoderState::Normal, identifier_text(s)) == (
            DatumDecoderState::Normal,
            identifier_views(s),
        ),
    decreases s.len(),
{
    if s.len() == 0 {
        assert(identifier_text(s) =~= Seq::<char>::empty());
        assert(identifier_views(s) =~= Seq::<DatumCharView>::empty());
    } else {
        let init = s.drop_last();
        let c = potential_identifier_view(s.last());
        lemma_identifier_text_decodes(init);
        lemma_run_append::<DatumDecoder>(DatumDecoderState::Normal, identifier_text(init), emit_of(c));
        lemma_emit_decodes(c);
        assert(identifier_views(s) =~= identifier_views(init) + seq![c]);
    }
}

/// Inside an identifier, a number or a special identifier, characters whose
/// classes may continue it are all kept.
proof fn lemma_tokenize_word(st: DatumTokenizerState, buf: Seq<char>, cs: Seq<DatumCharView>)
    requires
        st is ID || st is Numeric || st is SpecialID,
        forall|i: int| 0 <= i < cs.len() ==> (#[trigger] cs[i]).class.is_potential_identifier(),
    ensures
        run::<DatumStringTokenizer>(
            PipeTokenizerModel { buffer: buf, tokenizer: TokenizerModel { state: st, error: false } },
            cs,
        ) == (
            PipeTokenizerModel {
                buffer: buf + chars_of_views(cs),
                tokenizer: TokenizerModel { state: st, error: false },
            },
            Seq::<DatumToken<Seq<char>>>::empty(),
        ),
    decreases cs.len(),
{
    if cs.len() == 0 {
        assert(buf + chars_of_views(cs) =~= buf);
    } else {
        let init = cs.drop_last();
        let c = cs.last();
        lemma_tokenize_word(st, buf, init);
        assert(c.class.is_potential_identifier());
        lemma_apply_one(buf + chars_of_views(init), c.ch, DatumTokenizerAction::Push);
        assert((buf + chars_of_views(init)).push(c.ch) =~= buf + chars_of_views(cs));
        assert(Seq::<DatumToken<Seq<char>>>::empty() + Seq::<DatumToken<Seq<char>>>::empty() =~= Seq::<
            DatumToken<Seq<char>>,
        >::empty());
    }
}

/// The classified characters read back from a written identifier.
pub open spec fn written_identifier_views(b: Seq<char>) -> Seq<DatumCharView> {
    if class_of(b[0]) == Some(DatumCharClass::Sign) {
        if b.len() == 1 {
            seq![DatumCharView { ch: b[0], class: DatumCharClass::Sign }]
        } else {
            seq![content_view(b[0]), content_view(b[1])] + identifier_views(b.subrange(2, b.len() as int))
        }
    } else {
        seq![content_view(b[0])] + identifier_views(b.subrange(1, b.len() as int))
    }
}

/// A written identifier decodes to the classified characters above.
proof fn lemma_written_identifier_decodes(b: Seq<char>)
    requires
        b.len() > 0,
    ensures
        run::<DatumDecoder>(DatumDecoderState::Normal, token_text(DatumToken::ID(b))) == (
            DatumDecoderState::Normal,
            written_identifier_views(b),
        ),
{
    let n = DatumDecoderState::Normal;
    if class_of(b[0]) == Some(DatumCharClass::Sign) {
        if b.len() == 1 {
            let v = DatumCharView { ch: b[0], class: DatumCharClass::Sign };
            assert(identify_view(b[0]) == Some(v));
            lemma_emit_decodes(v);
            assert(emit_of(v) =~= b);
        } else {
            let c0 = content_view(b[0]);
            let c1 = content_view(b[1]);
            let rest = b.subrange(2, b.len() as int);
            lemma_emit_decodes(c0);
            lemma_emit_decodes(c1);
            lemma_identifier_text_decodes(rest);
            lemma_run_append::<DatumDecoder>(n, emit_of(c0), emit_of(c1));
            lemma_run_append::<DatumDecoder>(n, emit_of(c0) + emit_of(c1), identifier_text(rest));
            assert(seq![c0] + seq![c1] + identifier_views(rest) =~= written_identifier_views(b));
        }
    } else {
        let c0 = content_view(b[0]);
        let rest = b.subrange(1, b.len() as int);
        lemma_emit_decodes(c0);
        lemma_identifier_text_decodes(rest);
        lemma_run_append::<DatumDecoder>(n, emit_of(c0), identifier_text(rest));
        assert(seq![c0] + identifier_views(rest) =~= written_identifier_views(b));
    }
}

/// Tokens that stay open after their text, until a character closes them.
pub open spec fn is_word(t: DatumToken<Seq<char>>) -> bool {
    t is ID || t is Numeric || t is SpecialID
}

/// The tokenizer stage right after the text of a token: an open word holds its
/// text; any other token has come out and the stage is between tokens.
pub open spec fn after_token(t: DatumToken<Seq<char>>) -> PipeTokenizerModel {
    match t {
        DatumToken::ID(b) => PipeTokenizerModel {
            buffer: b,
            tokenizer: TokenizerModel {
                state: if b.len() == 1 && class_of(b[0]) == Some(DatumCharClass::Sign) {
                    DatumTokenizerState::NumericSign
                } else {
                    DatumTokenizerState::ID
                },
                error: false,
            },
        },
        DatumToken::Numeric(b) => PipeTokenizerModel {
            buffer: b,
            tokenizer: TokenizerModel { state: DatumTokenizerState::Numeric, error: false },
        },
        DatumToken::SpecialID(b) => PipeTokenizerModel {
            buffer: b,
            tokenizer: TokenizerModel { state: DatumTokenizerState::SpecialID, error: false },
        },
        _ => tokenizer_start(),
    }
}

/// The tokens that have come out right after the text of a token.
pub open spec fn out_after_token(t: DatumToken<Seq<char>>) -> Seq<DatumToken<Seq<char>>> {
    if is_word(t) {
        seq![]
    } else {
        seq![t]
    }
}

/// An identifier reads back as itself: the text that the writer gives a non-empty
/// identifier token, fed to a fresh character-to-token pipeline and then ended,
/// yields exactly that token, and no error.
proof fn lemma_identifier_round_trip(b: Seq<char>)
    requires
        b.len() > 0,
    ensures
        ({
            let s0 = (DatumDecoderState::Normal, tokenizer_start());
            let r = run::<DatumCharToTokenPipeline>(s0, token_text(DatumToken::ID(b)));
            let f = DatumCharToTokenPipeline::finish(r.0);
            &&& r == ((DatumDecoderState::Normal, after_token(DatumToken::ID(b))), Seq::<DatumToken<Seq<char>>>::empty())
            &&& r.1 + f.1 == seq![DatumToken::ID(b)]
            &&& !DatumCharToTokenPipeline::failed(f.0)
        }),
{
    let s0 = (DatumDecoderState::Normal, tokenizer_start());
    let text = token_text(DatumToken::ID(b));
    lemma_written_identifier_decodes(b);
    lemma_compose_run::<DatumDecoder, DatumStringTokenizer>(s0, text);
    let cs = written_identifier_views(b);
    let first = seq![cs[0]];
    let rest = cs.subrange(1, cs.len() as int);
    assert(cs =~= first + rest);
    lemma_run_append::<DatumStringTokenizer>(tokenizer_start(), first, rest);
    assert(first.drop_last() =~= Seq::<DatumCharView>::empty());
    assert(first.last() == cs[0]);
    assert(run::<DatumStringTokenizer>(tokenizer_start(), Seq::<DatumCharView>::empty()) == (
        tokenizer_start(),
        Seq::<DatumToken<Seq<char>>>::empty(),
    ));
    if class_of(b[0]) == Some(DatumCharClass::Sign) && b.len() == 1 {
        assert(cs[0] == DatumCharView { ch: b[0], class: DatumCharClass::Sign });
    } else {
        assert(cs[0] == content_view(b[0]));
    }
    lemma_apply_one(Seq::<char>::empty(), cs[0].ch, DatumTokenizerAction::Push);
    assert(Seq::<DatumToken<Seq<char>>>::empty() + Seq::<DatumToken<Seq<char>>>::empty() =~= Seq::<
        DatumToken<Seq<char>>,
    >::empty());
    let after_first = run::<DatumStringTokenizer>(tokenizer_start(), first);
    assert(Seq::<char>::empty().push(b[0]) =~= seq![b[0]]);
    if class_of(b[0]) == Some(DatumCharClass::Sign) && b.len() == 1 {
        assert(rest =~= Seq::<DatumCharView>::empty());
        assert(after_first.0.tokenizer.state == DatumTokenizerState::NumericSign);
        assert(after_first.0.buffer =~= b);
    } else {
        assert(after_first.0 == PipeTokenizerModel {
            buffer: seq![b[0]],
            tokenizer: TokenizerModel { state: DatumTokenizerState::ID, error: false },
        });
        assert forall|i: int| 0 <= i < rest.len() implies (#[trigger] rest[i]).class.is_potential_identifier() by {
            assert(rest[i] == cs[i + 1]);
        }
        lemma_tokenize_word(DatumTokenizerState::ID, seq![b[0]], rest);
        assert(seq![b[0]] + chars_of_views(rest) =~= b);
    }
    let r = run::<DatumCharToTokenPipeline>(s0, text);
    let tok = r.0.1;
    lemma_apply_one(tok.buffer, ' ', DatumTokenizerAction::Token(crate::token_core::DatumTokenType::ID));
    assert(run::<DatumStringTokenizer>(tok, Seq::<DatumCharView>::empty()) == (
        tok,
        Seq::<DatumToken<Seq<char>>>::empty(),
    ));
    let f = DatumCharToTokenPipeline::finish(r.0);
    assert(r.1 + f.1 =~= seq![DatumToken::ID(b)]);
}

/// How a character of a written string reads back.
pub open spec fn string_char_view(c: char) -> DatumCharView {
    if c == '\\' || c == '\r' || c == '\n' || c == '\t' || c == '"' {
        content_view(c)
    } else {
        DatumCharView { ch: c, class: class_of(c)->0 }
    }
}

/// The classified characters that the characters of a string become.
pub open spec fn string_views(s: Seq<char>) -> Seq<DatumCharView> {
    Seq::new(s.len(), |i: int| string_char_view(s[i]))
}

/// The written body of a string decodes to its classified characters.
proof fn lemma_string_body_decodes(s: Seq<char>)
    ensures
        run::<DatumDecoder>(DatumDecoderState::Normal, string_body_text(s)) == (
            DatumDecoderState::Normal,
            string_views(s),
        ),
    decreases s.len(),
{
    if s.len() == 0 {
        assert(string_body_text(s) =~= Seq::<char>::empty());
        assert(string_views(s) =~= Seq::<DatumCharView>::empty());
    } else {
        let init = s.drop_last();
        let c = string_char_view(s.last());
        lemma_string_body_decodes(init);
        assert(emit_of(c) == string_char_text(s.last()));
        lemma_run_append::<DatumDecoder>(DatumDecoderState::Normal, string_body_text(init), emit_of(c));
        lemma_emit_decodes(c);
        assert(string_views(s) =~= string_views(init) + seq![c]);
    }
}

/// Inside a string, every class but the string delimiter is kept.
proof fn lemma_tokenize_string(buf: Seq<char>, cs: Seq<DatumCharView>)
    requires
        forall|i: int| 0 <= i < cs.len() ==> !((#[trigger] cs[i]).class is String),
    ensures
        run::<DatumStringTokenizer>(
            PipeTokenizerModel {
                buffer: buf,
                tokenizer: TokenizerModel { state: DatumTokenizerState::String, error: false },
            },
            cs,
        ) == (
            PipeTokenizerModel {
                buffer: buf + chars_of_views(cs),
                tokenizer: TokenizerModel { state: DatumTokenizerState::String, error: false },
            },
            Seq::<DatumToken<Seq<char>>>::empty(),
        ),
    decreases cs.len(),
{
    if cs.len() == 0 {
        assert(buf + chars_of_views(cs) =~= buf);
    } else {
        let init = cs.drop_last();
        let c = cs.last();
        lemma_tokenize_string(buf, init);
        lemma_apply_one(buf + chars_of_views(init), c.ch, DatumTokenizerAction::Push);
        assert((buf + chars_of_views(init)).push(c.ch) =~= buf + chars_of_views(cs));
        assert(Seq::<DatumToken<Seq<char>>>::empty() + Seq::<DatumToken<Seq<char>>>::empty() =~= Seq::<
            DatumToken<Seq<char>>,
        >::empty());
    }
}

/// A string reads back as itself: the text that the writer gives the string token,
/// fed to a fresh character-to-token pipeline and then ended, yields exactly that
/// token, and no error.
proof fn lemma_string_round_trip(b: Seq<char>)
    ensures
        ({
            let s0 = (DatumDecoderState::Normal, tokenizer_start());
            let r = run::<DatumCharToTokenPipeline>(s0, token_text(DatumToken::String(b)));
            let f = DatumCharToTokenPipeline::finish(r.0);
            &&& r == ((DatumDecoderState::Normal, tokenizer_start()), seq![DatumToken::String(b)])
            &&& r.1 + f.1 == seq![DatumToken::String(b)]
            &&& !DatumCharToTokenPipeline::failed(f.0)
        }),
{
    let n = DatumDecoderState::Normal;
    let s0 = (n, tokenizer_start());
    let text = token_text(DatumToken::String(b));
    let q = DatumCharView { ch: '"', class: DatumCharClass::String };
    assert(identify_view('"') == Some(q));
    lemma_emit_decodes(q);
    lemma_string_body_decodes(b);
    assert(emit_of(q) =~= seq!['"']);
    lemma_run_append::<DatumDecoder>(n, seq!['"'], string_body_text(b));
    lemma_run_append::<DatumDecoder>(n, seq!['"'] + string_body_text(b), seq!['"']);
    let body = string_views(b);
    let cs = seq![q] + body + seq![q];
    assert(run::<DatumDecoder>(n, text).1 =~= cs);
    lemma_compose_run::<DatumDecoder, DatumStringTokenizer>(s0, text);
    // the opening quote
    let t0 = tokenizer_start();
    assert(seq![q].drop_last() =~= Seq::<DatumCharView>::empty());
    assert(run::<DatumStringTokenizer>(t0, Seq::<DatumCharView>::empty()) == (t0, Seq::<DatumToken<Seq<char>>>::empty()));
    assert(Seq::<DatumToken<Seq<char>>>::empty() + Seq::<DatumToken<Seq<char>>>::empty() =~= Seq::<
        DatumToken<Seq<char>>,
    >::empty());
    let t1 = PipeTokenizerModel {
        buffer: Seq::<char>::empty(),
        tokenizer: TokenizerModel { state: DatumTokenizerState::String, error: false },
    };
    assert(run::<DatumStringTokenizer>(t0, seq![q]) == (t1, Seq::<DatumToken<Seq<char>>>::empty()));
    // the body
    assert forall|i: int| 0 <= i < body.len() implies !((#[trigger] body[i]).class is String) by {
        assert(body[i] == string_char_view(b[i]));
    }
    lemma_tokenize_string(Seq::<char>::empty(), body);
    assert(Seq::<char>::empty() + chars_of_views(body) =~= b);
    lemma_run_append::<DatumStringTokenizer>(t0, seq![q], body);
    // the closing quote
    let t2 = PipeTokenizerModel {
        buffer: b,
        tokenizer: TokenizerModel { state: DatumTokenizerState::String, error: false },
    };
    lemma_apply_one(b, '"', DatumTokenizerAction::Token(DatumTokenType::String));
    assert(seq![q].drop_last() =~= Seq::<DatumCharView>::empty());
    lemma_run_append::<DatumStringTokenizer>(t0, seq![q] + body, seq![q]);
    assert(run::<DatumStringTokenizer>(t0, seq![q] + body) == (t2, Seq::<DatumToken<Seq<char>>>::empty()));
    assert(run::<DatumStringTokenizer>(t2, Seq::<DatumCharView>::empty()) == (
        t2,
        Seq::<DatumToken<Seq<char>>>::empty(),
    ));
    assert(seq![q].last() == q);
    let t3 = PipeTokenizerModel {
        buffer: Seq::<char>::empty(),
        tokenizer: TokenizerModel { state: DatumTokenizerState::Start, error: false },
    };
    assert(Seq::<DatumToken<Seq<char>>>::empty() + seq![DatumToken::String(b)] =~= seq![DatumToken::String(b)]);
    assert(run::<DatumStringTokenizer>(t2, seq![q]) == (t3, seq![DatumToken::String(b)]));
    assert(run::<DatumStringTokenizer>(t0, cs) == (t3, seq![DatumToken::String(b)]));
    let r = run::<DatumCharToTokenPipeline>(s0, text);
    assert(r.1 =~= seq![DatumToken::String(b)]);
    let f = DatumCharToTokenPipeline::finish(r.0);
    assert(run::<DatumStringTokenizer>(r.0.1, Seq::<DatumCharView>::empty()) == (
        r.0.1,
        Seq::<DatumToken<Seq<char>>>::empty(),
    ));
    assert(f.1 =~= Seq::<DatumToken<Seq<char>>>::empty());
    assert(r.1 + f.1 =~= seq![DatumToken::String(b)]);
}

/// Identifier characters keep their values, and their classes may continue a word.
proof fn lemma_identifier_views(s: Seq<char>)
    ensures
        chars_of_views(identifier_views(s)) == s,
        forall|i: int|
            0 <= i < s.len() ==> (#[trigger] identifier_views(s)[i]).class.is_potential_identifier(),
{
    assert(chars_of_views(identifier_views(s)) =~= s);
}

/// The end of input for a chain that holds a word: the word comes out as a token.
pub(crate) proof fn lemma_finish_word(st: DatumTokenizerState, tt: DatumTokenType, b: Seq<char>)
    requires
        (st is ID && tt is ID) || (st is NumericSign && tt is ID) || (st is Numeric && tt is Numeric) || (
        st is SpecialID && tt is SpecialID),
    ensures
        ({
            let m = PipeTokenizerModel { buffer: b, tokenizer: TokenizerModel { state: st, error: false } };
            let f = DatumCharToTokenPipeline::finish((DatumDecoderState::Normal, m));
            &&& f.1 == seq![crate::token::token_of(tt, b)]
            &&& !DatumCharToTokenPipeline::failed(f.0)
        }),
{
    let m = PipeTokenizerModel { buffer: b, tokenizer: TokenizerModel { state: st, error: false } };
    assert(run::<DatumStringTokenizer>(m, Seq::<DatumCharView>::empty()) == (m, Seq::<DatumToken<Seq<char>>>::empty()));
    lemma_apply_one(b, ' ', DatumTokenizerAction::Token(tt));
    assert(Seq::<DatumToken<Seq<char>>>::empty() + seq![crate::token::token_of(tt, b)] =~= seq![
        crate::token::token_of(tt, b),
    ]);
}

/// The tokens that the writer writes in their plain form: an identifier that is
/// not empty, a string, a special identifier, a number that starts
/// with a sign or a digit and is not a lone sign, and the structural tokens.
pub open spec fn plainly_written(t: DatumToken<Seq<char>>) -> bool {
    match t {
        DatumToken::ID(b) => b.len() > 0,
        DatumToken::SpecialID(_) => true,
        DatumToken::Numeric(b) => crate::token::numeric_text_is_plain(b),
        _ => true,
    }
}

/// A token reads back as itself: the text that the writer gives a plainly written
/// token, fed to a fresh character-to-token pipeline and then ended, yields exactly
/// that token, and no error.
pub proof fn lemma_token_round_trip(t: DatumToken<Seq<char>>)
    requires
        plainly_written(t),
    ensures
        ({
            let s0 = (DatumDecoderState::Normal, tokenizer_start());
            let r = run::<DatumCharToTokenPipeline>(s0, token_text(t));
            let f = DatumCharToTokenPipeline::finish(r.0);
            &&& r == ((DatumDecoderState::Normal, after_token(t)), out_after_token(t))
            &&& r.1 + f.1 == seq![t]
            &&& !DatumCharToTokenPipeline::failed(f.0)
        }),
{
    let n = DatumDecoderState::Normal;
    let s0 = (n, tokenizer_start());
    let t0 = tokenizer_start();
    let text = token_text(t);
    let none = Seq::<DatumToken<Seq<char>>>::empty();
    lemma_compose_run::<DatumDecoder, DatumStringTokenizer>(s0, text);
    match t {
        DatumToken::ID(b) => {
            lemma_identifier_round_trip(b);
        },
        DatumToken::String(b) => {
            lemma_string_round_trip(b);
        },
        DatumToken::SpecialID(b) => {
            let h = DatumCharView { ch: '#', class: DatumCharClass::SpecialID };
            assert(identify_view('#') == Some(h));
            lemma_emit_decodes(h);
            assert(emit_of(h) =~= seq!['#']);
            lemma_identifier_text_decodes(b);
            lemma_run_append::<DatumDecoder>(n, seq!['#'], identifier_text(b));
            let ids = identifier_views(b);
            assert(run::<DatumDecoder>(n, text).1 =~= seq![h] + ids);
            lemma_run_one::<DatumStringTokenizer>(t0, h);
            let t1 = PipeTokenizerModel {
                buffer: Seq::<char>::empty(),
                tokenizer: TokenizerModel { state: DatumTokenizerState::SpecialID, error: false },
            };
            assert(run::<DatumStringTokenizer>(t0, seq![h]) == (t1, none));
            lemma_identifier_views(b);
            lemma_tokenize_word(DatumTokenizerState::SpecialID, Seq::<char>::empty(), ids);
            lemma_run_append::<DatumStringTokenizer>(t0, seq![h], ids);
            assert(Seq::<char>::empty() + chars_of_views(ids) =~= b);
            assert(none + none =~= none);
            lemma_finish_word(DatumTokenizerState::SpecialID, DatumTokenType::SpecialID, b);
            let r = run::<DatumCharToTokenPipeline>(s0, text);
            assert(r.1 + seq![t] =~= seq![t]);
        },
        DatumToken::Numeric(b) => {
            let c0 = DatumCharView { ch: b[0], class: class_of(b[0])->0 };
            assert(identify_view(b[0]) == Some(c0));
            lemma_emit_decodes(c0);
            assert(emit_of(c0) =~= seq![b[0]]);
            let rest = b.subrange(1, b.len() as int);
            lemma_identifier_text_decodes(rest);
            lemma_run_append::<DatumDecoder>(n, seq![b[0]], identifier_text(rest));
            let ids = identifier_views(rest);
            assert(run::<DatumDecoder>(n, text).1 =~= seq![c0] + ids);
            lemma_identifier_views(rest);
            lemma_run_one::<DatumStringTokenizer>(t0, c0);
            lemma_apply_one(Seq::<char>::empty(), b[0], DatumTokenizerAction::Push);
            assert(Seq::<char>::empty().push(b[0]) =~= seq![b[0]]);
            lemma_run_append::<DatumStringTokenizer>(t0, seq![c0], ids);
            assert(none + none =~= none);
            if c0.class is Digit {
                let t1 = PipeTokenizerModel {
                    buffer: seq![b[0]],
                    tokenizer: TokenizerModel { state: DatumTokenizerState::Numeric, error: false },
                };
                assert(run::<DatumStringTokenizer>(t0, seq![c0]) == (t1, none));
                lemma_tokenize_word(DatumTokenizerState::Numeric, seq![b[0]], ids);
                assert(seq![b[0]] + chars_of_views(ids) =~= b);
                lemma_finish_word(DatumTokenizerState::Numeric, DatumTokenType::Numeric, b);
            } else {
                // a sign, then at least one more character, which turns it into a number
                let t1 = PipeTokenizerModel {
                    buffer: seq![b[0]],
                    tokenizer: TokenizerModel { state: DatumTokenizerState::NumericSign, error: false },
                };
                assert(run::<DatumStringTokenizer>(t0, seq![c0]) == (t1, none));
                let c1 = ids[0];
                let more = ids.subrange(1, ids.len() as int);
                assert(ids =~= seq![c1] + more);
                lemma_run_append::<DatumStringTokenizer>(t1, seq![c1], more);
                lemma_run_one::<DatumStringTokenizer>(t1, c1);
                lemma_apply_one(seq![b[0]], c1.ch, DatumTokenizerAction::Push);
                let t2 = PipeTokenizerModel {
                    buffer: seq![b[0], c1.ch],
                    tokenizer: TokenizerModel { state: DatumTokenizerState::Numeric, error: false },
                };
                assert(seq![b[0]].push(c1.ch) =~= seq![b[0], c1.ch]);
                assert(run::<DatumStringTokenizer>(t1, seq![c1]) == (t2, none));
                assert forall|i: int| 0 <= i < more.len() implies (#[trigger] more[i]).class.is_potential_identifier() by {
                    assert(more[i] == ids[i + 1]);
                }
                lemma_tokenize_word(DatumTokenizerState::Numeric, seq![b[0], c1.ch], more);
                assert(chars_of_views(ids)[0] == c1.ch);
                assert(seq![b[0], c1.ch] + chars_of_views(more) =~= b);
                lemma_run_append::<DatumStringTokenizer>(t0, seq![c0], seq![c1] + more);
                lemma_finish_word(DatumTokenizerState::Numeric, DatumTokenType::Numeric, b);
            }
            let r = run::<DatumCharToTokenPipeline>(s0, text);
            assert(r.1 + seq![t] =~= seq![t]);
        },
        _ => {
            let ch = if t is Quote {
                '\''
            } else if t is ListStart {
                '('
            } else {
                ')'
            };
            let c = DatumCharView { ch, class: class_of(ch)->0 };
            assert(text =~= seq![ch]);
            assert(identify_view(ch) == Some(c));
            lemma_emit_decodes(c);
            assert(emit_of(c) =~= seq![ch]);
            lemma_run_one::<DatumStringTokenizer>(t0, c);
            lemma_apply_one(Seq::<char>::empty(), ch, DatumTokenizerAction::Token(crate::token::type_of(t)));
            let m = PipeTokenizerModel {
                buffer: Seq::<char>::empty(),
                tokenizer: TokenizerModel { state: DatumTokenizerState::Start, error: false },
            };
            assert(run::<DatumStringTokenizer>(m, Seq::<DatumCharView>::empty()) == (m, none));
            let r = run::<DatumCharToTokenPipeline>(s0, text);
            assert(r.1 =~= seq![t]);
            let f = DatumCharToTokenPipeline::finish(r.0);
            assert(r.1 + f.1 =~= seq![t]);
        },
    }
}

/// A character whose own class may continue an identifier.
pub open spec fn plain_identifier_char(c: char) -> bool {
    match class_of(c) {
        Some(k) => k.is_potential_identifier(),
        None => false,
    }
}

/// Identifier characters whose own classes may continue an identifier are written as they are.
proof fn lemma_identifier_text_plain(s: Seq<char>)
    requires
        forall|i: int| 0 <= i < s.len() ==> plain_identifier_char(#[trigger] s[i]),
    ensures
        identifier_text(s) == s,
    decreases s.len(),
{
    if s.len() == 0 {
        assert(identifier_text(s) =~= s);
    } else {
        let init = s.drop_last();
        assert forall|i: int| 0 <= i < init.len() implies plain_identifier_char(#[trigger] init[i]) by {
            assert(init[i] == s[i]);
        }
        lemma_identifier_text_plain(init);
        assert(plain_identifier_char(s[s.len() - 1]));
        assert(init.push(s.last()) =~= s);
    }
}

/// The identifier form of two runs of characters is the two forms, one after the other.
proof fn lemma_identifier_text_concat(a: Seq<char>, b: Seq<char>)
    ensures
        identifier_text(a + b) == identifier_text(a) + identifier_text(b),
    decreases b.len(),
{
    if b.len() == 0 {
        assert(a + b =~= a);
        assert(identifier_text(a) + identifier_text(b) =~= identifier_text(a));
    } else {
        assert((a + b).drop_last() =~= a + b.drop_last());
        assert((a + b).last() == b.last());
        lemma_identifier_text_concat(a, b.drop_last());
        let e = emit_of(potential_identifier_view(b.last()));
        assert(identifier_text(a) + identifier_text(b.drop_last()) + e =~= identifier_text(a) + (identifier_text(
            b.drop_last(),
        ) + e));
    }
}

/// The decimal digits of a natural number are digits, at least one, and their value is the number.
proof fn lemma_nat_text(n: nat)
    ensures
        nat_text(n).len() >= 1,
        all_digits(nat_text(n)),
        digits_value(nat_text(n)) == n,
        is_digit(nat_text(n)[0]),
    decreases n,
{
    let d = digit_char(n % 10);
    assert(('0' as u32 + n % 10) as char as int == 48 + n % 10);
    if n < 10 {
        assert(nat_text(n) == seq![d]);
        assert(seq![d].drop_last() =~= Seq::<char>::empty());
        assert(seq![d].last() == d);
        assert(digits_value(seq![d]) == digits_value(Seq::<char>::empty()) * 10 + (d as int - '0' as int));
    } else {
        lemma_nat_text(n / 10);
        let t = nat_text(n / 10);
        assert(nat_text(n) == t.push(d));
        assert(t.push(d).drop_last() =~= t);
        assert(t.push(d).last() == d);
        assert(digits_value(t.push(d)) == digits_value(t) * 10 + (d as int - '0' as int));
        assert(forall|i: int| 0 <= i < t.len() ==> #[trigger] t.push(d)[i] == t[i]);
        assert((n / 10) * 10 + n % 10 == n);
    }
}

/// The written form of an integer is a plain number that reads back as the integer.
proof fn lemma_int_text(v: i64)
    ensures
        crate::token::numeric_text_is_plain(int_text(v as int)),
        numeric_atom(int_text(v as int)) == Some(DatumAtom::<Seq<char>>::Integer(v)),
{
    let t = int_text(v as int);
    if v < 0 {
        let m = (-(v as int)) as nat;
        lemma_nat_text(m);
        let body = nat_text(m);
        assert(t == seq!['-'] + body);
        assert(t[0] == '-');
        assert(t[1] == body[0]);
        assert(strip_sign(t).1 =~= body);
        assert(class_of(t[0]) == Some(DatumCharClass::Sign));
    } else {
        lemma_nat_text(v as nat);
        assert(strip_sign(t).1 =~= t);
        assert(class_of(t[0]) == Some(DatumCharClass::Digit));
    }
    assert(ascii_lower(t[0]) != '+');
    assert(!eq_ignore_case(t, seq!['+', 'n', 'a', 'n', '.', '0']));
    assert(!eq_ignore_case(t, seq!['+', 'i', 'n', 'f', '.', '0']));
    if t.len() == 6 {
        assert(ascii_lower(t[1]) != 'i');
    }
    assert(!eq_ignore_case(t, seq!['-', 'i', 'n', 'f', '.', '0']));
    assert(i64_value(t) == Some(v));
}

/// The atoms whose written form reads back: every atom but a decimal float that
/// is not in the form that reading gives it.
pub open spec fn readable_atom(a: DatumAtom<Seq<char>>) -> bool {
    match a {
        DatumAtom::Float(DatumFloat::Decimal(t)) => crate::atom::decimal_literal_ok(t),
        _ => true,
    }
}

/// The token that a written atom reads back as.
pub open spec fn written_atom_token(a: DatumAtom<Seq<char>>) -> DatumToken<Seq<char>> {
    match a {
        DatumAtom::String(b) => DatumToken::String(b),
        DatumAtom::ID(b) => if b.len() == 0 {
            DatumToken::SpecialID(seq!['{', '}', '#'])
        } else {
            DatumToken::ID(b)
        },
        DatumAtom::Integer(v) => DatumToken::Numeric(int_text(v as int)),
        DatumAtom::Float(DatumFloat::NaN) => DatumToken::SpecialID(seq!['i', '+', 'n', 'a', 'n', '.', '0']),
        DatumAtom::Float(DatumFloat::Infinity) => DatumToken::SpecialID(seq!['i', '+', 'i', 'n', 'f', '.', '0']),
        DatumAtom::Float(DatumFloat::NegInfinity) => DatumToken::SpecialID(seq!['i', '-', 'i', 'n', 'f', '.', '0']),
        DatumAtom::Float(DatumFloat::Decimal(t)) => if crate::token::numeric_text_is_plain(t) {
            DatumToken::Numeric(t)
        } else {
            DatumToken::SpecialID(seq!['i'] + t)
        },
        DatumAtom::Boolean(true) => DatumToken::SpecialID(seq!['t']),
        DatumAtom::Boolean(false) => DatumToken::SpecialID(seq!['f']),
        DatumAtom::Nil => DatumToken::SpecialID(seq!['n', 'i', 'l']),
    }
}

/// An atom reads back as itself: the text that the writer gives a readable atom,
/// fed to a fresh character-to-token pipeline and then ended, yields exactly one
/// token, no error, and that token stands for the same atom.
pub proof fn lemma_atom_round_trip(a: DatumAtom<Seq<char>>)
    requires
        readable_atom(a),
    ensures
        ({
            let s0 = (DatumDecoderState::Normal, tokenizer_start());
            let r = run::<DatumCharToTokenPipeline>(s0, atom_text(a));
            let f = DatumCharToTokenPipeline::finish(r.0);
            &&& r.1 + f.1 == seq![written_atom_token(a)]
            &&& !DatumCharToTokenPipeline::failed(f.0)
            &&& atom_of_token(written_atom_token(a)) == Some(a)
            &&& atom_text(a) == token_text(written_atom_token(a))
            &&& plainly_written(written_atom_token(a))
        }),
{
    let tok = written_atom_token(a);
    match a {
        DatumAtom::String(b) => {},
        DatumAtom::ID(b) => {
            if b.len() == 0 {
                let x = seq!['{', '}', '#'];
                assert(class_of(x[0]) == Some(DatumCharClass::Content));
                assert(class_of(x[1]) == Some(DatumCharClass::Content));
                assert(class_of(x[2]) == Some(DatumCharClass::SpecialID));
                lemma_identifier_text_plain(x);
                assert(atom_text(a) =~= token_text(tok));
                assert(!eq_ignore_case(x, seq!['t']));
                assert(!eq_ignore_case(x, seq!['f']));
                assert(ascii_lower(x[0]) != 'n');
                assert(!eq_ignore_case(x, seq!['n', 'i', 'l']));
                assert(b =~= Seq::<char>::empty());
            }
        },
        DatumAtom::Integer(v) => {
            lemma_int_text(v);
            let t = int_text(v as int);
            let rest = t.subrange(1, t.len() as int);
            if v < 0 {
                lemma_nat_text((-(v as int)) as nat);
                assert(rest =~= nat_text((-(v as int)) as nat));
            } else {
                lemma_nat_text(v as nat);
                assert(forall|i: int| 0 <= i < rest.len() ==> #[trigger] rest[i] == t[i + 1]);
            }
            assert(forall|i: int| 0 <= i < rest.len() ==> is_digit(#[trigger] rest[i]));
            assert(forall|i: int| 0 <= i < rest.len() ==> plain_identifier_char(#[trigger] rest[i]));
            lemma_identifier_text_plain(rest);
            assert(seq![t[0]] + rest =~= t);
            assert(atom_text(a) == token_text(tok));
        },
        DatumAtom::Float(DatumFloat::Decimal(t)) => {
            if !crate::token::numeric_text_is_plain(t) {
                let x = seq!['i'] + t;
                assert(class_of('i') == Some(DatumCharClass::Content));
                lemma_identifier_text_plain(seq!['i']);
                lemma_identifier_text_concat(seq!['i'], t);
                if t.len() == 1 && class_of(t[0]) == Some(DatumCharClass::Sign) {
                    lemma_identifier_text_plain(t);
                }
                assert(atom_text(a) =~= token_text(tok));
                assert(x[0] == 'i');
                assert(ascii_lower(x[0]) != 't' && ascii_lower(x[0]) != 'f' && ascii_lower(x[0]) != 'n');
                assert(!eq_ignore_case(x, seq!['t']));
                assert(!eq_ignore_case(x, seq!['f']));
                assert(!eq_ignore_case(x, seq!['n', 'i', 'l']));
                assert(x.subrange(1, x.len() as int) =~= t);
            }
        },
        DatumAtom::Boolean(v) => {
            let x = if v {
                seq!['t']
            } else {
                seq!['f']
            };
            lemma_identifier_text_plain(x);
            assert(atom_text(a) =~= token_text(tok));
            assert(eq_ignore_case(x, x));
            assert(!v ==> !eq_ignore_case(x, seq!['t']));
        },
        DatumAtom::Nil => {
            let x = seq!['n', 'i', 'l'];
            lemma_identifier_text_plain(x);
            assert(atom_text(a) =~= token_text(tok));
            assert(eq_ignore_case(x, x));
        },
        DatumAtom::Float(f) => {
            let x = tok->SpecialID_0;
            assert(forall|i: int| 0 <= i < x.len() ==> plain_identifier_char(#[trigger] x[i]));
            lemma_identifier_text_plain(x);
            assert(atom_text(a) =~= token_text(tok));
            let y = x.subrange(1, x.len() as int);
            assert(eq_ignore_case(y, y));
            assert(ascii_lower(x[0]) != 't' && ascii_lower(x[0]) != 'f' && ascii_lower(x[0]) != 'n');
            assert(!eq_ignore_case(x, seq!['t']));
            assert(!eq_ignore_case(x, seq!['f']));
            assert(!eq_ignore_case(x, seq!['n', 'i', 'l']));
            if f is Infinity || f is NegInfinity {
                assert(ascii_lower(y[1]) != 'n');
                assert(!eq_ignore_case(y, seq!['+', 'n', 'a', 'n', '.', '0']));
            }
            if f is NegInfinity {
                assert(!eq_ignore_case(y, seq!['+', 'i', 'n', 'f', '.', '0']));
            }
        },
    }
    assert(atom_text(a) == token_text(tok));
    assert(atom_of_token(tok) == Some(a));
    assert(plainly_written(tok));
    lemma_token_round_trip(tok);
}

} // verus!
