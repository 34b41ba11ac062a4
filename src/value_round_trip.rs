//! Reading back the text that the writer gives a whole value.
use vstd::prelude::*;

use crate::ast::{
    close_value, item_parts, parser_step, quoted, value_items, write_item, write_items, AllocDatumParser, DatumValueView, FrameView,
    ParserModel, WriteItem,
};
use crate::atom::{atom_of_token, numeric_atom, DatumAtom, DatumFloat};
use crate::char_classes::{class_of, identify_view, DatumCharView};
use crate::decoder::{DatumDecoder, DatumDecoderState};
use crate::pipeline::{lemma_compose_run, lemma_run_append, lemma_run_one, run, DatumPipe};
use crate::pipelines::{parser_start, tokenizer_start, DatumCharToTokenPipeline, DatumCharToValuePipeline};
use crate::round_trip::{
    after_token, is_word, lemma_atom_round_trip, lemma_finish_word, lemma_token_round_trip, plainly_written,
    readable_atom, written_atom_token,
};
use crate::token::{
    apply_actions, lemma_apply_one, token_of, token_text, DatumStringTokenizer, DatumToken, PipeTokenizerModel,
};
use crate::token_core::{DatumTokenType, DatumTokenizerAction};
use crate::writer::{DatumWriter, DatumWriterState};

verus! {

/// The character-to-token chain between tokens.
pub open spec fn chain_start() -> (DatumDecoderState, PipeTokenizerModel) {
    (DatumDecoderState::Normal, tokenizer_start())
}

/// A space or a line break between tokens changes nothing.
proof fn lemma_space_between_tokens(ch: char)
    requires
        ch == ' ' || ch == '\n',
    ensures
        run::<DatumCharToTokenPipeline>(chain_start(), seq![ch]) == (
            chain_start(),
            Seq::<DatumToken<Seq<char>>>::empty(),
        ),
{
    let c = DatumCharView { ch, class: class_of(ch)->0 };
    assert(identify_view(ch) == Some(c));
    lemma_compose_run::<DatumDecoder, DatumStringTokenizer>(chain_start(), seq![ch]);
    lemma_run_one::<DatumDecoder>(DatumDecoderState::Normal, ch);
    lemma_run_one::<DatumStringTokenizer>(tokenizer_start(), c);
    assert(apply_actions(Seq::<char>::empty(), ' ', Seq::<DatumTokenizerAction>::empty()) == (
        Seq::<char>::empty(),
        Seq::<DatumToken<Seq<char>>>::empty(),
    ));
}

/// An open word closes at a space or a line break, or at a list end, which is a
/// token itself.
proof fn lemma_close_word(t: DatumToken<Seq<char>>, c: char)
    requires
        is_word(t),
        c == ' ' || c == '\n' || c == ')',
    ensures
        run::<DatumCharToTokenPipeline>((DatumDecoderState::Normal, after_token(t)), seq![c]) == (
            chain_start(),
            if c != ')' {
                seq![t]
            } else {
                seq![t, DatumToken::ListEnd]
            },
        ),
{
    let class = class_of(c)->0;
    let cv = DatumCharView { ch: c, class };
    assert(identify_view(c) == Some(cv));
    lemma_compose_run::<DatumDecoder, DatumStringTokenizer>((DatumDecoderState::Normal, after_token(t)), seq![c]);
    lemma_run_one::<DatumDecoder>(DatumDecoderState::Normal, c);
    lemma_run_one::<DatumStringTokenizer>(after_token(t), cv);
    let m = after_token(t);
    let tt = if t is Numeric {
        DatumTokenType::Numeric
    } else if t is SpecialID {
        DatumTokenType::SpecialID
    } else {
        DatumTokenType::ID
    };
    assert(token_of(tt, m.buffer) == t);
    let first = DatumTokenizerAction::Token(tt);
    lemma_apply_one(m.buffer, c, first);
    if c != ')' {
        assert(seq![first] + Seq::<DatumTokenizerAction>::empty() =~= seq![first]);
    } else {
        let second = DatumTokenizerAction::Token(DatumTokenType::ListEnd);
        let acts = seq![first] + seq![second];
        assert(acts.drop_last() =~= seq![first]);
        assert(acts.last() == second);
        assert(Seq::<DatumToken<Seq<char>>>::empty().push(t).push(DatumToken::ListEnd) =~= seq![t, DatumToken::ListEnd]);
    }
}

/// The token that a written element reads back as.
pub open spec fn item_token(x: WriteItem) -> DatumToken<Seq<char>> {
    match x {
        WriteItem::Atom(a) => written_atom_token(a),
        WriteItem::ListStart => DatumToken::ListStart,
        WriteItem::ListEnd => DatumToken::ListEnd,
    }
}

/// The tokens that written elements read back as.
pub open spec fn item_tokens(xs: Seq<WriteItem>) -> Seq<DatumToken<Seq<char>>> {
    Seq::new(xs.len(), |i: int| item_token(xs[i]))
}

/// The word still open after written elements: the last one, if it is a word.
pub open spec fn open_word(xs: Seq<WriteItem>) -> Option<DatumToken<Seq<char>>> {
    if xs.len() > 0 && is_word(item_token(xs.last())) {
        Some(item_token(xs.last()))
    } else {
        None
    }
}

/// The chain after reading written elements.
pub open spec fn chain_after(xs: Seq<WriteItem>) -> (DatumDecoderState, PipeTokenizerModel) {
    match open_word(xs) {
        Some(t) => (DatumDecoderState::Normal, after_token(t)),
        None => chain_start(),
    }
}

/// The tokens out after reading written elements: all but a word still open.
pub open spec fn tokens_out(xs: Seq<WriteItem>) -> Seq<DatumToken<Seq<char>>> {
    if open_word(xs) is Some {
        item_tokens(xs).drop_last()
    } else {
        item_tokens(xs)
    }
}

/// Every atom among written elements reads back.
pub open spec fn readable_items(xs: Seq<WriteItem>) -> bool {
    forall|i: int| 0 <= i < xs.len() ==> (#[trigger] xs[i] matches WriteItem::Atom(a) ==> readable_atom(a))
}

/// The writer's state after elements, from a writer that owes nothing.
pub open spec fn writer_state_after(xs: Seq<WriteItem>) -> DatumWriterState {
    if xs.len() == 0 || xs.last() is ListStart {
        DatumWriterState::Nothing
    } else {
        DatumWriterState::AfterToken
    }
}

/// Reading written elements, one after the other, gives their tokens.
proof fn lemma_items_read(w0: DatumWriter, xs: Seq<WriteItem>)
    requires
        w0.state is Nothing,
        readable_items(xs),
    ensures
        write_items(w0, xs).0 == (DatumWriter { indent: w0.indent, state: writer_state_after(xs) }),
        run::<DatumCharToTokenPipeline>(chain_start(), write_items(w0, xs).1) == (chain_after(xs), tokens_out(xs)),
    decreases xs.len(),
{
    let none = Seq::<DatumToken<Seq<char>>>::empty();
    if xs.len() == 0 {
        assert(item_tokens(xs) =~= none);
        return;
    }
    let ys = xs.drop_last();
    let x = xs.last();
    assert(readable_items(ys)) by {
        assert forall|i: int| 0 <= i < ys.len() implies (#[trigger] ys[i] matches WriteItem::Atom(a) ==> readable_atom(a)) by {
            assert(ys[i] == xs[i]);
        }
    }
    assert(x == xs[xs.len() - 1]);
    lemma_items_read(w0, ys);
    let wy = write_items(w0, ys);
    let step = write_item(wy.0, x);
    let tx = item_token(x);
    let ws = crate::writer::whitespace_text(wy.0, x is ListEnd);
    let body = step.1.subrange(ws.len() as int, step.1.len() as int);
    assert(step.1 =~= ws + body);
    assert(body == token_text(tx)) by {
        if let WriteItem::Atom(a) = x {
            lemma_atom_round_trip(a);
        }
    }
    assert(plainly_written(tx)) by {
        if let WriteItem::Atom(a) = x {
            lemma_atom_round_trip(a);
        }
    }
    lemma_run_append::<DatumCharToTokenPipeline>(chain_start(), wy.1, step.1);
    lemma_run_append::<DatumCharToTokenPipeline>(chain_after(ys), ws, body);
    assert(item_tokens(xs) =~= item_tokens(ys).push(tx));
    let before = tokens_out(ys);
    if open_word(ys) is Some {
        assert(item_tokens(ys) =~= before.push(item_token(ys.last())));
    }
    lemma_token_round_trip(tx);
    if wy.0.state is Nothing {
        assert(ws =~= Seq::<char>::empty());
        assert(open_word(ys) is None);
        assert(run::<DatumCharToTokenPipeline>(chain_start(), ws) == (chain_start(), none));
    } else if x is ListEnd {
        assert(ws =~= Seq::<char>::empty());
        assert(run::<DatumCharToTokenPipeline>(chain_after(ys), ws) == (chain_after(ys), none));
        if let Some(t) = open_word(ys) {
            lemma_close_word(t, ')');
            assert(body =~= seq![')']);
            assert(before + none + seq![t, DatumToken::ListEnd] =~= item_tokens(xs));
        }
    } else {
        assert(ws =~= seq![' ']);
        if let Some(t) = open_word(ys) {
            lemma_close_word(t, ' ');
            assert(before + seq![t] =~= item_tokens(ys));
        } else {
            lemma_space_between_tokens(' ');
        }
    }
    let after = run::<DatumCharToTokenPipeline>(chain_start(), wy.1 + step.1);
    assert(after.1 =~= tokens_out(xs));
}

/// Every atom of a value reads back.
pub open spec fn readable_value(v: DatumValueView) -> bool
    decreases v,
{
    match v {
        DatumValueView::Atom(a) => readable_atom(a),
        DatumValueView::List(vs) => forall|i: int| 0 <= i < vs.len() ==> readable_value(#[trigger] vs[i]),
    }
}

/// Written elements of two runs are readable when both runs are.
proof fn lemma_readable_concat(a: Seq<WriteItem>, b: Seq<WriteItem>)
    requires
        readable_items(a),
        readable_items(b),
    ensures
        readable_items(a + b),
{
    assert forall|i: int| 0 <= i < (a + b).len() implies (#[trigger] (a + b)[i] matches WriteItem::Atom(x)
        ==> readable_atom(x)) by {
        if i < a.len() {
            assert((a + b)[i] == a[i]);
        } else {
            assert((a + b)[i] == b[i - a.len()]);
        }
    }
}

/// The elements written for a readable value are readable.
proof fn lemma_readable_items(v: DatumValueView)
    requires
        readable_value(v),
    ensures
        readable_items(value_items(v)),
    decreases v, 0nat,
{
    match v {
        DatumValueView::Atom(a) => {
            assert(value_items(v) =~= seq![WriteItem::Atom(a)]);
        },
        DatumValueView::List(vs) => {
            lemma_readable_parts(vs, vs.len() as int);
            let flat = item_parts(vs, vs.len() as int).flatten();
            lemma_readable_concat(seq![WriteItem::ListStart], flat);
            lemma_readable_concat(seq![WriteItem::ListStart] + flat, seq![WriteItem::ListEnd]);
        },
    }
}

/// The elements written for the first `k` values of a readable list are readable.
proof fn lemma_readable_parts(vs: Seq<DatumValueView>, k: int)
    requires
        0 <= k <= vs.len(),
        forall|i: int| 0 <= i < vs.len() ==> readable_value(#[trigger] vs[i]),
    ensures
        readable_items(item_parts(vs, k).flatten()),
    decreases vs, k,
{
    if k == 0 {
        assert(item_parts(vs, k) =~= Seq::<Seq<WriteItem>>::empty());
        assert(item_parts(vs, k).flatten() =~= Seq::<WriteItem>::empty());
    } else {
        lemma_readable_parts(vs, k - 1);
        assert(decreases_to!(vs => vs[k - 1]));
        lemma_readable_items(vs[k - 1]);
        assert(item_parts(vs, k) =~= item_parts(vs, k - 1).push(value_items(vs[k - 1])));
        item_parts(vs, k - 1).lemma_flatten_push(value_items(vs[k - 1]));
        lemma_readable_concat(item_parts(vs, k - 1).flatten(), value_items(vs[k - 1]));
    }
}

/// The tokens of two runs of written elements are the two runs of tokens.
proof fn lemma_item_tokens_concat(a: Seq<WriteItem>, b: Seq<WriteItem>)
    ensures
        item_tokens(a + b) == item_tokens(a) + item_tokens(b),
{
    assert(item_tokens(a + b) =~= item_tokens(a) + item_tokens(b));
}

/// The parser, fed the tokens of a readable value, closes that value on its stack.
proof fn lemma_parse_value(st: Seq<FrameView>, v: DatumValueView)
    requires
        readable_value(v),
    ensures
        run::<AllocDatumParser>(ParserModel { stack: st, error: false }, item_tokens(value_items(v))) == (
            ParserModel { stack: close_value(st, v).0, error: false },
            close_value(st, v).1,
        ),
    decreases v, 0nat,
{
    let m = ParserModel { stack: st, error: false };
    match v {
        DatumValueView::Atom(a) => {
            lemma_atom_round_trip(a);
            let tok = written_atom_token(a);
            assert(item_tokens(value_items(v)) =~= seq![tok]);
            lemma_run_one::<AllocDatumParser>(m, tok);
        },
        DatumValueView::List(vs) => {
            let n = vs.len() as int;
            let flat = item_parts(vs, n).flatten();
            let ls = seq![WriteItem::ListStart];
            let le = seq![WriteItem::ListEnd];
            lemma_item_tokens_concat(ls, flat);
            lemma_item_tokens_concat(ls + flat, le);
            assert(item_tokens(ls) =~= seq![DatumToken::ListStart]);
            assert(item_tokens(le) =~= seq![DatumToken::ListEnd]);
            let t_ls = item_tokens(ls);
            let t_flat = item_tokens(flat);
            let t_le = item_tokens(le);
            lemma_run_append::<AllocDatumParser>(m, t_ls + t_flat, t_le);
            lemma_run_append::<AllocDatumParser>(m, t_ls, t_flat);
            lemma_run_one::<AllocDatumParser>(m, DatumToken::ListStart);
            let opened = ParserModel { stack: st.push(FrameView::InList(seq![])), error: false };
            assert(run::<AllocDatumParser>(m, t_ls) == (opened, Seq::<DatumValueView>::empty()));
            lemma_parse_elements(st, vs, n);
            assert(vs.subrange(0, n) =~= vs);
            let filled = ParserModel { stack: st.push(FrameView::InList(vs)), error: false };
            lemma_run_one::<AllocDatumParser>(filled, DatumToken::ListEnd);
            assert(filled.stack.drop_last() =~= st);
            let none = Seq::<DatumValueView>::empty();
            assert(none + none =~= none);
            assert(none + close_value(st, v).1 =~= close_value(st, v).1);
        },
    }
}

/// The parser, fed the tokens of the first `k` values of a list just opened, holds
/// those values in the open list.
proof fn lemma_parse_elements(st: Seq<FrameView>, vs: Seq<DatumValueView>, k: int)
    requires
        0 <= k <= vs.len(),
        forall|i: int| 0 <= i < vs.len() ==> readable_value(#[trigger] vs[i]),
    ensures
        run::<AllocDatumParser>(
            ParserModel { stack: st.push(FrameView::InList(seq![])), error: false },
            item_tokens(item_parts(vs, k).flatten()),
        ) == (
            ParserModel { stack: st.push(FrameView::InList(vs.subrange(0, k))), error: false },
            Seq::<DatumValueView>::empty(),
        ),
    decreases vs, k,
{
    let m = ParserModel { stack: st.push(FrameView::InList(seq![])), error: false };
    if k == 0 {
        assert(item_parts(vs, k) =~= Seq::<Seq<WriteItem>>::empty());
        assert(item_parts(vs, k).flatten() =~= Seq::<WriteItem>::empty());
        assert(item_tokens(Seq::<WriteItem>::empty()) =~= Seq::<DatumToken<Seq<char>>>::empty());
        assert(vs.subrange(0, 0) =~= Seq::<DatumValueView>::empty());
    } else {
        lemma_parse_elements(st, vs, k - 1);
        let x = vs[k - 1];
        assert(decreases_to!(vs => x));
        assert(item_parts(vs, k) =~= item_parts(vs, k - 1).push(value_items(x)));
        item_parts(vs, k - 1).lemma_flatten_push(value_items(x));
        let before = item_parts(vs, k - 1).flatten();
        lemma_item_tokens_concat(before, value_items(x));
        lemma_run_append::<AllocDatumParser>(m, item_tokens(before), item_tokens(value_items(x)));
        let prefix = vs.subrange(0, k - 1);
        let st2 = st.push(FrameView::InList(prefix));
        lemma_parse_value(st2, x);
        assert(st2.drop_last() =~= st);
        assert(prefix.push(x) =~= vs.subrange(0, k));
        let none = Seq::<DatumValueView>::empty();
        assert(none + none =~= none);
    }
}

/// A value reads back as itself: the text that `DatumValue::write_to` gives a
/// readable value from a writer that owes nothing, fed to a fresh
/// character-to-value pipeline and then ended, yields exactly that value, and no
/// error. A readable value is one whose decimal floats are in the form that
/// reading gives them; every value that reading gives is readable.
pub proof fn lemma_value_round_trip(w0: DatumWriter, v: DatumValueView)
    requires
        w0.state is Nothing,
        readable_value(v),
    ensures
        ({
            let text = write_items(w0, value_items(v)).1;
            let s0 = (chain_start(), parser_start());
            let r = run::<DatumCharToValuePipeline>(s0, text);
            let f = DatumCharToValuePipeline::finish(r.0);
            &&& r.1 + f.1 == seq![v]
            &&& !DatumCharToValuePipeline::failed(f.0)
        }),
{
    let xs = value_items(v);
    let text = write_items(w0, xs).1;
    let s0 = (chain_start(), parser_start());
    lemma_readable_items(v);
    lemma_items_read(w0, xs);
    lemma_compose_run::<DatumCharToTokenPipeline, AllocDatumParser>(s0, text);
    let out = tokens_out(xs);
    let ft = DatumCharToTokenPipeline::finish(chain_after(xs));
    if let Some(t) = open_word(xs) {
        let m = after_token(t);
        let tt = if t is Numeric {
            DatumTokenType::Numeric
        } else if t is SpecialID {
            DatumTokenType::SpecialID
        } else {
            DatumTokenType::ID
        };
        assert(token_of(tt, m.buffer) == t);
        lemma_finish_word(m.tokenizer.state, tt, m.buffer);
        assert(out + ft.1 =~= item_tokens(xs));
    } else {
        let t0 = tokenizer_start();
        assert(run::<DatumStringTokenizer>(t0, Seq::<DatumCharView>::empty()) == (
            t0,
            Seq::<DatumToken<Seq<char>>>::empty(),
        ));
        assert(apply_actions(Seq::<char>::empty(), ' ', Seq::<DatumTokenizerAction>::empty()) == (
            Seq::<char>::empty(),
            Seq::<DatumToken<Seq<char>>>::empty(),
        ));
        assert(ft.1 =~= Seq::<DatumToken<Seq<char>>>::empty());
        assert(out + ft.1 =~= item_tokens(xs));
    }
    let empty_parser = parser_start();
    let rp = run::<AllocDatumParser>(empty_parser, out);
    lemma_run_append::<AllocDatumParser>(empty_parser, out, ft.1);
    lemma_parse_value(Seq::<FrameView>::empty(), v);
    assert(close_value(Seq::<FrameView>::empty(), v) == (Seq::<FrameView>::empty(), seq![v]));
    let r = run::<DatumCharToValuePipeline>(s0, text);
    let f = DatumCharToValuePipeline::finish(r.0);
    assert(r.1 + f.1 =~= rp.1 + run::<AllocDatumParser>(rp.0, ft.1).1);
}

/// A writer at indentation zero that owes nothing.
pub open spec fn fresh_writer() -> DatumWriter {
    DatumWriter { indent: 0, state: DatumWriterState::Nothing }
}

/// After a line break at indentation zero, the writer writes elements exactly as a
/// fresh writer does.
pub proof fn lemma_queued_indent_zero(xs: Seq<WriteItem>)
    requires
        xs.len() > 0,
    ensures
        write_items(DatumWriter { indent: 0, state: DatumWriterState::QueuedIndent }, xs) == write_items(
            fresh_writer(),
            xs,
        ),
    decreases xs.len(),
{
    let q = DatumWriter { indent: 0, state: DatumWriterState::QueuedIndent };
    if xs.len() == 1 {
        let x = xs.last();
        assert(xs.drop_last() =~= Seq::<WriteItem>::empty());
        assert(crate::writer::tabs(0) =~= Seq::<char>::empty());
        assert(write_items(q, Seq::<WriteItem>::empty()) == (q, Seq::<char>::empty()));
        assert(write_items(fresh_writer(), Seq::<WriteItem>::empty()) == (fresh_writer(), Seq::<char>::empty()));
        assert(crate::writer::whitespace_text(q, x is ListEnd) =~= crate::writer::whitespace_text(
            fresh_writer(),
            x is ListEnd,
        ));
        assert(write_item(q, x) == write_item(fresh_writer(), x));
    } else {
        lemma_queued_indent_zero(xs.drop_last());
    }
}

/// The text of a document: each value written by a fresh writer, then a line break.
pub open spec fn document_text(vs: Seq<DatumValueView>) -> Seq<char>
    decreases vs.len(),
{
    if vs.len() == 0 {
        seq![]
    } else {
        document_text(vs.drop_last()) + write_items(fresh_writer(), value_items(vs.last())).1 + seq!['\n']
    }
}

/// The character-to-value chain at the start of input.
pub open spec fn value_chain_start() -> ((DatumDecoderState, PipeTokenizerModel), ParserModel) {
    (chain_start(), parser_start())
}

/// One written value and its line break read back as that value, and the chain is
/// back at its start.
proof fn lemma_line_read(v: DatumValueView)
    requires
        readable_value(v),
    ensures
        run::<DatumCharToValuePipeline>(
            value_chain_start(),
            write_items(fresh_writer(), value_items(v)).1 + seq!['\n'],
        ) == (value_chain_start(), seq![v]),
{
    let xs = value_items(v);
    let text = write_items(fresh_writer(), xs).1;
    let line = text + seq!['\n'];
    lemma_readable_items(v);
    lemma_items_read(fresh_writer(), xs);
    lemma_run_append::<DatumCharToTokenPipeline>(chain_start(), text, seq!['\n']);
    if let Some(t) = open_word(xs) {
        lemma_close_word(t, '\n');
        assert(tokens_out(xs) + seq![t] =~= item_tokens(xs));
    } else {
        lemma_space_between_tokens('\n');
        assert(tokens_out(xs) + Seq::<DatumToken<Seq<char>>>::empty() =~= item_tokens(xs));
    }
    assert(run::<DatumCharToTokenPipeline>(chain_start(), line) == (chain_start(), item_tokens(xs)));
    lemma_compose_run::<DatumCharToTokenPipeline, AllocDatumParser>(value_chain_start(), line);
    lemma_parse_value(Seq::<FrameView>::empty(), v);
    assert(close_value(Seq::<FrameView>::empty(), v) == (Seq::<FrameView>::empty(), seq![v]));
    assert(ParserModel { stack: Seq::<FrameView>::empty(), error: false } == parser_start());
}

/// A document reads back as its values: the text of a document of readable values,
/// fed to a fresh character-to-value pipeline, yields exactly those values; the
/// chain is then back at its start, and ending it yields nothing more and no error.
pub proof fn lemma_document_round_trip(vs: Seq<DatumValueView>)
    requires
        forall|i: int| 0 <= i < vs.len() ==> readable_value(#[trigger] vs[i]),
    ensures
        run::<DatumCharToValuePipeline>(value_chain_start(), document_text(vs)) == (value_chain_start(), vs),
        DatumCharToValuePipeline::finish(value_chain_start()).1 == Seq::<DatumValueView>::empty(),
        !DatumCharToValuePipeline::failed(DatumCharToValuePipeline::finish(value_chain_start()).0),
    decreases vs.len(),
{
    let s0 = value_chain_start();
    if vs.len() == 0 {
        assert(run::<DatumCharToValuePipeline>(s0, Seq::<char>::empty()) == (s0, Seq::<DatumValueView>::empty()));
        assert(vs =~= Seq::<DatumValueView>::empty());
    } else {
        let init = vs.drop_last();
        let v = vs.last();
        assert(forall|i: int| 0 <= i < init.len() ==> #[trigger] init[i] == vs[i]);
        lemma_document_round_trip(init);
        assert(readable_value(vs[vs.len() - 1]));
        lemma_line_read(v);
        let line = write_items(fresh_writer(), value_items(v)).1 + seq!['\n'];
        assert(document_text(vs) =~= document_text(init) + line);
        lemma_run_append::<DatumCharToValuePipeline>(s0, document_text(init), line);
        assert(init + seq![v] =~= vs);
    }
    let t0 = tokenizer_start();
    assert(run::<DatumStringTokenizer>(t0, Seq::<DatumCharView>::empty()) == (
        t0,
        Seq::<DatumToken<Seq<char>>>::empty(),
    ));
    assert(apply_actions(Seq::<char>::empty(), ' ', Seq::<DatumTokenizerAction>::empty()) == (
        Seq::<char>::empty(),
        Seq::<DatumToken<Seq<char>>>::empty(),
    ));
    assert(run::<AllocDatumParser>(parser_start(), Seq::<DatumToken<Seq<char>>>::empty()) == (
        parser_start(),
        Seq::<DatumValueView>::empty(),
    ));
}

/// Writing is idempotent on what reading gives back: the values read back from the
/// text of a document of readable values are written as that same text.
pub proof fn lemma_document_write_idempotent(vs: Seq<DatumValueView>)
    requires
        forall|i: int| 0 <= i < vs.len() ==> readable_value(#[trigger] vs[i]),
    ensures
        document_text(run::<DatumCharToValuePipeline>(value_chain_start(), document_text(vs)).1) == document_text(vs),
{
    lemma_document_round_trip(vs);
}

/// An atom that a token stands for is readable.
proof fn lemma_token_atom_readable(t: DatumToken<Seq<char>>)
    ensures
        atom_of_token(t) matches Some(a) ==> readable_atom(a),
{
    if let Some(a) = atom_of_token(t) {
        if let DatumAtom::Float(DatumFloat::Decimal(d)) = a {
            match t {
                DatumToken::Numeric(b) => {
                    assert(numeric_atom(b) == Some(a));
                },
                DatumToken::SpecialID(b) => {
                    assert(numeric_atom(b.subrange(1, b.len() as int)) == Some(a));
                },
                _ => {},
            }
        }
    }
}

/// Every value held by a frame is readable.
pub open spec fn frame_readable(f: FrameView) -> bool {
    match f {
        FrameView::InList(ch) => forall|j: int| 0 <= j < ch.len() ==> readable_value(#[trigger] ch[j]),
        FrameView::InQuote => true,
    }
}

/// Every value held in the open lists of a parser's stack is readable.
pub open spec fn frames_readable(st: Seq<FrameView>) -> bool {
    forall|i: int| 0 <= i < st.len() ==> frame_readable(#[trigger] st[i])
}

/// Closing a readable value on a readable stack keeps the stack readable and
/// yields only readable values.
proof fn lemma_close_readable(st: Seq<FrameView>, v: DatumValueView)
    requires
        frames_readable(st),
        readable_value(v),
    ensures
        frames_readable(close_value(st, v).0),
        forall|k: int| 0 <= k < close_value(st, v).1.len() ==> readable_value(#[trigger] close_value(st, v).1[k]),
    decreases st.len(),
{
    if st.len() > 0 {
        let init = st.drop_last();
        assert(frames_readable(init)) by {
            assert forall|i: int| 0 <= i < init.len() implies frame_readable(#[trigger] init[i]) by {
                assert(init[i] == st[i]);
            }
        }
        assert(frame_readable(st[st.len() - 1]));
        match st.last() {
            FrameView::InList(ch) => {
                let ch2 = ch.push(v);
                let nst = init.push(FrameView::InList(ch2));
                assert(frame_readable(FrameView::InList(ch2))) by {
                    assert forall|j: int| 0 <= j < ch2.len() implies readable_value(#[trigger] ch2[j]) by {
                        if j < ch.len() {
                            assert(ch2[j] == ch[j]);
                        }
                    }
                }
                assert forall|i: int| 0 <= i < nst.len() implies frame_readable(#[trigger] nst[i]) by {
                    if i < init.len() {
                        assert(nst[i] == init[i]);
                    }
                }
            },
            FrameView::InQuote => {
                let q = quoted(v);
                let items = q->List_0;
                assert(readable_value(items[0]));
                assert(readable_value(items[1]));
                assert(readable_value(q));
                lemma_close_readable(init, q);
            },
        }
    }
}

/// Whatever the parser reads, its stack stays readable and it yields only readable values.
proof fn lemma_parser_readable(m: ParserModel, ts: Seq<DatumToken<Seq<char>>>)
    requires
        frames_readable(m.stack),
    ensures
        frames_readable(run::<AllocDatumParser>(m, ts).0.stack),
        forall|k: int|
            0 <= k < run::<AllocDatumParser>(m, ts).1.len() ==> readable_value(
                #[trigger] run::<AllocDatumParser>(m, ts).1[k],
            ),
    decreases ts.len(),
{
    if ts.len() > 0 {
        let init = ts.drop_last();
        let t = ts.last();
        lemma_parser_readable(m, init);
        let r = run::<AllocDatumParser>(m, init);
        let st = r.0.stack;
        let n = parser_step(r.0, t, true);
        lemma_token_atom_readable(t);
        if !r.0.error {
            match t {
                DatumToken::Quote | DatumToken::ListStart => {
                    let nst = n.0.stack;
                    assert forall|i: int| 0 <= i < nst.len() implies frame_readable(#[trigger] nst[i]) by {
                        if i < st.len() {
                            assert(nst[i] == st[i]);
                        }
                    }
                },
                DatumToken::ListEnd => {
                    if st.len() > 0 && st.last() is InList {
                        let ch = st.last()->InList_0;
                        assert(frame_readable(st[st.len() - 1]));
                        assert(readable_value(DatumValueView::List(ch)));
                        let init_st = st.drop_last();
                        assert(frames_readable(init_st)) by {
                            assert forall|i: int| 0 <= i < init_st.len() implies frame_readable(#[trigger] init_st[i]) by {
                                assert(init_st[i] == st[i]);
                            }
                        }
                        lemma_close_readable(init_st, DatumValueView::List(ch));
                    }
                },
                _ => {
                    if let Some(a) = atom_of_token(t) {
                        lemma_close_readable(st, DatumValueView::Atom(a));
                    }
                },
            }
        }
        assert forall|k: int|
            0 <= k < run::<AllocDatumParser>(m, ts).1.len() implies readable_value(
                #[trigger] run::<AllocDatumParser>(m, ts).1[k],
            ) by {
            if k >= r.1.len() {
                assert(run::<AllocDatumParser>(m, ts).1[k] == n.1[k - r.1.len()]);
            } else {
                assert(run::<AllocDatumParser>(m, ts).1[k] == r.1[k]);
            }
        }
    }
}

/// The values read from a text, up to and including the end of input.
pub open spec fn read_values(text: Seq<char>) -> Seq<DatumValueView> {
    let r = run::<DatumCharToValuePipeline>(value_chain_start(), text);
    r.1 + DatumCharToValuePipeline::finish(r.0).1
}

/// Whether reading a text, up to and including the end of input, ends in an error.
pub open spec fn read_fails(text: Seq<char>) -> bool {
    let r = run::<DatumCharToValuePipeline>(value_chain_start(), text);
    DatumCharToValuePipeline::failed(DatumCharToValuePipeline::finish(r.0).0)
}

/// Every value read from any text is readable.
pub proof fn lemma_read_values_readable(text: Seq<char>)
    ensures
        forall|k: int| 0 <= k < read_values(text).len() ==> readable_value(#[trigger] read_values(text)[k]),
{
    let s0 = value_chain_start();
    lemma_compose_run::<DatumCharToTokenPipeline, AllocDatumParser>(s0, text);
    let rt = run::<DatumCharToTokenPipeline>(chain_start(), text);
    let ft = DatumCharToTokenPipeline::finish(rt.0);
    let empty_parser = parser_start();
    lemma_run_append::<AllocDatumParser>(empty_parser, rt.1, ft.1);
    assert(frames_readable(empty_parser.stack));
    lemma_parser_readable(empty_parser, rt.1 + ft.1);
    let rp = run::<AllocDatumParser>(empty_parser, rt.1);
    let b = run::<AllocDatumParser>(rp.0, ft.1);
    let r = run::<DatumCharToValuePipeline>(s0, text);
    let f = DatumCharToValuePipeline::finish(r.0);
    assert(f.1 == b.1 + Seq::<DatumValueView>::empty());
    assert(read_values(text) =~= rp.1 + b.1);
    let all = run::<AllocDatumParser>(empty_parser, rt.1 + ft.1).1;
    assert(read_values(text) == all);
}

/// Round trip and idempotence for any text: the values read from it, written as a
/// document, read back as the same values with no error; and writing what is read
/// back gives the same text again.
pub proof fn lemma_read_write_read(text: Seq<char>)
    ensures
        read_values(document_text(read_values(text))) == read_values(text),
        !read_fails(document_text(read_values(text))),
        document_text(read_values(document_text(read_values(text)))) == document_text(read_values(text)),
{
    let vs = read_values(text);
    lemma_read_values_readable(text);
    lemma_document_round_trip(vs);
    assert(vs + Seq::<DatumValueView>::empty() =~= vs);
}

/// Canonical text reads back to itself: the text of a document of readable values,
/// read and written again, is that same text.
pub proof fn lemma_canonical_text_fixed(vs: Seq<DatumValueView>)
    requires
        forall|i: int| 0 <= i < vs.len() ==> readable_value(#[trigger] vs[i]),
    ensures
        document_text(read_values(document_text(vs))) == document_text(vs),
        !read_fails(document_text(vs)),
{
    lemma_document_round_trip(vs);
    assert(vs + Seq::<DatumValueView>::empty() =~= vs);
}

} // verus!
