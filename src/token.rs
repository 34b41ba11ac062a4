//! Tokens with their text, writing them back, and the tokenizer stage that builds them.
use vstd::prelude::*;

use crate::char_classes::{
    class_of, content_view, emit_of, potential_identifier_view, DatumChar,
    DatumCharClass, DatumCharView,
};
use crate::pipeline::{views, DatumPipe};
use crate::array::DatumTextBuffer;
use crate::text::{chars_of, push_char};
use crate::token_core::{
    tokenizer_finish, tokenizer_step, DatumTokenType, DatumTokenizer, DatumTokenizerAction,
    TokenizerModel,
};

verus! {

/// The most tokens that one character, or the end of input, yields.
pub const DATUM_PIPE_TOKENIZER_MAX_SIZE: usize = 2;

/// Datum token with its text.
#[derive(Clone, PartialEq, Eq, Debug)]
pub enum DatumToken<B> {
    /// String. Buffer contents are the unescaped string contents.
    String(B),
    /// ID. Buffer contents are the symbol.
    ID(B),
    /// Special ID. Buffer contents are the symbol (text after, but not including, '#').
    SpecialID(B),
    /// Numeric. Buffer contents are simply the token.
    Numeric(B),
    /// Quote shorthand.
    Quote,
    /// List start.
    ListStart,
    /// List end.
    ListEnd,
}

impl View for DatumToken<String> {
    type V = DatumToken<Seq<char>>;

    open spec fn view(&self) -> DatumToken<Seq<char>> {
        match self {
            DatumToken::String(b) => DatumToken::String(b@),
            DatumToken::ID(b) => DatumToken::ID(b@),
            DatumToken::SpecialID(b) => DatumToken::SpecialID(b@),
            DatumToken::Numeric(b) => DatumToken::Numeric(b@),
            DatumToken::Quote => DatumToken::Quote,
            DatumToken::ListStart => DatumToken::ListStart,
            DatumToken::ListEnd => DatumToken::ListEnd,
        }
    }
}

/// The token of a type with a text; the text of the three structural tokens is dropped.
pub open spec fn token_of<B>(tt: DatumTokenType, text: B) -> DatumToken<B> {
    match tt {
        DatumTokenType::String => DatumToken::String(text),
        DatumTokenType::ID => DatumToken::ID(text),
        DatumTokenType::SpecialID => DatumToken::SpecialID(text),
        DatumTokenType::Numeric => DatumToken::Numeric(text),
        DatumTokenType::Quote => DatumToken::Quote,
        DatumTokenType::ListStart => DatumToken::ListStart,
        DatumTokenType::ListEnd => DatumToken::ListEnd,
    }
}

/// The type of a token.
pub open spec fn type_of<B>(t: DatumToken<B>) -> DatumTokenType {
    match t {
        DatumToken::String(_) => DatumTokenType::String,
        DatumToken::ID(_) => DatumTokenType::ID,
        DatumToken::SpecialID(_) => DatumTokenType::SpecialID,
        DatumToken::Numeric(_) => DatumTokenType::Numeric,
        DatumToken::Quote => DatumTokenType::Quote,
        DatumToken::ListStart => DatumTokenType::ListStart,
        DatumToken::ListEnd => DatumTokenType::ListEnd,
    }
}

/// How a character stands inside a written string.
pub open spec fn string_char_text(c: char) -> Seq<char> {
    if c == '\\' {
        seq!['\\', '\\']
    } else if c == '\r' {
        seq!['\\', 'r']
    } else if c == '\n' {
        seq!['\\', 'n']
    } else if c == '\t' {
        seq!['\\', 't']
    } else if c == '"' {
        seq!['\\', '"']
    } else {
        seq![c]
    }
}

/// The body of a written string.
pub open spec fn string_body_text(s: Seq<char>) -> Seq<char>
    decreases s.len(),
{
    if s.len() == 0 {
        seq![]
    } else {
        string_body_text(s.drop_last()) + string_char_text(s.last())
    }
}

/// Characters written as they stand inside an identifier.
pub open spec fn identifier_text(s: Seq<char>) -> Seq<char>
    decreases s.len(),
{
    if s.len() == 0 {
        seq![]
    } else {
        identifier_text(s.drop_last()) + emit_of(potential_identifier_view(s.last()))
    }
}

/// The form of a numeric text that needs no marker: it starts with a sign or a
/// digit and is not a lone sign.
pub open spec fn numeric_text_is_plain(s: Seq<char>) -> bool {
    &&& s.len() >= 1
    &&& class_of(s[0]) matches Some(c) && c.is_numeric_start()
    &&& (s.len() == 1 ==> class_of(s[0]) == Some(DatumCharClass::Digit))
}

/// The text that reads back as the token.
pub open spec fn token_text(t: DatumToken<Seq<char>>) -> Seq<char> {
    match t {
        DatumToken::String(b) => seq!['"'] + string_body_text(b) + seq!['"'],
        DatumToken::ID(b) => if b.len() == 0 {
            seq!['#', '{', '}', '#']
        } else if class_of(b[0]) == Some(DatumCharClass::Sign) {
            if b.len() == 1 {
                b
            } else {
                emit_of(content_view(b[0])) + emit_of(content_view(b[1])) + identifier_text(
                    b.subrange(2, b.len() as int),
                )
            }
        } else {
            emit_of(content_view(b[0])) + identifier_text(b.subrange(1, b.len() as int))
        },
        DatumToken::SpecialID(b) => seq!['#'] + identifier_text(b),
        DatumToken::Numeric(b) => if numeric_text_is_plain(b) {
            seq![b[0]] + identifier_text(b.subrange(1, b.len() as int))
        } else if b.len() == 1 && class_of(b[0]) == Some(DatumCharClass::Sign) {
            seq!['#', 'i', b[0]]
        } else {
            seq!['#', 'i'] + identifier_text(b)
        },
        DatumToken::Quote => seq!['\''],
        DatumToken::ListStart => seq!['('],
        DatumToken::ListEnd => seq![')'],
    }
}

/// Appends the identifier form of `cs[start..]`.
fn write_identifier_chars(f: &mut String, cs: &Vec<char>, start: usize)
    requires
        start <= cs.len(),
    ensures
        final(f)@ == old(f)@ + identifier_text(cs@.subrange(start as int, cs.len() as int)),
{
    let mut i: usize = start;
    assert(cs@.subrange(start as int, start as int) =~= seq![]);
    assert(old(f)@ + identifier_text(seq![]) =~= old(f)@);
    while i < cs.len()
        invariant
            start <= i <= cs.len(),
            f@ == old(f)@ + identifier_text(cs@.subrange(start as int, i as int)),
        decreases cs.len() - i,
    {
        let d = DatumChar::potential_identifier(cs[i]);
        d.write(f);
        proof {
            let s = cs@.subrange(start as int, i + 1);
            assert(s.drop_last() =~= cs@.subrange(start as int, i as int));
            assert(s.last() == cs@[i as int]);
        }
        i = i + 1;
    }
}

/// Appends the body of a string.
fn write_string_chars(f: &mut String, cs: &Vec<char>)
    ensures
        final(f)@ == old(f)@ + string_body_text(cs@),
{
    let mut i: usize = 0;
    assert(cs@.subrange(0, 0) =~= seq![]);
    assert(old(f)@ + string_body_text(seq![]) =~= old(f)@);
    while i < cs.len()
        invariant
            i <= cs.len(),
            f@ == old(f)@ + string_body_text(cs@.subrange(0, i as int)),
        decreases cs.len() - i,
    {
        let v = cs[i];
        let ghost before = f@;
        if v == '\\' {
            push_char(f, '\\');
            push_char(f, '\\');
        } else if v == '\r' {
            push_char(f, '\\');
            push_char(f, 'r');
        } else if v == '\n' {
            push_char(f, '\\');
            push_char(f, 'n');
        } else if v == '\t' {
            push_char(f, '\\');
            push_char(f, 't');
        } else if v == '"' {
            push_char(f, '\\');
            push_char(f, '"');
        } else {
            push_char(f, v);
        }
        proof {
            let s = cs@.subrange(0, i + 1);
            assert(s.drop_last() =~= cs@.subrange(0, i as int));
            assert(f@ =~= before + string_char_text(v));
        }
        i = i + 1;
    }
    assert(cs@.subrange(0, cs.len() as int) =~= cs@);
}

impl<B> DatumToken<B> {
    /// Creates a token of a type with a text; the three structural tokens drop it.
    pub fn new_not_into(tt: DatumTokenType, text: B) -> (r: Self)
        ensures
            r == token_of(tt, text),
    {
        match tt {
            DatumTokenType::String => DatumToken::String(text),
            DatumTokenType::ID => DatumToken::ID(text),
            DatumTokenType::SpecialID => DatumToken::SpecialID(text),
            DatumTokenType::Numeric => DatumToken::Numeric(text),
            DatumTokenType::Quote => DatumToken::Quote,
            DatumTokenType::ListStart => DatumToken::ListStart,
            DatumTokenType::ListEnd => DatumToken::ListEnd,
        }
    }

    /// Return the token type of this token.
    pub fn token_type(&self) -> (r: DatumTokenType)
        ensures
            r == type_of(*self),
    {
        match self {
            DatumToken::String(_) => DatumTokenType::String,
            DatumToken::ID(_) => DatumTokenType::ID,
            DatumToken::SpecialID(_) => DatumTokenType::SpecialID,
            DatumToken::Numeric(_) => DatumTokenType::Numeric,
            DatumToken::Quote => DatumTokenType::Quote,
            DatumToken::ListStart => DatumTokenType::ListStart,
            DatumToken::ListEnd => DatumTokenType::ListEnd,
        }
    }

    /// Return the buffer of this token, if the type has one.
    pub fn buffer(&self) -> (r: Option<&B>)
        ensures
            match *self {
                DatumToken::String(b) => r == Some(&b),
                DatumToken::ID(b) => r == Some(&b),
                DatumToken::SpecialID(b) => r == Some(&b),
                DatumToken::Numeric(b) => r == Some(&b),
                _ => r is None,
            },
    {
        match self {
            DatumToken::String(b) => Some(b),
            DatumToken::ID(b) => Some(b),
            DatumToken::SpecialID(b) => Some(b),
            DatumToken::Numeric(b) => Some(b),
            _ => None,
        }
    }
}

impl DatumToken<String> {
    /// Creates a token of a type from a text, which is copied.
    pub fn new(tt: DatumTokenType, text: &str) -> (r: Self)
        ensures
            r@ == token_of(tt, text@),
    {
        Self::new_not_into(tt, text.to_owned())
    }

    /// Appends this token as valid, parsable Datum text.
    pub fn write(&self, f: &mut String)
        ensures
            final(f)@ == old(f)@ + token_text(self@),
    {
        match self {
            DatumToken::String(b) => {
                let cs = chars_of(b.as_str());
                push_char(f, '"');
                write_string_chars(f, &cs);
                push_char(f, '"');
            },
            DatumToken::ID(b) => {
                let cs = chars_of(b.as_str());
                if cs.len() == 0 {
                    push_char(f, '#');
                    push_char(f, '{');
                    push_char(f, '}');
                    push_char(f, '#');
                } else if DatumCharClass::identify(cs[0]) == Some(DatumCharClass::Sign) {
                    if cs.len() == 1 {
                        push_char(f, cs[0]);
                        assert(seq![cs@[0]] =~= cs@);
                    } else {
                        DatumChar::content(cs[0]).write(f);
                        DatumChar::content(cs[1]).write(f);
                        write_identifier_chars(f, &cs, 2);
                    }
                } else {
                    DatumChar::content(cs[0]).write(f);
                    write_identifier_chars(f, &cs, 1);
                }
            },
            DatumToken::SpecialID(b) => {
                let cs = chars_of(b.as_str());
                push_char(f, '#');
                write_identifier_chars(f, &cs, 0);
                assert(cs@.subrange(0, cs.len() as int) =~= cs@);
            },
            DatumToken::Numeric(b) => {
                let cs = chars_of(b.as_str());
                let first = if cs.len() > 0 {
                    DatumCharClass::identify(cs[0])
                } else {
                    None
                };
                let numeric_start = match first {
                    Some(c) => c.numeric_start(),
                    None => false,
                };
                if numeric_start && (cs.len() >= 2 || first == Some(DatumCharClass::Digit)) {
                    push_char(f, cs[0]);
                    write_identifier_chars(f, &cs, 1);
                } else if cs.len() == 1 && first == Some(DatumCharClass::Sign) {
                    push_char(f, '#');
                    push_char(f, 'i');
                    push_char(f, cs[0]);
                } else {
                    push_char(f, '#');
                    push_char(f, 'i');
                    write_identifier_chars(f, &cs, 0);
                    assert(cs@.subrange(0, cs.len() as int) =~= cs@);
                }
            },
            DatumToken::Quote => {
                push_char(f, '\'');
            },
            DatumToken::ListStart => {
                push_char(f, '(');
            },
            DatumToken::ListEnd => {
                push_char(f, ')');
            },
        }
        assert(f@ =~= old(f)@ + token_text(self@));
    }

    /// The token as Datum text.
    pub fn to_string(&self) -> (r: String)
        ensures
            r@ == token_text(self@),
    {
        let mut s = String::new();
        self.write(&mut s);
        assert(s@ =~= token_text(self@));
        s
    }
}

/// Model of the tokenizer stage: the text of the token being built, and the state machine.
pub struct PipeTokenizerModel {
    pub buffer: Seq<char>,
    pub tokenizer: TokenizerModel,
}

/// Carries out a sequence of tokenizer actions for one character: `Push` keeps the
/// character, `Token` hands out the text kept so far as a token of that type.
pub open spec fn apply_actions(buffer: Seq<char>, ch: char, actions: Seq<DatumTokenizerAction>) -> (Seq<char>, Seq<DatumToken<Seq<char>>>)
    decreases actions.len(),
{
    if actions.len() == 0 {
        (buffer, seq![])
    } else {
        let r = apply_actions(buffer, ch, actions.drop_last());
        match actions.last() {
            DatumTokenizerAction::Push => (r.0.push(ch), r.1),
            DatumTokenizerAction::Token(tt) => (seq![], r.1.push(token_of(tt, r.0))),
        }
    }
}

/// The actions of one step push at most as their last action.
pub open spec fn push_only_last(actions: Seq<DatumTokenizerAction>) -> bool {
    forall|j: int| 0 <= j < actions.len() - 1 ==> #[trigger] actions[j] is Token
}

/// The tokenizer's actions for one class push at most as their last action.
proof fn lemma_step_push_only_last(m: TokenizerModel, class: crate::char_classes::DatumCharClass)
    ensures
        push_only_last(tokenizer_step(m, class).1),
        push_only_last(tokenizer_finish(m).1),
{
    let acts = tokenizer_step(m, class).1;
    assert forall|j: int| 0 <= j < acts.len() - 1 implies #[trigger] acts[j] is Token by {
        assert(j == 0);
    }
}

/// The tokenizer stage's state after its buffer ran out of room.
pub open spec fn overflow_state() -> PipeTokenizerModel {
    PipeTokenizerModel {
        buffer: seq![],
        tokenizer: TokenizerModel { state: crate::token_core::DatumTokenizerState::Start, error: true },
    }
}

/// Tokenizer stage that keeps each token's text in a buffer and hands out tokens.
/// Where the buffer has no room for a character, the stage fails.
#[derive(Clone, PartialEq, Eq, Debug)]
pub struct DatumPipeTokenizer<B: DatumTextBuffer> {
    buffer: B,
    tokenizer: DatumTokenizer,
}

/// The tokenizer stage whose buffers are strings.
pub type DatumStringTokenizer = DatumPipeTokenizer<String>;

impl<B: DatumTextBuffer> DatumPipeTokenizer<B> {
    /// A tokenizer stage between tokens, with an empty buffer.
    pub fn new() -> (r: Self)
        ensures
            r.wf(),
            r.state().buffer == Seq::<char>::empty(),
            r.state().tokenizer == (TokenizerModel {
                state: crate::token_core::DatumTokenizerState::Start,
                error: false,
            }),
    {
        let r = DatumPipeTokenizer { buffer: B::empty(), tokenizer: DatumTokenizer::new() };
        proof {
            r.buffer.lemma_room();
        }
        r
    }

    /// Carries out one tokenizer action for the character `ch`; false where a push
    /// found no room, which changes nothing.
    pub fn transform_action(buffer: &mut B, ch: char, action: DatumTokenizerAction, out: &mut Vec<DatumToken<String>>) -> (ok: bool)
        ensures
            ok == (B::holds(apply_actions(old(buffer).items(), ch, seq![action]).0.len()) || action is Token),
            ok ==> final(buffer).items() == apply_actions(old(buffer).items(), ch, seq![action]).0,
            ok ==> B::holds(final(buffer).items().len()),
            !ok ==> final(buffer).items() == old(buffer).items(),
            views(final(out)@) == views(old(out)@) + apply_actions(old(buffer).items(), ch, seq![action]).1,
    {
        proof {
            lemma_apply_one(old(buffer).items(), ch, action);
            old(buffer).lemma_room();
        }
        match action {
            DatumTokenizerAction::Push => {
                let pushed = buffer.push(ch);
                assert(views(out@) =~= views(old(out)@) + seq![]);
                pushed.is_ok()
            },
            DatumTokenizerAction::Token(tt) => {
                let text = buffer.take_text();
                let t = DatumToken::new_not_into(tt, text);
                out.push(t);
                assert(t@ == token_of(tt, old(buffer).items()));
                assert(views(out@) =~= views(old(out)@) + seq![t@]);
                true
            },
        }
    }

    /// Carries out a sequence of tokenizer actions for the character `ch`; false
    /// where a push found no room.
    fn transform_actions(buffer: &mut B, ch: char, actions: &Vec<DatumTokenizerAction>, out: &mut Vec<DatumToken<String>>) -> (ok: bool)
        requires
            B::holds(old(buffer).items().len()),
            push_only_last(actions@),
        ensures
            ok == B::holds(apply_actions(old(buffer).items(), ch, actions@).0.len()),
            ok ==> final(buffer).items() == apply_actions(old(buffer).items(), ch, actions@).0,
            views(final(out)@) == views(old(out)@) + apply_actions(old(buffer).items(), ch, actions@).1,
    {
        let mut i: usize = 0;
        assert(actions@.subrange(0, 0) =~= Seq::<DatumTokenizerAction>::empty());
        assert(views(out@) =~= views(old(out)@) + Seq::<DatumToken<Seq<char>>>::empty());
        while i < actions.len()
            invariant
                i <= actions.len(),
                push_only_last(actions@),
                B::holds(buffer.items().len()),
                buffer.items() == apply_actions(old(buffer).items(), ch, actions@.subrange(0, i as int)).0,
                views(out@) == views(old(out)@) + apply_actions(old(buffer).items(), ch, actions@.subrange(0, i as int)).1,
            decreases actions.len() - i,
        {
            let ghost r = apply_actions(old(buffer).items(), ch, actions@.subrange(0, i as int));
            let ghost o = views(out@);
            let ok = Self::transform_action(buffer, ch, actions[i], out);
            proof {
                let s = actions@.subrange(0, i + 1);
                assert(s.drop_last() =~= actions@.subrange(0, i as int));
                assert(s.last() == actions@[i as int]);
                lemma_apply_one(r.0, ch, actions@[i as int]);
                if let DatumTokenizerAction::Token(tt) = actions@[i as int] {
                    assert(views(old(out)@) + r.1.push(token_of(tt, r.0)) =~= o + seq![token_of(tt, r.0)]);
                } else {
                    assert(o + Seq::<DatumToken<Seq<char>>>::empty() =~= o);
                }
            }
            if !ok {
                proof {
                    assert(!(actions@[i as int] is Token));
                    assert(i == actions.len() - 1);
                    assert(actions@.subrange(0, i + 1) =~= actions@);
                }
                return false;
            }
            i = i + 1;
        }
        assert(actions@.subrange(0, actions.len() as int) =~= actions@);
        true
    }
}

impl<B: DatumTextBuffer> Default for DatumPipeTokenizer<B> {
    fn default() -> (r: Self)
        ensures
            r.wf(),
            r.state().buffer == Seq::<char>::empty(),
            r.state().tokenizer == (TokenizerModel {
                state: crate::token_core::DatumTokenizerState::Start,
                error: false,
            }),
    {
        Self::new()
    }
}

impl<B: DatumTextBuffer> DatumPipe for DatumPipeTokenizer<B> {
    type Input = DatumChar;
    type Output = DatumToken<String>;
    type State = PipeTokenizerModel;

    closed spec fn wf(&self) -> bool {
        &&& self.tokenizer.wf()
        &&& B::holds(self.buffer.items().len())
    }

    closed spec fn state(&self) -> PipeTokenizerModel {
        PipeTokenizerModel { buffer: self.buffer.items(), tokenizer: self.tokenizer.state() }
    }

    /// Where the text being built would not fit the buffer, the stage fails; the
    /// tokens already handed out for this character stay out.
    open spec fn next(s: PipeTokenizerModel, c: DatumCharView) -> (PipeTokenizerModel, Seq<DatumToken<Seq<char>>>) {
        let t = tokenizer_step(s.tokenizer, c.class);
        let a = apply_actions(s.buffer, c.ch, t.1);
        if B::holds(a.0.len()) {
            (PipeTokenizerModel { buffer: a.0, tokenizer: t.0 }, a.1)
        } else {
            (overflow_state(), a.1)
        }
    }

    open spec fn finish(s: PipeTokenizerModel) -> (PipeTokenizerModel, Seq<DatumToken<Seq<char>>>) {
        let t = tokenizer_finish(s.tokenizer);
        let a = apply_actions(s.buffer, ' ', t.1);
        (PipeTokenizerModel { buffer: a.0, tokenizer: t.0 }, a.1)
    }

    open spec fn failed(s: PipeTokenizerModel) -> bool {
        s.tokenizer.error
    }

    open spec fn max_out() -> nat {
        DATUM_PIPE_TOKENIZER_MAX_SIZE as nat
    }

    proof fn lemma_fan_out(s: PipeTokenizerModel, c: DatumCharView) {
        let t = tokenizer_step(s.tokenizer, c.class);
        lemma_apply_actions_len(s.buffer, c.ch, t.1);
        let f = tokenizer_finish(s.tokenizer);
        lemma_apply_actions_len(s.buffer, ' ', f.1);
    }

    proof fn lemma_sticky(s: PipeTokenizerModel, c: DatumCharView) {
    }

    fn feed(&mut self, c: DatumChar, out: &mut Vec<DatumToken<String>>) {
        let mut actions: Vec<DatumTokenizerAction> = Vec::new();
        self.tokenizer.feed(c.class(), &mut actions);
        assert(views(actions@) =~= actions@);
        assert(actions@ =~= tokenizer_step(old(self).tokenizer.state(), c@.class).1);
        proof {
            lemma_step_push_only_last(old(self).tokenizer.state(), c@.class);
        }
        let ok = Self::transform_actions(&mut self.buffer, c.char(), &actions, out);
        if !ok {
            let _dropped = self.buffer.take_text();
            self.tokenizer.fail();
            proof {
                self.buffer.lemma_room();
            }
        }
    }

    fn eof(&mut self, out: &mut Vec<DatumToken<String>>) {
        let mut actions: Vec<DatumTokenizerAction> = Vec::new();
        self.tokenizer.eof(&mut actions);
        assert(views(actions@) =~= actions@);
        assert(actions@ =~= tokenizer_finish(old(self).tokenizer.state()).1);
        proof {
            lemma_step_push_only_last(old(self).tokenizer.state(), crate::char_classes::DatumCharClass::Content);
            old(self).buffer.lemma_room();
            lemma_apply_one(old(self).buffer.items(), ' ', DatumTokenizerAction::Token(DatumTokenType::ID));
            assert(actions@.len() == 0 ==> actions@ =~= Seq::<DatumTokenizerAction>::empty());
        }
        let ok = Self::transform_actions(&mut self.buffer, ' ', &actions, out);
        assert(ok);
    }

    fn has_error(&self) -> (r: bool) {
        self.tokenizer.has_error()
    }
}

/// Carrying out a single action.
pub proof fn lemma_apply_one(buffer: Seq<char>, ch: char, action: DatumTokenizerAction)
    ensures
        apply_actions(buffer, ch, seq![action]) == (match action {
            DatumTokenizerAction::Push => (buffer.push(ch), Seq::<DatumToken<Seq<char>>>::empty()),
            DatumTokenizerAction::Token(tt) => (Seq::<char>::empty(), seq![token_of(tt, buffer)]),
        }),
{
    let one = seq![action];
    assert(one.drop_last() =~= Seq::<DatumTokenizerAction>::empty());
    assert(one.last() == action);
    let r = apply_actions(buffer, ch, one.drop_last());
    assert(r == (buffer, Seq::<DatumToken<Seq<char>>>::empty()));
    assert(Seq::<DatumToken<Seq<char>>>::empty().push(token_of(action->Token_0, buffer)) =~= seq![token_of(action->Token_0, buffer)]);
}

/// Carrying out actions yields at most one token per action.
proof fn lemma_apply_actions_len(buffer: Seq<char>, ch: char, actions: Seq<DatumTokenizerAction>)
    ensures
        apply_actions(buffer, ch, actions).1.len() <= actions.len(),
    decreases actions.len(),
{
    if actions.len() > 0 {
        lemma_apply_actions_len(buffer, ch, actions.drop_last());
    }
}

} // verus!
