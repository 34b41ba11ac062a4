//! The tokenizer state machine, over character classes.
use vstd::prelude::*;

use crate::char_classes::DatumCharClass;
use crate::pipeline::{views, DatumPipe};

verus! {

/// The most actions that one class, or the end of input, yields.
pub const DATUM_TOKENIZER_MAX_SIZE: usize = 2;

/// Datum token type.
/// This is paired with the token contents, if any.
#[derive(Clone, Copy, PartialEq, Eq, Debug, Structural)]
pub enum DatumTokenType {
    /// String. Buffer contents are the unescaped string contents.
    String,
    /// ID. Buffer contents are the symbol.
    ID,
    /// Special ID. Buffer contents are the symbol (text after, but not including, '#').
    SpecialID,
    /// Numeric. Buffer contents are the token.
    Numeric,
    /// Quote. Buffer is empty.
    Quote,
    /// List start. Buffer is empty.
    ListStart,
    /// List end. Buffer is empty.
    ListEnd,
}

impl View for DatumTokenType {
    type V = DatumTokenType;

    open spec fn view(&self) -> DatumTokenType {
        *self
    }
}

/// The tokenizer's position within the text.
#[derive(Clone, Copy, PartialEq, Eq, Debug, Structural)]
pub enum DatumTokenizerState {
    /// Between tokens.
    Start,
    /// In a comment, up to the end of the line.
    LineComment,
    /// In a string, up to the closing quote.
    String,
    /// In an identifier.
    ID,
    /// After a sign that may start a number.
    NumericSign,
    /// In a number.
    Numeric,
    /// In a special identifier.
    SpecialID,
}

/// Action output by the tokenizer.
#[derive(Clone, Copy, PartialEq, Eq, Debug, Structural)]
pub enum DatumTokenizerAction {
    /// Push this character to buffer.
    Push,
    /// Take token, then clear buffer.
    Token(DatumTokenType),
}

impl View for DatumTokenizerAction {
    type V = DatumTokenizerAction;

    open spec fn view(&self) -> DatumTokenizerAction {
        *self
    }
}

/// Model of the tokenizer: its position and its error flag.
pub struct TokenizerModel {
    pub state: DatumTokenizerState,
    pub error: bool,
}

/// What a class does from between tokens: the next position and the actions.
pub open spec fn start_step(class: DatumCharClass) -> (DatumTokenizerState, Seq<DatumTokenizerAction>) {
    match class {
        DatumCharClass::Content => (DatumTokenizerState::ID, seq![DatumTokenizerAction::Push]),
        DatumCharClass::Whitespace => (DatumTokenizerState::Start, seq![]),
        DatumCharClass::Newline => (DatumTokenizerState::Start, seq![]),
        DatumCharClass::LineComment => (DatumTokenizerState::LineComment, seq![]),
        DatumCharClass::String => (DatumTokenizerState::String, seq![]),
        DatumCharClass::Quote => (
            DatumTokenizerState::Start,
            seq![DatumTokenizerAction::Token(DatumTokenType::Quote)],
        ),
        DatumCharClass::ListStart => (
            DatumTokenizerState::Start,
            seq![DatumTokenizerAction::Token(DatumTokenType::ListStart)],
        ),
        DatumCharClass::ListEnd => (
            DatumTokenizerState::Start,
            seq![DatumTokenizerAction::Token(DatumTokenType::ListEnd)],
        ),
        DatumCharClass::SpecialID => (DatumTokenizerState::SpecialID, seq![]),
        DatumCharClass::Sign => (DatumTokenizerState::NumericSign, seq![DatumTokenizerAction::Push]),
        DatumCharClass::Digit => (DatumTokenizerState::Numeric, seq![DatumTokenizerAction::Push]),
    }
}

/// Inside an identifier-like token of type `tt`: a potential identifier class is
/// pushed and the token goes on as `cont`; any other class closes the token and is
/// handled again from between tokens.
pub open spec fn word_step(
    tt: DatumTokenType,
    cont: DatumTokenizerState,
    class: DatumCharClass,
) -> (DatumTokenizerState, Seq<DatumTokenizerAction>) {
    if class.is_potential_identifier() {
        (cont, seq![DatumTokenizerAction::Push])
    } else {
        let r = start_step(class);
        (r.0, seq![DatumTokenizerAction::Token(tt)] + r.1)
    }
}

/// One class fed to the tokenizer.
pub open spec fn tokenizer_step(m: TokenizerModel, class: DatumCharClass) -> (TokenizerModel, Seq<DatumTokenizerAction>) {
    if m.error {
        (m, seq![])
    } else {
        let r = match m.state {
            DatumTokenizerState::Start => start_step(class),
            DatumTokenizerState::LineComment => if class is Newline {
                (DatumTokenizerState::Start, seq![])
            } else {
                (DatumTokenizerState::LineComment, seq![])
            },
            DatumTokenizerState::String => if class is String {
                (DatumTokenizerState::Start, seq![DatumTokenizerAction::Token(DatumTokenType::String)])
            } else {
                (DatumTokenizerState::String, seq![DatumTokenizerAction::Push])
            },
            DatumTokenizerState::ID => word_step(DatumTokenType::ID, DatumTokenizerState::ID, class),
            DatumTokenizerState::NumericSign => word_step(DatumTokenType::ID, DatumTokenizerState::Numeric, class),
            DatumTokenizerState::Numeric => word_step(DatumTokenType::Numeric, DatumTokenizerState::Numeric, class),
            DatumTokenizerState::SpecialID => word_step(
                DatumTokenType::SpecialID,
                DatumTokenizerState::SpecialID,
                class,
            ),
        };
        (TokenizerModel { state: r.0, error: false }, r.1)
    }
}

/// The end of input: an open token is closed; an open string is an error.
pub open spec fn tokenizer_finish(m: TokenizerModel) -> (TokenizerModel, Seq<DatumTokenizerAction>) {
    let start = TokenizerModel { state: DatumTokenizerState::Start, error: m.error };
    if m.error {
        (m, seq![])
    } else {
        match m.state {
            DatumTokenizerState::Start => (start, seq![]),
            DatumTokenizerState::LineComment => (start, seq![]),
            DatumTokenizerState::String => (TokenizerModel { state: DatumTokenizerState::Start, error: true }, seq![]),
            DatumTokenizerState::ID => (start, seq![DatumTokenizerAction::Token(DatumTokenType::ID)]),
            DatumTokenizerState::NumericSign => (start, seq![DatumTokenizerAction::Token(DatumTokenType::ID)]),
            DatumTokenizerState::Numeric => (start, seq![DatumTokenizerAction::Token(DatumTokenType::Numeric)]),
            DatumTokenizerState::SpecialID => (
                start,
                seq![DatumTokenizerAction::Token(DatumTokenType::SpecialID)],
            ),
        }
    }
}

/// Datum tokenizer state machine.
/// It works with character classes and expects the caller to keep the characters
/// that it asks for with the `Push` action; a `Token` action completes a token.
#[derive(Clone, Copy, PartialEq, Eq, Debug)]
pub struct DatumTokenizer {
    state: DatumTokenizerState,
    error: bool,
}

impl DatumTokenizer {
    /// A tokenizer between tokens.
    pub fn new() -> (r: Self)
        ensures
            r.wf(),
            r.state() == (TokenizerModel { state: DatumTokenizerState::Start, error: false }),
    {
        DatumTokenizer { state: DatumTokenizerState::Start, error: false }
    }

    /// Puts the tokenizer in its failed state, between tokens.
    pub fn fail(&mut self)
        ensures
            final(self).wf(),
            final(self).state() == (TokenizerModel { state: DatumTokenizerState::Start, error: true }),
    {
        self.state = DatumTokenizerState::Start;
        self.error = true;
    }

    /// Handling for the start state.
    /// This is used both in that state and when going 'through' that state when leaving another state.
    pub fn start_feed(out: &mut Vec<DatumTokenizerAction>, class: DatumCharClass) -> (r: DatumTokenizerState)
        ensures
            r == start_step(class).0,
            final(out)@ == old(out)@ + start_step(class).1,
    {
        let ghost o = old(out)@;
        let r = match class {
            DatumCharClass::Content => {
                out.push(DatumTokenizerAction::Push);
                DatumTokenizerState::ID
            },
            DatumCharClass::Whitespace => DatumTokenizerState::Start,
            DatumCharClass::Newline => DatumTokenizerState::Start,
            DatumCharClass::LineComment => DatumTokenizerState::LineComment,
            DatumCharClass::String => DatumTokenizerState::String,
            DatumCharClass::Quote => {
                out.push(DatumTokenizerAction::Token(DatumTokenType::Quote));
                DatumTokenizerState::Start
            },
            DatumCharClass::ListStart => {
                out.push(DatumTokenizerAction::Token(DatumTokenType::ListStart));
                DatumTokenizerState::Start
            },
            DatumCharClass::ListEnd => {
                out.push(DatumTokenizerAction::Token(DatumTokenType::ListEnd));
                DatumTokenizerState::Start
            },
            DatumCharClass::SpecialID => DatumTokenizerState::SpecialID,
            DatumCharClass::Sign => {
                out.push(DatumTokenizerAction::Push);
                DatumTokenizerState::NumericSign
            },
            DatumCharClass::Digit => {
                out.push(DatumTokenizerAction::Push);
                DatumTokenizerState::Numeric
            },
        };
        assert(out@ =~= o + start_step(class).1);
        r
    }

    /// Inside an identifier-like token.
    fn word_feed(
        out: &mut Vec<DatumTokenizerAction>,
        tt: DatumTokenType,
        cont: DatumTokenizerState,
        class: DatumCharClass,
    ) -> (r: DatumTokenizerState)
        ensures
            r == word_step(tt, cont, class).0,
            final(out)@ == old(out)@ + word_step(tt, cont, class).1,
    {
        if class.potential_identifier() {
            out.push(DatumTokenizerAction::Push);
            assert(out@ =~= old(out)@ + seq![DatumTokenizerAction::Push]);
            cont
        } else {
            out.push(DatumTokenizerAction::Token(tt));
            let r = Self::start_feed(out, class);
            assert(out@ =~= old(out)@ + (seq![DatumTokenizerAction::Token(tt)] + start_step(class).1));
            r
        }
    }
}

impl Default for DatumTokenizer {
    fn default() -> (r: Self)
        ensures
            r.wf(),
            r.state() == (TokenizerModel { state: DatumTokenizerState::Start, error: false }),
    {
        Self::new()
    }
}

/// Actions are their own views; the view of a vector of them is its contents.
proof fn lemma_views_actions(s: Seq<DatumTokenizerAction>)
    ensures
        views(s) == s,
{
    assert(views(s) =~= s);
}

impl DatumPipe for DatumTokenizer {
    type Input = DatumCharClass;
    type Output = DatumTokenizerAction;
    type State = TokenizerModel;

    /// An error leaves the tokenizer between tokens.
    closed spec fn wf(&self) -> bool {
        self.error ==> self.state is Start
    }

    closed spec fn state(&self) -> TokenizerModel {
        TokenizerModel { state: self.state, error: self.error }
    }

    open spec fn next(m: TokenizerModel, class: DatumCharClass) -> (TokenizerModel, Seq<DatumTokenizerAction>) {
        tokenizer_step(m, class)
    }

    open spec fn finish(m: TokenizerModel) -> (TokenizerModel, Seq<DatumTokenizerAction>) {
        tokenizer_finish(m)
    }

    open spec fn failed(m: TokenizerModel) -> bool {
        m.error
    }

    open spec fn max_out() -> nat {
        DATUM_TOKENIZER_MAX_SIZE as nat
    }

    proof fn lemma_fan_out(m: TokenizerModel, class: DatumCharClass) {
    }

    proof fn lemma_sticky(m: TokenizerModel, class: DatumCharClass) {
    }

    /// Given an incoming character class, appends the resulting actions.
    fn feed(&mut self, class: DatumCharClass, out: &mut Vec<DatumTokenizerAction>) {
        proof {
            lemma_views_actions(old(out)@);
        }
        if self.error {
            assert(out@ =~= old(out)@ + seq![]);
        } else {
            let ghost o = old(out)@;
            self.state = match self.state {
                DatumTokenizerState::Start => Self::start_feed(out, class),
                DatumTokenizerState::LineComment => {
                    assert(out@ =~= o + seq![]);
                    if class == DatumCharClass::Newline {
                        DatumTokenizerState::Start
                    } else {
                        DatumTokenizerState::LineComment
                    }
                },
                DatumTokenizerState::String => {
                    if class == DatumCharClass::String {
                        out.push(DatumTokenizerAction::Token(DatumTokenType::String));
                        assert(out@ =~= o + seq![DatumTokenizerAction::Token(DatumTokenType::String)]);
                        DatumTokenizerState::Start
                    } else {
                        out.push(DatumTokenizerAction::Push);
                        assert(out@ =~= o + seq![DatumTokenizerAction::Push]);
                        DatumTokenizerState::String
                    }
                },
                DatumTokenizerState::ID => Self::word_feed(out, DatumTokenType::ID, DatumTokenizerState::ID, class),
                DatumTokenizerState::NumericSign => Self::word_feed(
                    out,
                    DatumTokenType::ID,
                    DatumTokenizerState::Numeric,
                    class,
                ),
                DatumTokenizerState::Numeric => Self::word_feed(
                    out,
                    DatumTokenType::Numeric,
                    DatumTokenizerState::Numeric,
                    class,
                ),
                DatumTokenizerState::SpecialID => Self::word_feed(
                    out,
                    DatumTokenType::SpecialID,
                    DatumTokenizerState::SpecialID,
                    class,
                ),
            };
        }
        proof {
            lemma_views_actions(out@);
        }
    }

    /// Feeds an end of input to the tokenizer.
    fn eof(&mut self, out: &mut Vec<DatumTokenizerAction>) {
        proof {
            lemma_views_actions(old(out)@);
        }
        if !self.error {
            let ghost o = old(out)@;
            match self.state {
                DatumTokenizerState::Start => {},
                DatumTokenizerState::LineComment => {},
                DatumTokenizerState::String => {
                    self.error = true;
                },
                DatumTokenizerState::ID => {
                    out.push(DatumTokenizerAction::Token(DatumTokenType::ID));
                },
                DatumTokenizerState::NumericSign => {
                    out.push(DatumTokenizerAction::Token(DatumTokenType::ID));
                },
                DatumTokenizerState::Numeric => {
                    out.push(DatumTokenizerAction::Token(DatumTokenType::Numeric));
                },
                DatumTokenizerState::SpecialID => {
                    out.push(DatumTokenizerAction::Token(DatumTokenType::SpecialID));
                },
            }
            self.state = DatumTokenizerState::Start;
            assert(out@ =~= o + tokenizer_finish(old(self).state()).1);
        } else {
            assert(out@ =~= old(out)@ + seq![]);
        }
        proof {
            lemma_views_actions(out@);
        }
    }

    fn has_error(&self) -> (r: bool) {
        self.error
    }
}

/// The end of input yields at most one action, and it is a token: an identifier
/// for an open identifier or a lone sign, a number for an open number, a special
/// identifier for an open one; nothing otherwise. It sets the error exactly where a
/// string is open, and leaves the tokenizer between tokens.
pub proof fn lemma_tokenizer_finish(m: TokenizerModel)
    requires
        m.error ==> m.state is Start,
    ensures
        tokenizer_finish(m).1.len() <= 1,
        tokenizer_finish(m).1 == (if m.error {
            Seq::<DatumTokenizerAction>::empty()
        } else {
            match m.state {
                DatumTokenizerState::ID | DatumTokenizerState::NumericSign => seq![
                    DatumTokenizerAction::Token(DatumTokenType::ID),
                ],
                DatumTokenizerState::Numeric => seq![DatumTokenizerAction::Token(DatumTokenType::Numeric)],
                DatumTokenizerState::SpecialID => seq![DatumTokenizerAction::Token(DatumTokenType::SpecialID)],
                _ => Seq::<DatumTokenizerAction>::empty(),
            }
        }),
        tokenizer_finish(m).0.error == (m.error || m.state is String),
        tokenizer_finish(m).0.state is Start,
{
}

} // verus!
