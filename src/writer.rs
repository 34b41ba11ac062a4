//! Writing tokens, atoms, comments and line breaks as Datum text.
use vstd::prelude::*;

use crate::atom::{DatumAtom, DatumFloat};
use crate::text::{chars_of, push_char};
use crate::token::{token_text, type_of, DatumToken};
use crate::token_core::DatumTokenType;

verus! {

/// What the writer owes before the next element.
#[derive(Clone, Copy, PartialEq, Eq, Debug, Structural)]
pub enum DatumWriterState {
    /// Nothing owed.
    Nothing,
    /// Queued indentation.
    QueuedIndent,
    /// After a token. Will emit a space unless the token is a list end.
    AfterToken,
}

/// General interface for formatting/printing Datum content.
#[derive(Clone, Copy, PartialEq, Eq, Debug, Structural)]
pub struct DatumWriter {
    /// Indentation level (in tabs).
    pub indent: usize,
    /// Writer's state. Beware: Editing this improperly can create unreadable output.
    pub state: DatumWriterState,
}

/// `n` tab characters.
pub open spec fn tabs(n: nat) -> Seq<char> {
    Seq::new(n, |i: int| '\t')
}

/// The whitespace owed before an element; before a list end no single space is owed.
pub open spec fn whitespace_text(w: DatumWriter, list_end: bool) -> Seq<char> {
    match w.state {
        DatumWriterState::Nothing => seq![],
        DatumWriterState::QueuedIndent => tabs(w.indent as nat),
        DatumWriterState::AfterToken => if list_end {
            seq![]
        } else {
            seq![' ']
        },
    }
}

/// The decimal digit for a value below ten.
pub open spec fn digit_char(d: nat) -> char {
    (('0' as u32) + d) as char
}

/// The decimal digits of a natural number, with no leading zero.
pub open spec fn nat_text(n: nat) -> Seq<char>
    decreases n,
{
    if n < 10 {
        seq![digit_char(n)]
    } else {
        nat_text(n / 10).push(digit_char(n % 10))
    }
}

/// The decimal form of an integer, '-' before a negative one.
pub open spec fn int_text(v: int) -> Seq<char> {
    if v < 0 {
        seq!['-'] + nat_text((-v) as nat)
    } else {
        nat_text(v as nat)
    }
}

/// Appends the decimal digits of a natural number.
fn write_nat(f: &mut String, n: u64)
    ensures
        final(f)@ == old(f)@ + nat_text(n as nat),
    decreases n,
{
    if n >= 10 {
        write_nat(f, n / 10);
    }
    let d: u8 = (n % 10) as u8;
    let c = (48u8 + d) as char;
    assert(c == digit_char((n % 10) as nat));
    push_char(f, c);
    if n >= 10 {
        assert(f@ =~= old(f)@ + nat_text((n / 10) as nat).push(c));
    } else {
        assert(f@ =~= old(f)@ + seq![c]);
    }
}

/// Appends the decimal form of an integer, '-' before a negative one.
fn write_int(f: &mut String, v: i64)
    ensures
        final(f)@ == old(f)@ + int_text(v as int),
{
    if v < 0 {
        push_char(f, '-');
        let m: u64 = (-(v as i128)) as u64;
        write_nat(f, m);
        assert(f@ =~= old(f)@ + (seq!['-'] + nat_text((-(v as int)) as nat)));
    } else {
        write_nat(f, v as u64);
    }
}

/// The text that reads back as the atom.
pub open spec fn atom_text(a: DatumAtom<Seq<char>>) -> Seq<char> {
    match a {
        DatumAtom::String(b) => token_text(DatumToken::String(b)),
        DatumAtom::ID(b) => token_text(DatumToken::ID(b)),
        DatumAtom::Integer(v) => int_text(v as int),
        DatumAtom::Float(DatumFloat::NaN) => seq!['#', 'i', '+', 'n', 'a', 'n', '.', '0'],
        DatumAtom::Float(DatumFloat::Infinity) => seq!['#', 'i', '+', 'i', 'n', 'f', '.', '0'],
        DatumAtom::Float(DatumFloat::NegInfinity) => seq!['#', 'i', '-', 'i', 'n', 'f', '.', '0'],
        DatumAtom::Float(DatumFloat::Decimal(b)) => token_text(DatumToken::Numeric(b)),
        DatumAtom::Boolean(true) => seq!['#', 't'],
        DatumAtom::Boolean(false) => seq!['#', 'f'],
        DatumAtom::Nil => seq!['#', 'n', 'i', 'l'],
    }
}

/// How a comment's text is written after its first `; `: each line break starts a
/// new comment line at the writer's indentation.
pub open spec fn comment_body_text(indent: nat, s: Seq<char>) -> Seq<char>
    decreases s.len(),
{
    if s.len() == 0 {
        seq![]
    } else {
        comment_body_text(indent, s.drop_last()) + if s.last() == '\n' {
            seq!['\n'] + tabs(indent) + seq![';', ' ']
        } else {
            seq![s.last()]
        }
    }
}

/// The state after writing a token of a type: none after a list start or a quote,
/// else after a token.
pub open spec fn state_after(tt: DatumTokenType) -> DatumWriterState {
    if tt is ListStart || tt is Quote {
        DatumWriterState::Nothing
    } else {
        DatumWriterState::AfterToken
    }
}

/// Appends the given characters, each given as a literal.
fn push_literal(f: &mut String, cs: &[char])
    ensures
        final(f)@ == old(f)@ + cs@,
{
    let mut i: usize = 0;
    while i < cs.len()
        invariant
            i <= cs.len(),
            f@ == old(f)@ + cs@.subrange(0, i as int),
        decreases cs.len() - i,
    {
        push_char(f, cs[i]);
        i = i + 1;
        assert(f@ =~= old(f)@ + cs@.subrange(0, i as int));
    }
    assert(cs@.subrange(0, cs.len() as int) =~= cs@);
}

impl DatumAtom<String> {
    /// Appends the atom as Datum text.
    pub fn write(&self, f: &mut String)
        ensures
            final(f)@ == old(f)@ + atom_text(self@),
    {
        match self {
            DatumAtom::String(v) => {
                let t: DatumToken<String> = DatumToken::String(v.clone());
                t.write(f);
            },
            DatumAtom::ID(v) => {
                let t: DatumToken<String> = DatumToken::ID(v.clone());
                t.write(f);
            },
            DatumAtom::Integer(v) => {
                write_int(f, *v);
            },
            DatumAtom::Float(DatumFloat::NaN) => push_literal(f, &['#', 'i', '+', 'n', 'a', 'n', '.', '0']),
            DatumAtom::Float(DatumFloat::Infinity) => push_literal(f, &['#', 'i', '+', 'i', 'n', 'f', '.', '0']),
            DatumAtom::Float(DatumFloat::NegInfinity) => push_literal(f, &['#', 'i', '-', 'i', 'n', 'f', '.', '0']),
            DatumAtom::Float(DatumFloat::Decimal(v)) => {
                let t: DatumToken<String> = DatumToken::Numeric(v.clone());
                t.write(f);
            },
            DatumAtom::Boolean(true) => push_literal(f, &['#', 't']),
            DatumAtom::Boolean(false) => push_literal(f, &['#', 'f']),
            DatumAtom::Nil => push_literal(f, &['#', 'n', 'i', 'l']),
        }
    }
}

impl Default for DatumWriterState {
    fn default() -> (r: Self)
        ensures
            r == DatumWriterState::Nothing,
    {
        DatumWriterState::Nothing
    }
}

impl Default for DatumWriter {
    fn default() -> (r: Self)
        ensures
            r == (DatumWriter { indent: 0, state: DatumWriterState::Nothing }),
    {
        Self::new()
    }
}

impl DatumWriter {
    /// A writer at indentation zero, owing nothing.
    pub fn new() -> (r: Self)
        ensures
            r == (DatumWriter { indent: 0, state: DatumWriterState::Nothing }),
    {
        DatumWriter { indent: 0, state: DatumWriterState::Nothing }
    }

    /// Emits queued whitespace.
    /// If list_end is set, won't emit a single space.
    /// Will still emit indentation.
    pub fn emit_whitespace(&mut self, f: &mut String, list_end: bool)
        ensures
            final(f)@ == old(f)@ + whitespace_text(*old(self), list_end),
            *final(self) == (DatumWriter { indent: old(self).indent, state: DatumWriterState::Nothing }),
    {
        match self.state {
            DatumWriterState::Nothing => {
                assert(f@ =~= old(f)@ + whitespace_text(*old(self), list_end));
            },
            DatumWriterState::QueuedIndent => {
                let mut counter: usize = 0;
                while counter < self.indent
                    invariant
                        counter <= self.indent,
                        f@ == old(f)@ + tabs(counter as nat),
                    decreases self.indent - counter,
                {
                    push_char(f, '\t');
                    counter = counter + 1;
                    assert(f@ =~= old(f)@ + tabs(counter as nat));
                }
            },
            DatumWriterState::AfterToken => {
                if !list_end {
                    push_char(f, ' ');
                }
                assert(f@ =~= old(f)@ + whitespace_text(*old(self), list_end));
            },
        }
        self.state = DatumWriterState::Nothing;
    }

    /// Writes a newline and prepares for it.
    pub fn write_newline(&mut self, f: &mut String)
        ensures
            final(f)@ == old(f)@.push('\n'),
            *final(self) == (DatumWriter { indent: old(self).indent, state: DatumWriterState::QueuedIndent }),
    {
        push_char(f, '\n');
        self.state = DatumWriterState::QueuedIndent;
    }

    /// Writes a line comment. Newlines are converted into more line comments.
    pub fn write_comment(&mut self, f: &mut String, text: &str)
        ensures
            final(f)@ == old(f)@ + whitespace_text(*old(self), false) + seq![';', ' '] + comment_body_text(
                old(self).indent as nat,
                text@,
            ) + seq!['\n'],
            *final(self) == (DatumWriter { indent: old(self).indent, state: DatumWriterState::QueuedIndent }),
    {
        self.emit_whitespace(f, false);
        push_char(f, ';');
        push_char(f, ' ');
        let ghost head = f@;
        let cs = chars_of(text);
        let mut i: usize = 0;
        assert(cs@.subrange(0, 0) =~= seq![]);
        assert(head + comment_body_text(self.indent as nat, seq![]) =~= head);
        while i < cs.len()
            invariant
                i <= cs.len(),
                self.indent == old(self).indent,
                f@ == head + comment_body_text(self.indent as nat, cs@.subrange(0, i as int)),
            decreases cs.len() - i,
        {
            let ghost before = f@;
            if cs[i] == '\n' {
                self.write_newline(f);
                self.emit_whitespace(f, false);
                push_char(f, ';');
                push_char(f, ' ');
                assert(f@ =~= before + (seq!['\n'] + tabs(self.indent as nat) + seq![';', ' ']));
            } else {
                push_char(f, cs[i]);
                assert(f@ =~= before + seq![cs@[i as int]]);
            }
            proof {
                let s = cs@.subrange(0, i + 1);
                assert(s.drop_last() =~= cs@.subrange(0, i as int));
                assert(s.last() == cs@[i as int]);
            }
            i = i + 1;
        }
        assert(cs@.subrange(0, cs.len() as int) =~= text@);
        self.write_newline(f);
        assert(f@ =~= old(f)@ + whitespace_text(*old(self), false) + seq![';', ' '] + comment_body_text(
            old(self).indent as nat,
            text@,
        ) + seq!['\n']);
    }

    /// Writes a token.
    pub fn write_token(&mut self, f: &mut String, token: &DatumToken<String>)
        ensures
            final(f)@ == old(f)@ + whitespace_text(*old(self), type_of(token@) is ListEnd) + token_text(token@),
            *final(self) == (DatumWriter { indent: old(self).indent, state: state_after(type_of(token@)) }),
    {
        let token_type = token.token_type();
        assert(type_of(token@) == type_of(*token));
        self.emit_whitespace(f, token_type == DatumTokenType::ListEnd);
        token.write(f);
        if token_type == DatumTokenType::ListStart || token_type == DatumTokenType::Quote {
            self.state = DatumWriterState::Nothing;
        } else {
            self.state = DatumWriterState::AfterToken;
        }
    }

    /// Writes an atom.
    pub fn write_atom(&mut self, f: &mut String, value: &DatumAtom<String>)
        ensures
            final(f)@ == old(f)@ + whitespace_text(*old(self), false) + atom_text(value@),
            *final(self) == (DatumWriter { indent: old(self).indent, state: DatumWriterState::AfterToken }),
    {
        self.emit_whitespace(f, false);
        value.write(f);
        self.state = DatumWriterState::AfterToken;
    }
}

} // verus!
