//! The escape decoder: scalar values in, classified characters out.
use vstd::prelude::*;
use vstd::utf8::is_scalar;

use crate::char_classes::{content_view, emit_of, identify_view, DatumChar, DatumCharView};
use crate::pipeline::{run, views, DatumPipe};
use crate::text::char_from_u32;

verus! {

/// The most characters that one input, or the end of input, yields.
pub const DATUM_DECODER_MAX_SIZE: usize = 1;

/// Where a hex escape's value stops growing: any value from here on is no scalar.
pub const HEX_ESCAPE_LIMIT: u32 = 0x110000;

/// Decoder's state machine.
#[derive(Clone, Copy, PartialEq, Eq, Debug, Structural)]
pub enum DatumDecoderState {
    Normal,
    Escaping,
    /// Inside `\x...;`, with the value of the digits read so far (held at
    /// `HEX_ESCAPE_LIMIT` once it reaches it, so that it never wraps).
    HexEscape(u32),
    Error,
}

/// The value of a hexadecimal digit.
pub open spec fn hex_digit_value(c: char) -> Option<u32> {
    if '0' <= c <= '9' {
        Some((c as u32 - '0' as u32) as u32)
    } else if 'a' <= c <= 'f' {
        Some((c as u32 - 'a' as u32 + 10) as u32)
    } else if 'A' <= c <= 'F' {
        Some((c as u32 - 'A' as u32 + 10) as u32)
    } else {
        None
    }
}

/// One more digit of a hex escape: `v * 16 + d`, held at the limit.
pub open spec fn hex_accumulate(v: u32, d: u32) -> u32 {
    if v as int * 16 + d as int >= HEX_ESCAPE_LIMIT as int {
        HEX_ESCAPE_LIMIT
    } else {
        (v * 16 + d) as u32
    }
}

/// One character fed to the escape decoder.
pub open spec fn decoder_step(s: DatumDecoderState, c: char) -> (DatumDecoderState, Seq<DatumCharView>) {
    match s {
        DatumDecoderState::Normal => match identify_view(c) {
            Some(v) => (DatumDecoderState::Normal, seq![v]),
            None => (DatumDecoderState::Escaping, seq![]),
        },
        DatumDecoderState::Escaping => if c == 'r' {
            (DatumDecoderState::Normal, seq![content_view('\r')])
        } else if c == 'n' {
            (DatumDecoderState::Normal, seq![content_view('\n')])
        } else if c == 't' {
            (DatumDecoderState::Normal, seq![content_view('\t')])
        } else if c == 'x' {
            (DatumDecoderState::HexEscape(0), seq![])
        } else {
            (DatumDecoderState::Normal, seq![content_view(c)])
        },
        DatumDecoderState::HexEscape(v) => if c == ';' {
            if is_scalar(v) {
                (DatumDecoderState::Normal, seq![content_view(v as char)])
            } else {
                (DatumDecoderState::Error, seq![])
            }
        } else {
            match hex_digit_value(c) {
                Some(d) => (DatumDecoderState::HexEscape(hex_accumulate(v, d)), seq![]),
                None => (DatumDecoderState::Error, seq![]),
            }
        },
        DatumDecoderState::Error => (DatumDecoderState::Error, seq![]),
    }
}

/// The end of input: only the normal state may end.
pub open spec fn decoder_finish(s: DatumDecoderState) -> (DatumDecoderState, Seq<DatumCharView>) {
    if s is Normal {
        (s, seq![])
    } else {
        (DatumDecoderState::Error, seq![])
    }
}

/// The value of a hexadecimal digit.
fn hex_digit(c: char) -> (r: Option<u32>)
    ensures
        r == hex_digit_value(c),
{
    if c >= '0' && c <= '9' {
        Some(c as u32 - '0' as u32)
    } else if c >= 'a' && c <= 'f' {
        Some(c as u32 - 'a' as u32 + 10)
    } else if c >= 'A' && c <= 'F' {
        Some(c as u32 - 'A' as u32 + 10)
    } else {
        None
    }
}

/// Decoder for the Datum encoding layer: resolves backslash escapes.
#[derive(Clone, Copy, PartialEq, Eq, Debug)]
pub struct DatumDecoder {
    state: DatumDecoderState,
}

impl DatumDecoder {
    /// A decoder in the normal state.
    pub fn new() -> (r: Self)
        ensures
            r.wf(),
            r.state() == DatumDecoderState::Normal,
    {
        DatumDecoder { state: DatumDecoderState::Normal }
    }

    /// Whether the end of input may come now.
    pub fn allowed_to_eof(&self) -> (r: bool)
        ensures
            r == (self.state() is Normal),
    {
        self.state == DatumDecoderState::Normal
    }
}

impl Default for DatumDecoder {
    fn default() -> (r: Self)
        ensures
            r.wf(),
            r.state() == DatumDecoderState::Normal,
    {
        Self::new()
    }
}

impl DatumPipe for DatumDecoder {
    type Input = char;
    type Output = DatumChar;
    type State = DatumDecoderState;

    closed spec fn wf(&self) -> bool {
        self.state matches DatumDecoderState::HexEscape(v) ==> v <= HEX_ESCAPE_LIMIT
    }

    closed spec fn state(&self) -> DatumDecoderState {
        self.state
    }

    open spec fn next(s: DatumDecoderState, c: char) -> (DatumDecoderState, Seq<DatumCharView>) {
        decoder_step(s, c)
    }

    open spec fn finish(s: DatumDecoderState) -> (DatumDecoderState, Seq<DatumCharView>) {
        decoder_finish(s)
    }

    open spec fn failed(s: DatumDecoderState) -> bool {
        s is Error
    }

    open spec fn max_out() -> nat {
        DATUM_DECODER_MAX_SIZE as nat
    }

    proof fn lemma_fan_out(s: DatumDecoderState, c: char) {
    }

    proof fn lemma_sticky(s: DatumDecoderState, c: char) {
    }

    fn feed(&mut self, c: char, out: &mut Vec<DatumChar>) {
        let ghost o = views(old(out)@);
        match self.state {
            DatumDecoderState::Normal => {
                match DatumChar::identify(c) {
                    Some(v) => {
                        out.push(v);
                        assert(views(out@) =~= o + seq![v@]);
                    },
                    None => {
                        self.state = DatumDecoderState::Escaping;
                        assert(views(out@) =~= o + seq![]);
                    },
                }
            },
            DatumDecoderState::Escaping => {
                if c == 'x' {
                    self.state = DatumDecoderState::HexEscape(0);
                    assert(views(out@) =~= o + seq![]);
                } else {
                    let v = if c == 'r' {
                        '\r'
                    } else if c == 'n' {
                        '\n'
                    } else if c == 't' {
                        '\t'
                    } else {
                        c
                    };
                    let d = DatumChar::content(v);
                    out.push(d);
                    self.state = DatumDecoderState::Normal;
                    assert(views(out@) =~= o + seq![d@]);
                }
            },
            DatumDecoderState::HexEscape(v) => {
                if c == ';' {
                    match char_from_u32(v) {
                        Some(ch) => {
                            let d = DatumChar::content(ch);
                            out.push(d);
                            self.state = DatumDecoderState::Normal;
                            assert(views(out@) =~= o + seq![d@]);
                        },
                        None => {
                            self.state = DatumDecoderState::Error;
                            assert(views(out@) =~= o + seq![]);
                        },
                    }
                } else {
                    match hex_digit(c) {
                        Some(digit) => {
                            let nv = if v >= HEX_ESCAPE_LIMIT / 16 {
                                HEX_ESCAPE_LIMIT
                            } else {
                                let w = v * 16 + digit;
                                if w >= HEX_ESCAPE_LIMIT {
                                    HEX_ESCAPE_LIMIT
                                } else {
                                    w
                                }
                            };
                            self.state = DatumDecoderState::HexEscape(nv);
                            assert(nv == hex_accumulate(v, digit));
                            assert(views(out@) =~= o + seq![]);
                        },
                        None => {
                            self.state = DatumDecoderState::Error;
                            assert(views(out@) =~= o + seq![]);
                        },
                    }
                }
            },
            DatumDecoderState::Error => {
                assert(views(out@) =~= o + seq![]);
            },
        }
    }

    fn eof(&mut self, out: &mut Vec<DatumChar>) {
        if self.state != DatumDecoderState::Normal {
            self.state = DatumDecoderState::Error;
        }
        assert(views(out@) =~= views(old(out)@) + seq![]);
    }

    fn has_error(&self) -> (r: bool) {
        self.state == DatumDecoderState::Error
    }
}

/// Decoding the text that a classified character emits, from the normal state,
/// yields that character and returns to the normal state: no character is
/// unrepresentable.
pub proof fn lemma_emit_decodes(c: DatumCharView)
    requires
        c.wf(),
    ensures
        run::<DatumDecoder>(DatumDecoderState::Normal, emit_of(c)) == (DatumDecoderState::Normal, seq![c]),
{
    let e = emit_of(c);
    let n = DatumDecoderState::Normal;
    assert(run::<DatumDecoder>(n, seq![]) == (n, Seq::<DatumCharView>::empty()));
    if e.len() == 1 {
        assert(e.drop_last() =~= seq![]);
        assert(decoder_step(n, c.ch) == (n, seq![c]));
        assert(Seq::<DatumCharView>::empty() + seq![c] =~= seq![c]);
    } else {
        assert(e.drop_last() =~= seq!['\\']);
        assert(seq!['\\'].drop_last() =~= seq![]);
        let r1 = run::<DatumDecoder>(n, seq!['\\']);
        assert(Seq::<DatumCharView>::empty() + Seq::<DatumCharView>::empty() =~= Seq::<DatumCharView>::empty());
        assert(r1 == (DatumDecoderState::Escaping, Seq::<DatumCharView>::empty()));
        assert(decoder_step(DatumDecoderState::Escaping, e[1]) == (n, seq![c]));
        assert(Seq::<DatumCharView>::empty() + seq![c] =~= seq![c]);
    }
}

} // verus!
