//! Reassembling UTF-8 bytes into Unicode scalar values.
use vstd::prelude::*;
use vstd::utf8::*;

use crate::pipeline::{run, views, DatumPipe};
use crate::text::char_from_u32;

verus! {

/// The most characters that one byte, or the end of input, yields.
pub const DATUM_UTF8_DECODER_MAX_SIZE: usize = 1;

/// The number of bytes in a sequence that starts with this byte; zero where the
/// byte cannot start one.
pub open spec fn lead_width(b: u8) -> int {
    if b <= 0x7f {
        1
    } else if 0xc0 <= b <= 0xdf {
        2
    } else if 0xe0 <= b <= 0xef {
        3
    } else if 0xf0 <= b <= 0xf7 {
        4
    } else {
        0
    }
}

/// Model of the UTF-8 decoder: the bytes of a sequence still incomplete, and the error flag.
pub struct Utf8DecoderState {
    pub pending: Seq<u8>,
    pub error: bool,
}

/// The decoder's state after an error.
pub open spec fn utf8_failed_state() -> Utf8DecoderState {
    Utf8DecoderState { pending: seq![], error: true }
}

/// One byte fed to the decoder.
pub open spec fn utf8_step(s: Utf8DecoderState, b: u8) -> (Utf8DecoderState, Seq<char>) {
    if s.error {
        (s, seq![])
    } else if s.pending.len() == 0 {
        if b <= 0x7f {
            (s, seq![b as char])
        } else if lead_width(b) == 0 {
            (utf8_failed_state(), seq![])
        } else {
            (Utf8DecoderState { pending: seq![b], error: false }, seq![])
        }
    } else if !is_continuation_byte(b) {
        (utf8_failed_state(), seq![])
    } else {
        let p = s.pending.push(b);
        if p.len() < lead_width(p[0]) {
            (Utf8DecoderState { pending: p, error: false }, seq![])
        } else if valid_first_scalar(p) {
            (Utf8DecoderState { pending: seq![], error: false }, seq![decode_first_scalar(p) as char])
        } else {
            (utf8_failed_state(), seq![])
        }
    }
}

/// The end of input: an incomplete sequence is an error.
pub open spec fn utf8_finish(s: Utf8DecoderState) -> (Utf8DecoderState, Seq<char>) {
    if s.pending.len() > 0 {
        (utf8_failed_state(), seq![])
    } else {
        (s, seq![])
    }
}

/// UTF-8 stream decoder.
#[derive(Clone, Copy, PartialEq, Eq, Debug)]
pub struct DatumUTF8Decoder {
    lead: u8,
    second: u8,
    third: u8,
    buffer_len: u8,
    has_error: bool,
}

impl DatumUTF8Decoder {
    /// A decoder at the start of input.
    pub fn new() -> (r: Self)
        ensures
            r.wf(),
            r.state() == utf8_initial(),
    {
        DatumUTF8Decoder { lead: 0, second: 0, third: 0, buffer_len: 0, has_error: false }
    }
}

impl Default for DatumUTF8Decoder {
    fn default() -> (r: Self)
        ensures
            r.wf(),
            r.state() == utf8_initial(),
    {
        Self::new()
    }
}

impl DatumPipe for DatumUTF8Decoder {
    type Input = u8;
    type Output = char;
    type State = Utf8DecoderState;

    closed spec fn wf(&self) -> bool {
        &&& self.buffer_len <= 3
        &&& self.buffer_len > 0 ==> 2 <= lead_width(self.lead)
        &&& self.buffer_len > 0 ==> self.buffer_len < lead_width(self.lead)
        &&& self.buffer_len >= 2 ==> is_continuation_byte(self.second)
        &&& self.buffer_len >= 3 ==> is_continuation_byte(self.third)
        &&& self.has_error ==> self.buffer_len == 0
    }

    closed spec fn state(&self) -> Utf8DecoderState {
        Utf8DecoderState {
            pending: if self.buffer_len == 0 {
                seq![]
            } else if self.buffer_len == 1 {
                seq![self.lead]
            } else if self.buffer_len == 2 {
                seq![self.lead, self.second]
            } else {
                seq![self.lead, self.second, self.third]
            },
            error: self.has_error,
        }
    }

    open spec fn next(s: Utf8DecoderState, b: u8) -> (Utf8DecoderState, Seq<char>) {
        utf8_step(s, b)
    }

    open spec fn finish(s: Utf8DecoderState) -> (Utf8DecoderState, Seq<char>) {
        utf8_finish(s)
    }

    open spec fn failed(s: Utf8DecoderState) -> bool {
        s.error
    }

    open spec fn max_out() -> nat {
        DATUM_UTF8_DECODER_MAX_SIZE as nat
    }

    proof fn lemma_fan_out(s: Utf8DecoderState, b: u8) {
    }

    proof fn lemma_sticky(s: Utf8DecoderState, b: u8) {
    }

    fn feed(&mut self, byte: u8, out: &mut Vec<char>) {
        if self.has_error {
            assert(views(out@) =~= views(old(out)@) + seq![]);
            return;
        }
        if self.buffer_len == 0 {
            if byte <= 0x7f {
                out.push(byte as char);
                assert(views(out@) =~= views(old(out)@) + seq![byte as char]);
            } else if byte >= 0xc0 && byte <= 0xf7 {
                self.lead = byte;
                self.buffer_len = 1;
                assert(views(out@) =~= views(old(out)@) + seq![]);
            } else {
                self.has_error = true;
                assert(views(out@) =~= views(old(out)@) + seq![]);
            }
            return;
        }
        if byte < 0x80 || byte > 0xbf {
            self.has_error = true;
            self.buffer_len = 0;
            assert(views(out@) =~= views(old(out)@) + seq![]);
            return;
        }
        let width: u8 = if self.lead <= 0xdf {
            2
        } else if self.lead <= 0xef {
            3
        } else {
            4
        };
        assert(width == lead_width(self.lead));
        let ghost p = old(self).state().pending.push(byte);
        if self.buffer_len + 1 < width {
            if self.buffer_len == 1 {
                self.second = byte;
            } else {
                self.third = byte;
            }
            self.buffer_len = self.buffer_len + 1;
            assert(self.state().pending =~= p);
            assert(views(out@) =~= views(old(out)@) + seq![]);
            return;
        }
        let lead = self.lead;
        let second = self.second;
        let third = self.third;
        let cp: u32 = if width == 2 {
            (((lead & 0x1F) as u32) << 6) | ((byte & 0x3F) as u32)
        } else if width == 3 {
            (((lead & 0x0F) as u32) << 12) | (((second & 0x3F) as u32) << 6) | ((byte & 0x3F) as u32)
        } else {
            (((lead & 0x07) as u32) << 18) | (((second & 0x3F) as u32) << 12) | (((third & 0x3F) as u32) << 6)
                | ((byte & 0x3F) as u32)
        };
        assert(p.len() == width);
        assert(valid_leading_and_continuation_bytes_first_codepoint(p));
        assert(cp == decode_first_codepoint(p));
        assert(length_of_first_codepoint(p) == width as int);
        self.buffer_len = 0;
        let overlong = (width == 2 && cp < 0x80) || (width == 3 && cp < 0x800) || (width == 4 && (cp < 0x10000
            || cp > 0x10FFFF));
        let surrogate = cp >= 0xD800 && cp <= 0xDFFF;
        if overlong || surrogate {
            self.has_error = true;
            assert(!valid_first_scalar(p));
            assert(views(out@) =~= views(old(out)@) + seq![]);
            return;
        }
        assert(valid_first_scalar(p));
        if width == 2 {
            assert((((lead & 0x1F) as u32) << 6) | ((byte & 0x3F) as u32) <= 0x7FF) by (bit_vector);
        } else if width == 3 {
            assert((((lead & 0x0F) as u32) << 12) | (((second & 0x3F) as u32) << 6) | ((byte & 0x3F) as u32)
                <= 0xFFFF) by (bit_vector);
        }
        assert(is_scalar(cp));
        match char_from_u32(cp) {
            Some(c) => {
                out.push(c);
                assert(views(out@) =~= views(old(out)@) + seq![cp as char]);
            },
            None => {
                assert(false);
            },
        }
    }

    fn eof(&mut self, out: &mut Vec<char>) {
        if self.buffer_len != 0 {
            self.has_error = true;
            self.buffer_len = 0;
        }
        assert(views(out@) =~= views(old(out)@) + seq![]);
    }

    fn has_error(&self) -> (r: bool) {
        self.has_error
    }
}

/// The decoder's state at the start of input.
pub open spec fn utf8_initial() -> Utf8DecoderState {
    Utf8DecoderState { pending: seq![], error: false }
}

/// The bytes buffered are the start of one scalar's encoding, still incomplete.
pub open spec fn pending_ok(p: Seq<u8>) -> bool {
    p.len() > 0 ==> {
        &&& 2 <= lead_width(p[0])
        &&& p.len() < lead_width(p[0])
        &&& forall|j: int| 1 <= j < p.len() ==> is_continuation_byte(#[trigger] p[j])
    }
}

/// What holds after any sequence of bytes: without an error, the bytes are a valid
/// encoding followed by the pending bytes, and the outputs are exactly the scalars
/// of that encoding; with an error, no continuation of the bytes is valid.
pub open spec fn utf8_run_ok(bs: Seq<u8>) -> bool {
    let r = run::<DatumUTF8Decoder>(utf8_initial(), bs);
    let p = r.0.pending;
    let c = bs.subrange(0, bs.len() - p.len());
    &&& !r.0.error ==> {
        &&& p.len() <= bs.len()
        &&& bs == c + p
        &&& pending_ok(p)
        &&& valid_utf8(c)
        &&& r.1 == decode_utf8(c)
    }
    &&& r.0.error ==> forall|t: Seq<u8>| !valid_utf8(#[trigger] (bs + t))
}

/// The first scalar of a sequence depends only on its first bytes.
proof fn lemma_first_scalar_extend(a: Seq<u8>, t: Seq<u8>)
    requires
        a.len() >= 1,
        1 <= lead_width(a[0]) <= a.len(),
    ensures
        valid_first_scalar(a + t) == valid_first_scalar(a),
        valid_first_scalar(a) ==> decode_first_scalar(a + t) == decode_first_scalar(a)
            && length_of_first_scalar(a + t) == length_of_first_scalar(a)
            && length_of_first_scalar(a) == lead_width(a[0]),
{
    let u = a + t;
    assert(forall|j: int| 0 <= j < a.len() ==> #[trigger] u[j] == a[j]);
}

/// After a valid prefix, the rest decides validity, and the scalars concatenate.
proof fn lemma_valid_prefix(c: Seq<u8>, x: Seq<u8>)
    requires
        valid_utf8(c),
    ensures
        valid_utf8(c + x) == valid_utf8(x),
        valid_utf8(x) ==> decode_utf8(c + x) == decode_utf8(c) + decode_utf8(x),
    decreases c.len(),
{
    if c.len() == 0 {
        assert(c + x =~= x);
        assert(decode_utf8(c) =~= Seq::<char>::empty());
        assert(Seq::<char>::empty() + decode_utf8(x) =~= decode_utf8(x));
    } else {
        let w = length_of_first_scalar(c);
        lemma_first_scalar_extend(c, x);
        let rest = pop_first_scalar(c);
        assert(pop_first_scalar(c + x) =~= rest + x);
        assert(rest.len() < c.len());
        lemma_valid_prefix(rest, x);
        if valid_utf8(x) {
            let h = seq![decode_first_scalar(c) as char];
            assert(h + (decode_utf8(rest) + decode_utf8(x)) =~= (h + decode_utf8(rest)) + decode_utf8(x));
        }
    }
}

/// A complete, valid scalar encoding on its own.
proof fn lemma_one_scalar(q: Seq<u8>)
    requires
        valid_first_scalar(q),
        q.len() == length_of_first_scalar(q),
    ensures
        valid_utf8(q),
        decode_utf8(q) == seq![decode_first_scalar(q) as char],
{
    assert(pop_first_scalar(q) =~= Seq::<u8>::empty());
    assert(valid_utf8(Seq::<u8>::empty()));
    assert(decode_utf8(Seq::<u8>::empty()) =~= Seq::<char>::empty());
    assert(seq![decode_first_scalar(q) as char] + Seq::<char>::empty() =~= seq![decode_first_scalar(q) as char]);
}

/// An incomplete scalar encoding, however it goes on, is not valid if the byte
/// after it is no continuation byte.
proof fn lemma_broken_scalar(p: Seq<u8>, t: Seq<u8>)
    requires
        p.len() > 0,
        2 <= lead_width(p[0]),
        p.len() < lead_width(p[0]),
        t.len() > 0,
        !is_continuation_byte(t[0]),
    ensures
        !valid_utf8(p + t),
{
    let u = p + t;
    assert(u[0] == p[0]);
    assert(u[p.len() as int] == t[0]);
    assert(!valid_first_scalar(u));
}

/// The law of the decoder's runs, by induction over the bytes.
proof fn lemma_utf8_run(bs: Seq<u8>)
    ensures
        utf8_run_ok(bs),
    decreases bs.len(),
{
    if bs.len() == 0 {
        assert(bs.subrange(0, 0) =~= bs);
        assert(valid_utf8(bs));
        assert(decode_utf8(bs) =~= Seq::<char>::empty());
        assert(bs + Seq::<u8>::empty() =~= bs);
        return;
    }
    let prev = bs.drop_last();
    let b = bs.last();
    lemma_utf8_run(prev);
    let r = run::<DatumUTF8Decoder>(utf8_initial(), prev);
    let s = r.0;
    let o = r.1;
    let n = utf8_step(s, b);
    assert(run::<DatumUTF8Decoder>(utf8_initial(), bs) == (n.0, o + n.1));
    assert(bs == prev.push(b));
    if s.error {
        assert forall|t: Seq<u8>| !valid_utf8(#[trigger] (bs + t)) by {
            assert(bs + t =~= prev + (seq![b] + t));
        }
        return;
    }
    let p = s.pending;
    let c = prev.subrange(0, prev.len() - p.len());
    if p.len() == 0 {
        if b <= 0x7f {
            let q = seq![b];
            assert(valid_first_scalar(q));
            lemma_one_scalar(q);
            lemma_valid_prefix(c, q);
            assert(c =~= prev);
            assert(bs =~= c + q);
            assert(((b & 0x7f) as u32) == (b as u32)) by (bit_vector)
                requires
                    b <= 0x7f,
            ;
            assert(bs.subrange(0, bs.len() as int) =~= bs);
            assert(bs + Seq::<u8>::empty() =~= bs);
            assert(o + n.1 =~= decode_utf8(c) + decode_utf8(q));
        } else if lead_width(b) == 0 {
            assert forall|t: Seq<u8>| !valid_utf8(#[trigger] (bs + t)) by {
                assert(c =~= prev);
                assert(bs + t =~= c + (seq![b] + t));
                lemma_valid_prefix(c, seq![b] + t);
                assert((seq![b] + t)[0] == b);
            }
        } else {
            assert(c =~= prev);
            assert(bs.subrange(0, bs.len() - 1) =~= prev);
            assert(bs =~= prev + seq![b]);
        }
        return;
    }
    assert(prev =~= c + p);
    if !is_continuation_byte(b) {
        assert forall|t: Seq<u8>| !valid_utf8(#[trigger] (bs + t)) by {
            assert(bs + t =~= c + (p + (seq![b] + t)));
            lemma_valid_prefix(c, p + (seq![b] + t));
            lemma_broken_scalar(p, seq![b] + t);
        }
        return;
    }
    let q = p.push(b);
    assert(q[0] == p[0]);
    assert(bs =~= c + q);
    if q.len() < lead_width(q[0]) {
        assert(bs.subrange(0, bs.len() - q.len()) =~= c);
        assert(forall|j: int| 1 <= j < q.len() ==> #[trigger] q[j] == (if j < p.len() { p[j] } else { b }));
        return;
    }
    lemma_first_scalar_extend(q, Seq::<u8>::empty());
    if valid_first_scalar(q) {
        assert(q + Seq::<u8>::empty() =~= q);
        lemma_one_scalar(q);
        lemma_valid_prefix(c, q);
        assert(bs.subrange(0, bs.len() as int) =~= bs);
        assert(bs + Seq::<u8>::empty() =~= bs);
        assert(o + n.1 =~= decode_utf8(c) + decode_utf8(q));
    } else {
        assert forall|t: Seq<u8>| !valid_utf8(#[trigger] (bs + t)) by {
            assert(bs + t =~= c + (q + t));
            lemma_valid_prefix(c, q + t);
            lemma_first_scalar_extend(q, t);
        }
    }
}

/// UTF-8 fidelity. For any bytes, fed in order from the start: while no error is
/// raised, the characters yielded are exactly the scalars of the longest complete
/// prefix, which is valid UTF-8; an error is raised only where no continuation of
/// the bytes could be valid; and after the end of input there is no error exactly
/// when the bytes are valid UTF-8, and the characters are then their decoding.
pub proof fn lemma_utf8_fidelity(bs: Seq<u8>)
    ensures
        ({
            let r = run::<DatumUTF8Decoder>(utf8_initial(), bs);
            let c = bs.subrange(0, bs.len() - r.0.pending.len());
            &&& !r.0.error ==> valid_utf8(c) && r.1 == decode_utf8(c)
            &&& r.0.error ==> forall|t: Seq<u8>| !valid_utf8(#[trigger] (bs + t))
            &&& !utf8_finish(r.0).0.error <==> valid_utf8(bs)
            &&& !utf8_finish(r.0).0.error ==> r.1 == decode_utf8(bs)
        }),
{
    lemma_utf8_run(bs);
    let r = run::<DatumUTF8Decoder>(utf8_initial(), bs);
    let p = r.0.pending;
    let c = bs.subrange(0, bs.len() - p.len());
    if r.0.error {
        assert(bs + Seq::<u8>::empty() =~= bs);
    } else if p.len() > 0 {
        lemma_valid_prefix(c, p);
        assert(!valid_first_scalar(p));
    } else {
        assert(c =~= bs);
    }
}

} // verus!
