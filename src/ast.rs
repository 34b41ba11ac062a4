//! Value trees and the parser that builds them from tokens.
use vstd::prelude::*;

use crate::array::DatumNoRoomError;
use crate::atom::{atom_of_token, DatumAtom};
use crate::pipeline::{views, DatumPipe};
use crate::token::DatumToken;
use crate::writer::{atom_text, whitespace_text, DatumWriter, DatumWriterState};

verus! {

/// The most values that one token, or the end of input, yields.
pub const DATUM_PARSER_MAX_SIZE: usize = 1;

/// Datum value: an atom, or a list of values.
#[derive(PartialEq, Debug)]
pub enum DatumValue {
    Atom(DatumAtom<String>),
    List(Vec<DatumValue>),
}

/// What a value is: an atom, or a sequence of values.
pub enum DatumValueView {
    Atom(DatumAtom<Seq<char>>),
    List(Seq<DatumValueView>),
}

impl View for DatumValue {
    type V = DatumValueView;

    open spec fn view(&self) -> DatumValueView {
        self.model()
    }
}

impl DatumValue {
    /// What the value is.
    pub open spec fn model(&self) -> DatumValueView
        decreases self,
    {
        match self {
            DatumValue::Atom(a) => DatumValueView::Atom(a@),
            DatumValue::List(v) => DatumValueView::List(
                Seq::new(
                    v.len() as nat,
                    |i: int|
                        if 0 <= i < v.len() {
                            v[i].model()
                        } else {
                            DatumValueView::List(seq![])
                        },
                ),
            ),
        }
    }

    /// Writes the value: an atom, or its list with its elements in order.
    pub fn write_to(&self, f: &mut String, writer: &mut DatumWriter)
        ensures
            final(f)@ == old(f)@ + write_items(*old(writer), value_items(self@)).1,
            *final(writer) == write_items(*old(writer), value_items(self@)).0,
        decreases self,
    {
        match self {
            DatumValue::Atom(a) => {
                writer.write_atom(f, a);
                proof {
                    lemma_write_items_one(*old(writer), WriteItem::Atom(a@));
                }
            },
            DatumValue::List(v) => {
                proof {
                    lemma_list_view(*v);
                }
                let ghost w0 = *old(writer);
                let ghost vs = views(v@);
                let ls: DatumToken<String> = DatumToken::ListStart;
                writer.write_token(f, &ls);
                proof {
                    lemma_write_items_one(w0, WriteItem::ListStart);
                    assert(item_parts(vs, 0).flatten() =~= Seq::<WriteItem>::empty());
                    assert(seq![WriteItem::ListStart] + item_parts(vs, 0).flatten() =~= seq![WriteItem::ListStart]);
                }
                let mut i: usize = 0;
                while i < v.len()
                    invariant
                        i <= v.len(),
                        *self == DatumValue::List(*v),
                        vs == views(v@),
                        old(f)@ + write_items(w0, seq![WriteItem::ListStart] + item_parts(vs, i as int).flatten()).1 == f@,
                        write_items(w0, seq![WriteItem::ListStart] + item_parts(vs, i as int).flatten()).0 == *writer,
                    decreases v.len() - i,
                {
                    proof {
                        vstd::std_specs::vec::axiom_vec_index_decreases(*v, i as int);
                        assert(decreases_to!(*v => v[i as int]));
                        assert(decreases_to!(*self => self->List_0));
                        assert(decreases_to!(*self => v[i as int]));
                    }
                    v[i].write_to(f, writer);
                    proof {
                        let head = seq![WriteItem::ListStart] + item_parts(vs, i as int).flatten();
                        let item = value_items(vs[i as int]);
                        assert(item_parts(vs, i + 1) =~= item_parts(vs, i as int).push(item));
                        item_parts(vs, i as int).lemma_flatten_push(item);
                        assert(seq![WriteItem::ListStart] + item_parts(vs, i + 1).flatten() =~= head + item);
                        lemma_write_items_append(w0, head, item);
                        assert(old(f)@ + write_items(w0, head + item).1 =~= f@);
                    }
                    i = i + 1;
                }
                let le: DatumToken<String> = DatumToken::ListEnd;
                let ghost before_end = *writer;
                writer.write_token(f, &le);
                proof {
                    let body = seq![WriteItem::ListStart] + item_parts(vs, v.len() as int).flatten();
                    let full = body + seq![WriteItem::ListEnd];
                    assert(item_parts(vs, v.len() as int) =~= Seq::new(
                        vs.len(),
                        |i: int|
                            if 0 <= i < vs.len() {
                                value_items(vs[i])
                            } else {
                                seq![]
                            },
                    ));
                    assert(value_items(self@) == full);
                    lemma_write_items_one(before_end, WriteItem::ListEnd);
                    lemma_write_items_append(w0, body, seq![WriteItem::ListEnd]);
                    assert(old(f)@ + write_items(w0, full).1 =~= f@);
                }
            },
        }
    }

    /// The nil value.
    pub fn default() -> (r: DatumValue)
        ensures
            r@ == DatumValueView::Atom(DatumAtom::Nil),
    {
        DatumValue::Atom(DatumAtom::Nil)
    }
}

/// One element as the writer sees it: an atom, or the start or the end of a list.
pub enum WriteItem {
    Atom(DatumAtom<Seq<char>>),
    ListStart,
    ListEnd,
}

/// The elements that writing a value writes, in order.
pub open spec fn value_items(v: DatumValueView) -> Seq<WriteItem>
    decreases v,
{
    match v {
        DatumValueView::Atom(a) => seq![WriteItem::Atom(a)],
        DatumValueView::List(vs) => seq![WriteItem::ListStart] + item_parts(vs, vs.len() as int).flatten()
            + seq![WriteItem::ListEnd],
    }
}

/// The elements written for each of the first `n` values of a list.
pub open spec fn item_parts(vs: Seq<DatumValueView>, n: int) -> Seq<Seq<WriteItem>>
    decreases vs,
{
    Seq::new(
        n as nat,
        |i: int|
            if 0 <= i < vs.len() {
                value_items(vs[i])
            } else {
                seq![]
            },
    )
}

/// Writing one element: the whitespace owed (no single space before a list end),
/// then its text.
pub open spec fn write_item(w: DatumWriter, item: WriteItem) -> (DatumWriter, Seq<char>) {
    match item {
        WriteItem::Atom(a) => (
            DatumWriter { indent: w.indent, state: DatumWriterState::AfterToken },
            whitespace_text(w, false) + atom_text(a),
        ),
        WriteItem::ListStart => (
            DatumWriter { indent: w.indent, state: DatumWriterState::Nothing },
            whitespace_text(w, false) + seq!['('],
        ),
        WriteItem::ListEnd => (
            DatumWriter { indent: w.indent, state: DatumWriterState::AfterToken },
            whitespace_text(w, true) + seq![')'],
        ),
    }
}

/// Writing elements in order: the writer afterwards and the text written.
pub open spec fn write_items(w: DatumWriter, items: Seq<WriteItem>) -> (DatumWriter, Seq<char>)
    decreases items.len(),
{
    if items.len() == 0 {
        (w, seq![])
    } else {
        let r = write_items(w, items.drop_last());
        let s = write_item(r.0, items.last());
        (s.0, r.1 + s.1)
    }
}

/// Writing two runs of elements is writing the first, then the second.
pub proof fn lemma_write_items_append(w: DatumWriter, a: Seq<WriteItem>, b: Seq<WriteItem>)
    ensures
        write_items(w, a + b) == ({
            let r = write_items(w, a);
            let s = write_items(r.0, b);
            (s.0, r.1 + s.1)
        }),
    decreases b.len(),
{
    if b.len() == 0 {
        assert(a + b =~= a);
        assert(write_items(w, a).1 + Seq::<char>::empty() =~= write_items(w, a).1);
    } else {
        assert((a + b).drop_last() =~= a + b.drop_last());
        assert((a + b).last() == b.last());
        lemma_write_items_append(w, a, b.drop_last());
        let r = write_items(w, a);
        let s = write_items(r.0, b.drop_last());
        let t = write_item(s.0, b.last());
        assert(r.1 + s.1 + t.1 =~= r.1 + (s.1 + t.1));
    }
}

/// Writing a single element.
proof fn lemma_write_items_one(w: DatumWriter, item: WriteItem)
    ensures
        write_items(w, seq![item]) == write_item(w, item),
{
    assert(seq![item].drop_last() =~= Seq::<WriteItem>::empty());
    assert(seq![item].last() == item);
    assert(write_items(w, Seq::<WriteItem>::empty()) == (w, Seq::<char>::empty()));
    assert(Seq::<char>::empty() + write_item(w, item).1 =~= write_item(w, item).1);
}

/// The elements of a list value are the views of its vector.
pub proof fn lemma_list_view(v: Vec<DatumValue>)
    ensures
        DatumValue::List(v)@ == DatumValueView::List(views(v@)),
{
    reveal_with_fuel(DatumValue::model, 2);
    let t = DatumValue::List(v)@->List_0;
    assert(t.len() == v.len());
    assert forall|i: int| 0 <= i < v.len() implies t[i] == views(v@)[i] by {}
    assert(views(v@) =~= t);
}

/// An open frame of the parser: a list being built, or a quote awaiting its value.
pub enum DatumParserFrame {
    InList(Vec<DatumValue>),
    InQuote,
}

/// What a frame is.
pub enum FrameView {
    InList(Seq<DatumValueView>),
    InQuote,
}

impl View for DatumParserFrame {
    type V = FrameView;

    open spec fn view(&self) -> FrameView {
        match self {
            DatumParserFrame::InList(v) => FrameView::InList(views(v@)),
            DatumParserFrame::InQuote => FrameView::InQuote,
        }
    }
}

/// Model of the parser: its stack of open frames (the top last) and its error flag.
pub struct ParserModel {
    pub stack: Seq<FrameView>,
    pub error: bool,
}

/// The parser's state after an error.
pub open spec fn parser_failed_state() -> ParserModel {
    ParserModel { stack: seq![], error: true }
}

/// The text of the identifier that a quote shorthand stands for.
pub open spec fn quote_text() -> Seq<char> {
    seq!['q', 'u', 'o', 't', 'e']
}

/// `(quote v)`.
pub open spec fn quoted(v: DatumValueView) -> DatumValueView {
    DatumValueView::List(seq![DatumValueView::Atom(DatumAtom::ID(quote_text())), v])
}

/// A finished value meets the stack: the top frame is popped; with none, the value
/// is output; an open list takes it as its next element and stays open; a quote
/// wraps it and the result is handled again.
pub open spec fn close_value(stack: Seq<FrameView>, v: DatumValueView) -> (Seq<FrameView>, Seq<DatumValueView>)
    decreases stack.len(),
{
    if stack.len() == 0 {
        (stack, seq![v])
    } else {
        match stack.last() {
            FrameView::InList(children) => (stack.drop_last().push(FrameView::InList(children.push(v))), seq![]),
            FrameView::InQuote => close_value(stack.drop_last(), quoted(v)),
        }
    }
}

/// One token fed to the parser.
/// `room` says whether the storage has room for one more frame; where a frame
/// does not fit, the parser fails.
pub open spec fn parser_step(m: ParserModel, t: DatumToken<Seq<char>>, room: bool) -> (ParserModel, Seq<DatumValueView>) {
    if m.error {
        (m, seq![])
    } else {
        match t {
            DatumToken::Quote => if room {
                (ParserModel { stack: m.stack.push(FrameView::InQuote), error: false }, seq![])
            } else {
                (parser_failed_state(), seq![])
            },
            DatumToken::ListStart => if room {
                (ParserModel { stack: m.stack.push(FrameView::InList(seq![])), error: false }, seq![])
            } else {
                (parser_failed_state(), seq![])
            },
            DatumToken::ListEnd => if m.stack.len() > 0 && m.stack.last() is InList {
                let r = close_value(m.stack.drop_last(), DatumValueView::List(m.stack.last()->InList_0));
                (ParserModel { stack: r.0, error: false }, r.1)
            } else {
                (parser_failed_state(), seq![])
            },
            _ => match atom_of_token(t) {
                Some(a) => {
                    let r = close_value(m.stack, DatumValueView::Atom(a));
                    (ParserModel { stack: r.0, error: false }, r.1)
                },
                None => (parser_failed_state(), seq![]),
            },
        }
    }
}

/// The end of input: open frames are an error.
pub open spec fn parser_finish(m: ParserModel) -> (ParserModel, Seq<DatumValueView>) {
    if m.stack.len() > 0 {
        (parser_failed_state(), seq![])
    } else {
        (m, seq![])
    }
}

/// Closing a value yields at most that one value.
proof fn lemma_close_value_len(stack: Seq<FrameView>, v: DatumValueView)
    ensures
        close_value(stack, v).1.len() <= 1,
    decreases stack.len(),
{
    if stack.len() > 0 {
        lemma_close_value_len(stack.drop_last(), quoted(v));
    }
}

/// The storage of the parser's frames: a stack that may refuse a push when full.
pub trait DatumParserStack: Sized {
    /// The internal consistency of the storage.
    spec fn wf(&self) -> bool;

    /// The frames held, the top last.
    spec fn frames(&self) -> Seq<FrameView>;

    /// Whether a stack holding `len` frames has room for one more.
    spec fn fits(len: nat) -> bool;

    /// Pushes a frame where there is room; else fails and changes nothing.
    fn push(&mut self, entry: DatumParserFrame) -> (r: Result<(), DatumNoRoomError>)
        requires
            old(self).wf(),
        ensures
            final(self).wf(),
            Self::fits(old(self).frames().len()) ==> r is Ok && final(self).frames() == old(self).frames().push(entry@),
            !Self::fits(old(self).frames().len()) ==> r is Err && final(self).frames() == old(self).frames(),
    ;

    /// Pops the top frame; afterwards there is room for one.
    fn pop(&mut self) -> (r: Option<DatumParserFrame>)
        requires
            old(self).wf(),
        ensures
            final(self).wf(),
            old(self).frames().len() == 0 ==> r is None && final(self).frames() == old(self).frames(),
            old(self).frames().len() > 0 ==> (r matches Some(f) && f@ == old(self).frames().last()),
            old(self).frames().len() > 0 ==> final(self).frames() == old(self).frames().drop_last(),
            old(self).frames().len() > 0 ==> Self::fits(final(self).frames().len()),
    ;

    /// Returns true if no frame is held.
    fn is_empty(&self) -> (r: bool)
        ensures
            r == (self.frames().len() == 0),
    ;

    /// Drops every frame.
    fn clear(&mut self)
        requires
            old(self).wf(),
        ensures
            final(self).wf(),
            final(self).frames() == Seq::<FrameView>::empty(),
    ;
}

/// Vec-based parser stack: always has room.
pub struct VecDatumParserStack(pub Vec<DatumParserFrame>);

impl Default for VecDatumParserStack {
    fn default() -> (r: Self)
        ensures
            r.frames() == Seq::<FrameView>::empty(),
    {
        let r = VecDatumParserStack(Vec::new());
        assert(views(r.0@) =~= Seq::<FrameView>::empty());
        r
    }
}

impl DatumParserStack for VecDatumParserStack {
    open spec fn wf(&self) -> bool {
        true
    }

    open spec fn frames(&self) -> Seq<FrameView> {
        views(self.0@)
    }

    open spec fn fits(len: nat) -> bool {
        true
    }

    fn push(&mut self, entry: DatumParserFrame) -> (r: Result<(), DatumNoRoomError>) {
        self.0.push(entry);
        assert(views(self.0@) =~= views(old(self).0@).push(entry@));
        Ok(())
    }

    fn pop(&mut self) -> (r: Option<DatumParserFrame>) {
        let r = self.0.pop();
        assert(views(self.0@) =~= if old(self).0@.len() > 0 {
            views(old(self).0@).drop_last()
        } else {
            views(old(self).0@)
        });
        r
    }

    fn is_empty(&self) -> (r: bool) {
        self.0.len() == 0
    }

    fn clear(&mut self) {
        self.0.clear();
        assert(views(self.0@) =~= Seq::<FrameView>::empty());
    }
}

/// Fixed-capacity parser stack: holds at most `SIZE` frames.
pub struct FixedDatumParserStack<const SIZE: usize> {
    frames: Vec<DatumParserFrame>,
}

impl<const SIZE: usize> Default for FixedDatumParserStack<SIZE> {
    fn default() -> (r: Self)
        ensures
            r.wf(),
            r.frames() == Seq::<FrameView>::empty(),
    {
        let r = FixedDatumParserStack { frames: Vec::new() };
        assert(views(r.frames@) =~= Seq::<FrameView>::empty());
        r
    }
}

impl<const SIZE: usize> DatumParserStack for FixedDatumParserStack<SIZE> {
    closed spec fn wf(&self) -> bool {
        self.frames@.len() <= SIZE
    }

    closed spec fn frames(&self) -> Seq<FrameView> {
        views(self.frames@)
    }

    open spec fn fits(len: nat) -> bool {
        len < SIZE
    }

    fn push(&mut self, entry: DatumParserFrame) -> (r: Result<(), DatumNoRoomError>) {
        if self.frames.len() >= SIZE {
            Err(DatumNoRoomError)
        } else {
            self.frames.push(entry);
            assert(views(self.frames@) =~= views(old(self).frames@).push(entry@));
            Ok(())
        }
    }

    fn pop(&mut self) -> (r: Option<DatumParserFrame>) {
        let r = self.frames.pop();
        assert(views(self.frames@) =~= if old(self).frames@.len() > 0 {
            views(old(self).frames@).drop_last()
        } else {
            views(old(self).frames@)
        });
        r
    }

    fn is_empty(&self) -> (r: bool) {
        self.frames.len() == 0
    }

    fn clear(&mut self) {
        self.frames.clear();
        assert(views(self.frames@) =~= Seq::<FrameView>::empty());
    }
}

/// Datum parser (from tokens into values), over a frame storage.
pub struct DatumParser<S: DatumParserStack> {
    stack: S,
    error: bool,
}

/// The parser whose frames are kept in a vector.
pub type AllocDatumParser = DatumParser<VecDatumParserStack>;

impl DatumParser<VecDatumParserStack> {
    /// A parser with no open frame, whose frames are kept in a vector.
    pub fn new() -> (r: Self)
        ensures
            r.wf(),
            r.state() == (ParserModel { stack: seq![], error: false }),
    {
        Self::with_stack(VecDatumParserStack::default())
    }
}

impl Default for DatumParser<VecDatumParserStack> {
    fn default() -> (r: Self)
        ensures
            r.wf(),
            r.state() == (ParserModel { stack: seq![], error: false }),
    {
        Self::new()
    }
}

impl<const SIZE: usize> Default for DatumParser<FixedDatumParserStack<SIZE>> {
    fn default() -> (r: Self)
        ensures
            r.wf(),
            r.state() == (ParserModel { stack: seq![], error: false }),
    {
        Self::with_stack(FixedDatumParserStack::default())
    }
}

impl<S: DatumParserStack> DatumParser<S> {
    /// A parser over the given storage, which must hold no frame.
    pub fn with_stack(stack: S) -> (r: Self)
        requires
            stack.wf(),
            stack.frames().len() == 0,
        ensures
            r.wf(),
            r.state() == (ParserModel { stack: seq![], error: false }),
    {
        assert(stack.frames() =~= Seq::<FrameView>::empty());
        DatumParser { stack, error: false }
    }

    /// Whether the end of input may come now: no frame is open.
    pub fn is_eof_allowed(&self) -> (r: bool)
        ensures
            r == (self.state().stack.len() == 0),
    {
        self.stack.is_empty()
    }

    /// The identifier value `quote`.
    fn quote_id() -> (r: DatumValue)
        ensures
            r@ == DatumValueView::Atom(DatumAtom::ID(quote_text())),
    {
        let s = "quote".to_owned();
        proof {
            reveal_strlit("quote");
        }
        assert(s@ =~= quote_text());
        DatumValue::Atom(DatumAtom::ID(s))
    }

    /// Routes a finished value through the stack (see `close_value`).
    fn feed_value(&mut self, value: DatumValue, out: &mut Vec<DatumValue>)
        requires
            old(self).stack.wf(),
        ensures
            final(self).stack.wf(),
            final(self).stack.frames() == close_value(old(self).stack.frames(), value@).0,
            views(final(out)@) == views(old(out)@) + close_value(old(self).stack.frames(), value@).1,
            final(self).error == old(self).error,
    {
        let ghost goal = close_value(self.stack.frames(), value@);
        let mut v = value;
        loop
            invariant
                self.stack.wf(),
                goal == close_value(old(self).stack.frames(), value@),
                close_value(self.stack.frames(), v@) == goal,
                views(out@) == views(old(out)@),
                self.error == old(self).error,
            ensures
                self.stack.wf(),
                self.stack.frames() == goal.0,
                views(out@) == views(old(out)@) + goal.1,
                self.error == old(self).error,
            decreases self.stack.frames().len(),
        {
            let ghost st = self.stack.frames();
            match self.stack.pop() {
                None => {
                    out.push(v);
                    assert(views(out@) =~= views(old(out)@) + seq![v@]);
                    return;
                },
                Some(DatumParserFrame::InList(list)) => {
                    let mut list = list;
                    let ghost lv = v@;
                    let ghost before = views(list@);
                    list.push(v);
                    assert(views(list@) =~= before.push(lv));
                    let pushed = self.stack.push(DatumParserFrame::InList(list));
                    assert(pushed is Ok);
                    assert(views(out@) =~= views(old(out)@) + seq![]);
                    return;
                },
                Some(DatumParserFrame::InQuote) => {
                    let q = Self::quote_id();
                    let ghost inner = v@;
                    let items = vec![q, v];
                    v = DatumValue::List(items);
                    proof {
                        lemma_list_view(items);
                        assert(views(items@) =~= seq![q@, inner]);
                    }
                },
            }
        }
    }

    /// Puts the parser in its failed state.
    fn fail(&mut self)
        requires
            old(self).stack.wf(),
        ensures
            final(self).stack.wf(),
            final(self).error,
            final(self).stack.frames() == Seq::<FrameView>::empty(),
    {
        self.error = true;
        self.stack.clear();
    }

    /// Pushes a frame; with no room, the parser fails.
    fn open_frame(&mut self, frame: DatumParserFrame)
        requires
            old(self).stack.wf(),
            !old(self).error,
        ensures
            final(self).stack.wf(),
            S::fits(old(self).stack.frames().len()) ==> !final(self).error && final(self).stack.frames()
                == old(self).stack.frames().push(frame@),
            !S::fits(old(self).stack.frames().len()) ==> final(self).error && final(self).stack.frames()
                == Seq::<FrameView>::empty(),
    {
        if self.stack.push(frame).is_err() {
            self.fail();
        }
    }
}

impl<S: DatumParserStack> DatumPipe for DatumParser<S> {
    type Input = DatumToken<String>;
    type Output = DatumValue;
    type State = ParserModel;

    closed spec fn wf(&self) -> bool {
        &&& self.stack.wf()
        &&& self.error ==> self.stack.frames().len() == 0
    }

    closed spec fn state(&self) -> ParserModel {
        ParserModel { stack: self.stack.frames(), error: self.error }
    }

    open spec fn next(m: ParserModel, t: DatumToken<Seq<char>>) -> (ParserModel, Seq<DatumValueView>) {
        parser_step(m, t, S::fits(m.stack.len()))
    }

    open spec fn finish(m: ParserModel) -> (ParserModel, Seq<DatumValueView>) {
        parser_finish(m)
    }

    open spec fn failed(m: ParserModel) -> bool {
        m.error
    }

    open spec fn max_out() -> nat {
        DATUM_PARSER_MAX_SIZE as nat
    }

    proof fn lemma_fan_out(m: ParserModel, t: DatumToken<Seq<char>>) {
        if m.stack.len() > 0 && m.stack.last() is InList {
            lemma_close_value_len(m.stack.drop_last(), DatumValueView::List(m.stack.last()->InList_0));
        }
        if let Some(a) = atom_of_token(t) {
            lemma_close_value_len(m.stack, DatumValueView::Atom(a));
        }
    }

    proof fn lemma_sticky(m: ParserModel, t: DatumToken<Seq<char>>) {
    }

    fn feed(&mut self, token: DatumToken<String>, out: &mut Vec<DatumValue>) {
        if self.error {
            assert(views(out@) =~= views(old(out)@) + seq![]);
            return;
        }
        match token {
            DatumToken::Quote => {
                self.open_frame(DatumParserFrame::InQuote);
                assert(views(out@) =~= views(old(out)@) + seq![]);
            },
            DatumToken::ListStart => {
                let list: Vec<DatumValue> = Vec::new();
                assert(views(list@) =~= Seq::<DatumValueView>::empty());
                self.open_frame(DatumParserFrame::InList(list));
                assert(views(out@) =~= views(old(out)@) + seq![]);
            },
            DatumToken::ListEnd => {
                match self.stack.pop() {
                    Some(DatumParserFrame::InList(list)) => {
                        proof {
                            lemma_list_view(list);
                        }
                        self.feed_value(DatumValue::List(list), out);
                    },
                    _ => {
                        self.fail();
                        assert(views(out@) =~= views(old(out)@) + seq![]);
                    },
                }
            },
            _ => {
                match DatumAtom::try_from(token) {
                    Ok(a) => {
                        self.feed_value(DatumValue::Atom(a), out);
                    },
                    Err(_) => {
                        self.fail();
                        assert(views(out@) =~= views(old(out)@) + seq![]);
                    },
                }
            },
        }
    }

    /// Sets the error flag if the parser is in the middle of a value.
    fn eof(&mut self, out: &mut Vec<DatumValue>) {
        if !self.stack.is_empty() {
            self.fail();
        }
        assert(views(out@) =~= views(old(out)@) + seq![]);
    }

    fn has_error(&self) -> (r: bool) {
        self.error
    }
}

} // verus!
