//! The stage abstraction and the composition of two stages.
use vstd::prelude::*;

verus! {

/// The views of a sequence of values.
pub open spec fn views<T: View>(s: Seq<T>) -> Seq<T::V> {
    s.map_values(|x: T| x@)
}

/// A streaming stage: each input, and the end of input, yields a bounded
/// sequence of outputs.
///
/// A stage is described by a model: its state, what one input does to that state
/// and which outputs it yields, what the end of input does, and whether the state
/// holds an error.
pub trait DatumPipe: Sized {
    type Input: View;
    type Output: View;
    type State;

    /// The internal consistency of the stage's representation.
    spec fn wf(&self) -> bool;

    /// The stage's model state.
    spec fn state(&self) -> Self::State;

    /// The effect of one input: the next state and the outputs yielded.
    spec fn next(s: Self::State, i: <Self::Input as View>::V) -> (Self::State, Seq<<Self::Output as View>::V>);

    /// The effect of the end of input: the next state and the outputs yielded.
    spec fn finish(s: Self::State) -> (Self::State, Seq<<Self::Output as View>::V>);

    /// Whether the state holds an error.
    spec fn failed(s: Self::State) -> bool;

    /// The most outputs that one input, or the end of input, can yield.
    spec fn max_out() -> nat;

    /// No input, and no end of input, yields more than `max_out` outputs.
    proof fn lemma_fan_out(s: Self::State, i: <Self::Input as View>::V)
        ensures
            Self::next(s, i).1.len() <= Self::max_out(),
            Self::finish(s).1.len() <= Self::max_out(),
            Self::max_out() >= 1,
    ;

    /// Once set, the error stays set.
    proof fn lemma_sticky(s: Self::State, i: <Self::Input as View>::V)
        ensures
            Self::failed(s) ==> Self::failed(Self::next(s, i).0),
            Self::failed(s) ==> Self::failed(Self::finish(s).0),
    ;

    /// Feeds one input; its outputs are appended to `out`.
    fn feed(&mut self, i: Self::Input, out: &mut Vec<Self::Output>)
        requires
            old(self).wf(),
        ensures
            final(self).wf(),
            final(self).state() == Self::next(old(self).state(), i@).0,
            views(final(out)@) == views(old(out)@) + Self::next(old(self).state(), i@).1,
    ;

    /// Signals the end of input; outputs are appended to `out`. May set the error.
    fn eof(&mut self, out: &mut Vec<Self::Output>)
        requires
            old(self).wf(),
        ensures
            final(self).wf(),
            final(self).state() == Self::finish(old(self).state()).0,
            views(final(out)@) == views(old(out)@) + Self::finish(old(self).state()).1,
    ;

    /// Returns true if an error has occurred.
    fn has_error(&self) -> (r: bool)
        requires
            self.wf(),
        ensures
            r == Self::failed(self.state()),
    ;
}

/// The state and the outputs after a sequence of inputs, fed in order.
pub open spec fn run<P: DatumPipe>(s: P::State, inputs: Seq<<P::Input as View>::V>) -> (P::State, Seq<<P::Output as View>::V>)
    decreases inputs.len(),
{
    if inputs.len() == 0 {
        (s, seq![])
    } else {
        let r = run::<P>(s, inputs.drop_last());
        let n = P::next(r.0, inputs.last());
        (n.0, r.1 + n.1)
    }
}

/// Each input yields at most `max_out` outputs, so a run yields at most that many per input.
pub proof fn lemma_run_bound<P: DatumPipe>(s: P::State, inputs: Seq<<P::Input as View>::V>)
    ensures
        run::<P>(s, inputs).1.len() <= inputs.len() * P::max_out(),
    decreases inputs.len(),
{
    if inputs.len() > 0 {
        let r = run::<P>(s, inputs.drop_last());
        lemma_run_bound::<P>(s, inputs.drop_last());
        P::lemma_fan_out(r.0, inputs.last());
        let n = inputs.len() as int;
        let m = P::max_out() as int;
        assert((n - 1) * m + m == n * m) by (nonlinear_arith);
    }
}

/// A run from a failed state ends in a failed state.
pub proof fn lemma_run_sticky<P: DatumPipe>(s: P::State, inputs: Seq<<P::Input as View>::V>)
    requires
        P::failed(s),
    ensures
        P::failed(run::<P>(s, inputs).0),
    decreases inputs.len(),
{
    if inputs.len() > 0 {
        lemma_run_sticky::<P>(s, inputs.drop_last());
        P::lemma_sticky(run::<P>(s, inputs.drop_last()).0, inputs.last());
    }
}

/// Feeding two runs of inputs is feeding the first, then the second from where it ended.
pub proof fn lemma_run_append<P: DatumPipe>(s: P::State, a: Seq<<P::Input as View>::V>, b: Seq<<P::Input as View>::V>)
    ensures
        run::<P>(s, a + b) == ({
            let ra = run::<P>(s, a);
            let rb = run::<P>(ra.0, b);
            (rb.0, ra.1 + rb.1)
        }),
    decreases b.len(),
{
    if b.len() == 0 {
        assert(a + b =~= a);
        assert(run::<P>(s, a).1 + Seq::<<P::Output as View>::V>::empty() =~= run::<P>(s, a).1);
    } else {
        assert((a + b).drop_last() =~= a + b.drop_last());
        assert((a + b).last() == b.last());
        lemma_run_append::<P>(s, a, b.drop_last());
        let ra = run::<P>(s, a);
        let rb = run::<P>(ra.0, b.drop_last());
        let n = P::next(rb.0, b.last());
        assert(ra.1 + rb.1 + n.1 =~= ra.1 + (rb.1 + n.1));
    }
}

/// A run of one input is one step.
pub proof fn lemma_run_one<P: DatumPipe>(s: P::State, x: <P::Input as View>::V)
    ensures
        run::<P>(s, seq![x]) == P::next(s, x),
{
    assert(seq![x].drop_last() =~= Seq::<<P::Input as View>::V>::empty());
    assert(seq![x].last() == x);
    assert(run::<P>(s, Seq::<<P::Input as View>::V>::empty()) == (s, Seq::<<P::Output as View>::V>::empty()));
    assert(Seq::<<P::Output as View>::V>::empty() + P::next(s, x).1 =~= P::next(s, x).1);
}

/// A run of a composed pipe is a run of the first stage whose outputs are run
/// through the second.
pub proof fn lemma_compose_run<A: DatumPipe, B: DatumPipe<Input = A::Output>>(
    s: (A::State, B::State),
    xs: Seq<<A::Input as View>::V>,
)
    ensures
        run::<DatumComposePipe<A, B>>(s, xs) == ({
            let ra = run::<A>(s.0, xs);
            let rb = run::<B>(s.1, ra.1);
            ((ra.0, rb.0), rb.1)
        }),
    decreases xs.len(),
{
    if xs.len() == 0 {
        assert(run::<B>(s.1, Seq::<<B::Input as View>::V>::empty()) == (s.1, Seq::<<B::Output as View>::V>::empty()));
    } else {
        lemma_compose_run::<A, B>(s, xs.drop_last());
        let ra = run::<A>(s.0, xs.drop_last());
        let rb = run::<B>(s.1, ra.1);
        let a = A::next(ra.0, xs.last());
        lemma_run_append::<B>(s.1, ra.1, a.1);
    }
}

/// Feeds every input in order, appending the outputs.
pub fn feed_all<P: DatumPipe>(p: &mut P, inputs: Vec<P::Input>, out: &mut Vec<P::Output>)
    requires
        old(p).wf(),
    ensures
        final(p).wf(),
        final(p).state() == run::<P>(old(p).state(), views(inputs@)).0,
        views(final(out)@) == views(old(out)@) + run::<P>(old(p).state(), views(inputs@)).1,
{
    let ghost all = views(inputs@);
    let ghost s0 = p.state();
    let ghost out0 = views(out@);
    let mut rest = inputs;
    let ghost mut k: int = 0;
    assert(all.subrange(0, 0) =~= seq![]);
    assert(views(rest@) =~= all.subrange(0, all.len() as int));
    while rest.len() > 0
        invariant
            p.wf(),
            0 <= k <= all.len(),
            views(rest@) == all.subrange(k, all.len() as int),
            p.state() == run::<P>(s0, all.subrange(0, k)).0,
            views(out@) == out0 + run::<P>(s0, all.subrange(0, k)).1,
        decreases rest.len(),
    {
        let ghost before = run::<P>(s0, all.subrange(0, k));
        let ghost r0 = rest@;
        assert(views(r0).len() == r0.len());
        assert(k < all.len());
        let x = rest.remove(0);
        assert(views(r0)[0] == x@);
        assert(all.subrange(k, all.len() as int)[0] == all[k]);
        p.feed(x, out);
        proof {
            assert(all.subrange(0, k + 1).drop_last() =~= all.subrange(0, k));
            assert(views(rest@) =~= views(r0).subrange(1, views(r0).len() as int));
            assert(all.subrange(0, k + 1).last() == all[k]);
            let n = P::next(before.0, all[k]);
            assert(out0 + before.1 + n.1 =~= out0 + (before.1 + n.1));
            k = k + 1;
            assert(views(rest@) =~= all.subrange(k, all.len() as int));
        }
    }
    assert(all.subrange(0, k) =~= all);
}

/// Conveniences over any stage: feeding many inputs, flushing into a vector.
pub trait DatumPipeExt: DatumPipe {
    /// Feeds every input of `source` in order, appending outputs to `target`,
    /// then signals the end of input if `eof` is set.
    fn feed_iter_to_vec(&mut self, target: &mut Vec<Self::Output>, source: Vec<Self::Input>, eof: bool)
        requires
            old(self).wf(),
        ensures
            final(self).wf(),
            ({
                let r = run::<Self>(old(self).state(), views(source@));
                let f = Self::finish(r.0);
                &&& !eof ==> final(self).state() == r.0
                &&& !eof ==> views(final(target)@) == views(old(target)@) + r.1
                &&& eof ==> final(self).state() == f.0
                &&& eof ==> views(final(target)@) == views(old(target)@) + r.1 + f.1
            }),
    ;

    /// Signals the end of input, appending its outputs to `target`.
    fn eof_to_vec(&mut self, target: &mut Vec<Self::Output>)
        requires
            old(self).wf(),
        ensures
            final(self).wf(),
            final(self).state() == Self::finish(old(self).state()).0,
            views(final(target)@) == views(old(target)@) + Self::finish(old(self).state()).1,
    ;
}

impl<P: DatumPipe> DatumPipeExt for P {
    fn feed_iter_to_vec(&mut self, target: &mut Vec<Self::Output>, source: Vec<Self::Input>, eof: bool)
    {
        feed_all(self, source, target);
        if eof {
            self.eof(target);
            proof {
                let r = run::<Self>(old(self).state(), views(source@));
                let f = Self::finish(r.0);
                assert(views(old(target)@) + r.1 + f.1 == views(old(target)@) + (r.1 + f.1));
            }
        }
    }

    fn eof_to_vec(&mut self, target: &mut Vec<Self::Output>)
    {
        self.eof(target);
    }
}

/// Composed pipe: the first stage's outputs are fed, in order, to the second.
pub struct DatumComposePipe<A: DatumPipe, B: DatumPipe<Input = A::Output>>(pub A, pub B);

impl<A: DatumPipe, B: DatumPipe<Input = A::Output>> DatumComposePipe<A, B> {
    /// Composes two stages.
    pub fn new(a: A, b: B) -> (r: Self)
        ensures
            r.0 == a,
            r.1 == b,
    {
        DatumComposePipe(a, b)
    }
}

impl<A: DatumPipe, B: DatumPipe<Input = A::Output>> DatumPipe for DatumComposePipe<A, B> {
    type Input = A::Input;
    type Output = B::Output;
    type State = (A::State, B::State);

    open spec fn wf(&self) -> bool {
        self.0.wf() && self.1.wf()
    }

    open spec fn state(&self) -> (A::State, B::State) {
        (self.0.state(), self.1.state())
    }

    open spec fn next(s: (A::State, B::State), i: <A::Input as View>::V) -> ((A::State, B::State), Seq<<B::Output as View>::V>) {
        let a = A::next(s.0, i);
        let b = run::<B>(s.1, a.1);
        ((a.0, b.0), b.1)
    }

    open spec fn finish(s: (A::State, B::State)) -> ((A::State, B::State), Seq<<B::Output as View>::V>) {
        let a = A::finish(s.0);
        let b = run::<B>(s.1, a.1);
        let f = B::finish(b.0);
        ((a.0, f.0), b.1 + f.1)
    }

    open spec fn failed(s: (A::State, B::State)) -> bool {
        A::failed(s.0) || B::failed(s.1)
    }

    /// Twice the product of the two bounds: a value may come out both while
    /// feeding and while flushing at the end of input.
    open spec fn max_out() -> nat {
        A::max_out() * B::max_out() * 2
    }

    proof fn lemma_fan_out(s: (A::State, B::State), i: <A::Input as View>::V) {
        A::lemma_fan_out(s.0, i);
        B::lemma_fan_out(s.1, arbitrary());
        let a = A::next(s.0, i);
        lemma_run_bound::<B>(s.1, a.1);
        let fa = A::finish(s.0);
        lemma_run_bound::<B>(s.1, fa.1);
        let rb = run::<B>(s.1, fa.1);
        B::lemma_fan_out(rb.0, arbitrary());
        let ma = A::max_out() as int;
        let mb = B::max_out() as int;
        let na = a.1.len() as int;
        let nf = fa.1.len() as int;
        assert(na * mb <= ma * mb * 2) by (nonlinear_arith)
            requires
                na <= ma,
                mb >= 1,
                ma >= 1,
        ;
        assert(nf * mb + mb <= ma * mb * 2) by (nonlinear_arith)
            requires
                nf <= ma,
                mb >= 1,
                ma >= 1,
        ;
        assert(ma * mb * 2 >= 1) by (nonlinear_arith)
            requires
                mb >= 1,
                ma >= 1,
        ;
    }

    proof fn lemma_sticky(s: (A::State, B::State), i: <A::Input as View>::V) {
        A::lemma_sticky(s.0, i);
        if B::failed(s.1) {
            let a = A::next(s.0, i);
            lemma_run_sticky::<B>(s.1, a.1);
            let fa = A::finish(s.0);
            lemma_run_sticky::<B>(s.1, fa.1);
            B::lemma_sticky(run::<B>(s.1, fa.1).0, arbitrary());
        }
    }

    fn feed(&mut self, i: A::Input, out: &mut Vec<B::Output>) {
        let mut mids: Vec<A::Output> = Vec::new();
        self.0.feed(i, &mut mids);
        assert(views(mids@) =~= A::next(old(self).state().0, i@).1);
        feed_all(&mut self.1, mids, out);
    }

    fn eof(&mut self, out: &mut Vec<B::Output>) {
        let mut mids: Vec<A::Output> = Vec::new();
        self.0.eof(&mut mids);
        assert(views(mids@) =~= A::finish(old(self).state().0).1);
        feed_all(&mut self.1, mids, out);
        let ghost mid_out = views(out@);
        self.1.eof(out);
        proof {
            let a = A::finish(old(self).state().0);
            let b = run::<B>(old(self).state().1, a.1);
            let f = B::finish(b.0);
            assert(views(old(out)@) + b.1 + f.1 =~= views(old(out)@) + (b.1 + f.1));
        }
    }

    fn has_error(&self) -> (r: bool) {
        self.0.has_error() || self.1.has_error()
    }
}

} // verus!
