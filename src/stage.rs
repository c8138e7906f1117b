use vstd::prelude::*;

verus! {

/// `after` is `before` with some items added at its end.
pub open spec fn extends<T>(before: Seq<T>, after: Seq<T>) -> bool {
    &&& before.len() <= after.len()
    &&& after.subrange(0, before.len() as int) == before
}

/// What was added at the end of `before` to make `after`.
pub open spec fn added<T>(before: Seq<T>, after: Seq<T>) -> Seq<T> {
    after.subrange(before.len() as int, after.len() as int)
}

/// Where a stage delivers what it emits.
pub trait OutputCollector<T> {
    /// Everything delivered so far, in order.
    spec fn collected(&self) -> Seq<T>;

    /// Delivers one item.
    fn push(&mut self, item: &T)
        ensures
            final(self).collected() == old(self).collected().push(*item),
    ;
}

impl<T: Copy> OutputCollector<T> for Vec<T> {
    open spec fn collected(&self) -> Seq<T> {
        self@
    }

    fn push(&mut self, item: &T) {
        Vec::push(self, *item);
    }
}

/// A processing step that turns each input into zero or more outputs.
///
/// `step(data, emitted, next)` says that one call on `data` may emit exactly
/// `emitted`, in order, and leave the stage as `next`.
pub trait Stage<In, Out>: Sized {
    /// What the stage needs of its own state to accept any input.
    open spec fn inv(&self) -> bool {
        true
    }

    /// One call on `data` may emit `emitted` and leave the stage as `next`.
    /// A stage that does not describe its steps promises nothing of them.
    open spec fn step(&self, data: In, emitted: Seq<Out>, next: Self) -> bool {
        true
    }

    /// Processes one input, delivering its outputs to `collector`.
    fn process<C: OutputCollector<Out>>(&mut self, data: &In, collector: &mut C)
        requires
            old(self).inv(),
        ensures
            final(self).inv(),
            extends(old(collector).collected(), final(collector).collected()),
            old(self).step(
                *data,
                added(old(collector).collected(), final(collector).collected()),
                *final(self),
            ),
    ;
}

/// A fixed-size value that stages pass around by copy.
pub trait Record: Copy {
}

impl Record for u8 {}
impl Record for u16 {}
impl Record for u32 {}
impl Record for u64 {}
impl Record for u128 {}
impl Record for usize {}
impl Record for i8 {}
impl Record for i16 {}
impl Record for i32 {}
impl Record for i64 {}
impl Record for i128 {}
impl Record for isize {}
impl Record for bool {}
impl Record for char {}

/// What a plain function used as a stage may return.
pub trait StageOutput<T>: Sized {
    /// The items this value stands for.
    spec fn items(&self) -> Seq<T>;

    /// Delivers the items to `collector`.
    fn push_to<C: OutputCollector<T>>(self, collector: &mut C)
        ensures
            final(collector).collected() == old(collector).collected() + self.items(),
    ;
}

impl<T: Record> StageOutput<T> for T {
    open spec fn items(&self) -> Seq<T> {
        seq![*self]
    }

    fn push_to<C: OutputCollector<T>>(self, collector: &mut C) {
        collector.push(&self);
        proof {
            assert(seq![self] =~= Seq::<T>::empty().push(self));
        }
    }
}

impl<'a, T: Record> StageOutput<T> for &'a T {
    open spec fn items(&self) -> Seq<T> {
        seq![**self]
    }

    fn push_to<C: OutputCollector<T>>(self, collector: &mut C) {
        collector.push(self);
        proof {
            assert(seq![*self] =~= Seq::<T>::empty().push(*self));
        }
    }
}

impl<T: Record> StageOutput<T> for Option<T> {
    open spec fn items(&self) -> Seq<T> {
        match self {
            Some(v) => seq![*v],
            None => Seq::empty(),
        }
    }

    fn push_to<C: OutputCollector<T>>(self, collector: &mut C) {
        if let Some(r) = self {
            collector.push(&r);
            proof {
                assert(seq![r] =~= Seq::<T>::empty().push(r));
            }
        } else {
            proof {
                assert(old(collector).collected() + Seq::<T>::empty() =~= old(
                    collector,
                ).collected());
            }
        }
    }
}

impl<'a, T: Record> StageOutput<T> for Option<&'a T> {
    open spec fn items(&self) -> Seq<T> {
        match self {
            Some(v) => seq![**v],
            None => Seq::empty(),
        }
    }

    fn push_to<C: OutputCollector<T>>(self, collector: &mut C) {
        if let Some(r) = self {
            collector.push(r);
            proof {
                assert(seq![*r] =~= Seq::<T>::empty().push(*r));
            }
        } else {
            proof {
                assert(old(collector).collected() + Seq::<T>::empty() =~= old(
                    collector,
                ).collected());
            }
        }
    }
}

impl<F, In, Out, R> Stage<In, Out> for F where F: Fn(&In) -> R, R: StageOutput<Out> {
    open spec fn inv(&self) -> bool {
        forall|x: In| call_requires(*self, (&x,))
    }

    open spec fn step(&self, data: In, emitted: Seq<Out>, next: Self) -> bool {
        &&& next == *self
        &&& exists|r: R| call_ensures(*self, (&data,), r) && r.items() == emitted
    }

    fn process<C: OutputCollector<Out>>(&mut self, data: &In, collector: &mut C) {
        let r = (self)(data);
        r.push_to(collector);
        proof {
            let before = old(collector).collected();
            assert(added(before, collector.collected()) =~= r.items());
            assert(collector.collected().subrange(0, before.len() as int) =~= before);
        }
    }
}

/// `states` and `outs` record a run over `inputs`: from `states[i]`, input `i`
/// emits `outs[i]` and leaves the stage as `states[i + 1]`.
pub open spec fn is_trace<In, Out, S: Stage<In, Out>>(
    inputs: Seq<In>,
    states: Seq<S>,
    outs: Seq<Seq<Out>>,
) -> bool {
    &&& states.len() == inputs.len() + 1
    &&& outs.len() == inputs.len()
    &&& forall|i: int|
        0 <= i < inputs.len() ==> #[trigger] states[i].step(inputs[i], outs[i], states[i + 1])
}

/// Running `s` over `inputs`, in order, may emit exactly `emitted` and leave it as `fin`.
pub open spec fn runs<In, Out, S: Stage<In, Out>>(
    s: S,
    inputs: Seq<In>,
    emitted: Seq<Out>,
    fin: S,
) -> bool {
    exists|states: Seq<S>, outs: Seq<Seq<Out>>|
        #[trigger] is_trace(inputs, states, outs) && states[0] == s && states.last() == fin
            && emitted == outs.flatten()
}

/// Running over no input emits nothing and leaves the stage as it was.
pub proof fn lemma_runs_empty<In, Out, S: Stage<In, Out>>(s: S)
    ensures
        runs(s, Seq::<In>::empty(), Seq::<Out>::empty(), s),
{
    let states = seq![s];
    let outs = Seq::<Seq<Out>>::empty();
    assert(is_trace(Seq::<In>::empty(), states, outs));
    assert(outs.flatten() =~= Seq::<Out>::empty());
}

/// Running one more input extends a run by what that input emits.
pub proof fn lemma_runs_push<In, Out, S: Stage<In, Out>>(
    s: S,
    inputs: Seq<In>,
    e0: Seq<Out>,
    mid: S,
    x: In,
    e1: Seq<Out>,
    fin: S,
)
    requires
        runs(s, inputs, e0, mid),
        mid.step(x, e1, fin),
    ensures
        runs(s, inputs.push(x), e0 + e1, fin),
{
    let (states, outs) = choose|states: Seq<S>, outs: Seq<Seq<Out>>|
        #[trigger] is_trace(inputs, states, outs) && states[0] == s && states.last() == mid
            && e0 == outs.flatten();
    let longer = inputs.push(x);
    let states2 = states.push(fin);
    let outs2 = outs.push(e1);
    assert forall|i: int| 0 <= i < longer.len() implies #[trigger] states2[i].step(
        longer[i],
        outs2[i],
        states2[i + 1],
    ) by {
        if i < inputs.len() {
            assert(states[i].step(inputs[i], outs[i], states[i + 1]));
        }
    }
    assert(is_trace(longer, states2, outs2));
    outs.lemma_flatten_push(e1);
}

/// A run over `a` followed by a run over `b` from where it ended is a run over `a + b`.
pub proof fn lemma_runs_concat<In, Out, S: Stage<In, Out>>(
    s: S,
    a: Seq<In>,
    ea: Seq<Out>,
    mid: S,
    b: Seq<In>,
    eb: Seq<Out>,
    fin: S,
)
    requires
        runs(s, a, ea, mid),
        runs(mid, b, eb, fin),
    ensures
        runs(s, a + b, ea + eb, fin),
{
    let (sa, oa) = choose|states: Seq<S>, outs: Seq<Seq<Out>>|
        #[trigger] is_trace(a, states, outs) && states[0] == s && states.last() == mid && ea
            == outs.flatten();
    let (sb, ob) = choose|states: Seq<S>, outs: Seq<Seq<Out>>|
        #[trigger] is_trace(b, states, outs) && states[0] == mid && states.last() == fin && eb
            == outs.flatten();
    let inputs = a + b;
    let states = sa + sb.drop_first();
    let outs = oa + ob;
    assert forall|i: int| 0 <= i < inputs.len() implies #[trigger] states[i].step(
        inputs[i],
        outs[i],
        states[i + 1],
    ) by {
        if i < a.len() {
            assert(sa[i].step(a[i], oa[i], sa[i + 1]));
            if i + 1 == a.len() {
                assert(states[i + 1] == sb[0]);
            }
        } else {
            let j = i - a.len();
            assert(sb[j].step(b[j], ob[j], sb[j + 1]));
            if j == 0 {
                assert(states[i] == sa.last());
            }
        }
    }
    assert(is_trace(inputs, states, outs));
    if b.len() == 0 {
        assert(states.last() == sa.last());
    }
    vstd::seq_lib::lemma_flatten_concat(oa, ob);
}

/// Two stages chained: every output of the first is fed, in order, to the second.
pub struct Pipeline<S1, S2, In, Mid, Out> {
    pub s1: S1,
    pub s2: S2,
    pub _phantom: core::marker::PhantomData<(In, Mid, Out)>,
}

impl<S1, S2, In, Mid, Out> Pipeline<S1, S2, In, Mid, Out> {
    /// Chains `s1` into `s2`.
    pub fn new(s1: S1, s2: S2) -> (r: Self)
        ensures
            r.s1 == s1,
            r.s2 == s2,
    {
        Pipeline { s1, s2, _phantom: core::marker::PhantomData }
    }
}

impl<S1, S2, In, Mid: Copy, Out> Stage<In, Out> for Pipeline<S1, S2, In, Mid, Out> where
    S1: Stage<In, Mid>,
    S2: Stage<Mid, Out>,
 {
    open spec fn inv(&self) -> bool {
        self.s1.inv() && self.s2.inv()
    }

    open spec fn step(&self, data: In, emitted: Seq<Out>, next: Self) -> bool {
        exists|mids: Seq<Mid>|
            #[trigger] self.s1.step(data, mids, next.s1) && runs(
                self.s2,
                mids,
                emitted,
                next.s2,
            )
    }

    fn process<C: OutputCollector<Out>>(&mut self, data: &In, collector: &mut C) {
        let mut mids: Vec<Mid> = Vec::new();
        self.s1.process(data, &mut mids);
        proof {
            assert(added(Seq::<Mid>::empty(), mids@) =~= mids@);
        }
        let ghost s2_start = self.s2;
        let ghost start = collector.collected();
        proof {
            lemma_runs_empty::<Mid, Out, S2>(s2_start);
            assert(added(start, start) =~= Seq::<Out>::empty());
            assert(start.subrange(0, start.len() as int) =~= start);
            assert(mids@.subrange(0, 0) =~= Seq::<Mid>::empty());
        }
        let mut i: usize = 0;
        while i < mids.len()
            invariant
                0 <= i <= mids.len(),
                self.s1.inv(),
                self.s2.inv(),
                old(self).s1.step(*data, mids@, self.s1),
                old(self).s2 == s2_start,
                extends(start, collector.collected()),
                runs(
                    s2_start,
                    mids@.subrange(0, i as int),
                    added(start, collector.collected()),
                    self.s2,
                ),
            decreases mids.len() - i,
        {
            let ghost before = collector.collected();
            let ghost s2_before = self.s2;
            self.s2.process(&mids[i], collector);
            proof {
                let after = collector.collected();
                let e0 = added(start, before);
                let e1 = added(before, after);
                let prefix = mids@.subrange(0, i + 1);
                assert(prefix.len() == i + 1);
                assert(prefix.drop_last() =~= mids@.subrange(0, i as int));
                assert(prefix.last() == mids@[i as int]);
                assert(after.subrange(0, before.len() as int) == before);
                assert(before.subrange(0, start.len() as int) == start);
                assert(after.subrange(0, start.len() as int) =~= start);
                assert(added(start, after) =~= e0 + e1);
                lemma_runs_push(s2_start, mids@.subrange(0, i as int), e0, s2_before, mids@[i as int], e1, self.s2);
                assert(mids@.subrange(0, i as int).push(mids@[i as int]) =~= prefix);
            }
            i = i + 1;
        }
        proof {
            assert(mids@.subrange(0, mids@.len() as int) =~= mids@);
            assert(start == old(collector).collected());
        }
    }
}

/// Chaining for every stage.
pub trait StageExt<In, Mid>: Stage<In, Mid> {
    /// Feeds every output of `self` into `s2`.
    fn pipe<Out, S2: Stage<Mid, Out>>(self, s2: S2) -> (r: Pipeline<Self, S2, In, Mid, Out>)
        ensures
            r.s1 == self,
            r.s2 == s2,
    ;
}

impl<S: Stage<In, Mid>, In, Mid> StageExt<In, Mid> for S {
    fn pipe<Out, S2: Stage<Mid, Out>>(self, s2: S2) -> (r: Pipeline<Self, S2, In, Mid, Out>) {
        Pipeline::new(self, s2)
    }
}

} // verus!
