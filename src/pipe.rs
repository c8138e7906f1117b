use vstd::prelude::*;

use crate::stage::{OutputCollector, Record, Stage};

verus! {

/// Turns each input into exactly one output.
pub struct MapStage<In, Out, F> {
    pub f: F,
    pub _phantom: core::marker::PhantomData<(In, Out)>,
}

impl<In, Out, F: Fn(&In) -> Out> MapStage<In, Out, F> {
    pub fn new(f: F) -> (r: Self)
        ensures
            r.f == f,
    {
        MapStage { f, _phantom: core::marker::PhantomData }
    }
}

impl<In, Out: Copy, F: Fn(&In) -> Out> Stage<In, Out> for MapStage<In, Out, F> {
    open spec fn inv(&self) -> bool {
        forall|x: In| call_requires(self.f, (&x,))
    }

    open spec fn step(&self, data: In, emitted: Seq<Out>, next: Self) -> bool {
        &&& next == *self
        &&& emitted.len() == 1
        &&& call_ensures(self.f, (&data,), emitted[0])
    }

    fn process<C: OutputCollector<Out>>(&mut self, data: &In, collector: &mut C) {
        let out = (self.f)(data);
        collector.push(&out);
        proof {
            let before = old(collector).collected();
            assert(collector.collected().subrange(0, before.len() as int) =~= before);
            assert(crate::stage::added(before, collector.collected()) =~= seq![out]);
        }
    }
}

/// A stage that turns each input into `f(input)`.
pub fn map<In, Out, F: Fn(&In) -> Out>(f: F) -> (r: MapStage<In, Out, F>)
    ensures
        r.f == f,
{
    MapStage::new(f)
}

/// Passes on the inputs for which the predicate holds.
pub struct Filter<T, F> {
    pub predicate: F,
    pub _phantom: core::marker::PhantomData<T>,
}

impl<T, F: Fn(&T) -> bool> Filter<T, F> {
    pub fn new(predicate: F) -> (r: Self)
        ensures
            r.predicate == predicate,
    {
        Filter { predicate, _phantom: core::marker::PhantomData }
    }
}

impl<T: Copy, F: Fn(&T) -> bool> Stage<T, T> for Filter<T, F> {
    open spec fn inv(&self) -> bool {
        forall|x: T| call_requires(self.predicate, (&x,))
    }

    open spec fn step(&self, data: T, emitted: Seq<T>, next: Self) -> bool {
        &&& next == *self
        &&& {
            ||| call_ensures(self.predicate, (&data,), true) && emitted == seq![data]
            ||| call_ensures(self.predicate, (&data,), false) && emitted == Seq::<T>::empty()
        }
    }

    fn process<C: OutputCollector<T>>(&mut self, data: &T, collector: &mut C) {
        let pass = (self.predicate)(data);
        if pass {
            collector.push(data);
        }
        proof {
            let before = old(collector).collected();
            assert(collector.collected().subrange(0, before.len() as int) =~= before);
            if pass {
                assert(crate::stage::added(before, collector.collected()) =~= seq![*data]);
            } else {
                assert(crate::stage::added(before, collector.collected()) =~= Seq::<T>::empty());
            }
        }
    }
}

/// A stage that passes on the inputs for which `predicate` holds.
pub fn filter<T, F: Fn(&T) -> bool>(predicate: F) -> (r: Filter<T, F>)
    ensures
        r.predicate == predicate,
{
    Filter::new(predicate)
}

/// Calls a function on each input for its side effect and passes the input on.
pub struct Inspect<T, F> {
    pub f: F,
    pub _phantom: core::marker::PhantomData<T>,
}

impl<T, F: Fn(&T)> Inspect<T, F> {
    pub fn new(f: F) -> (r: Self)
        ensures
            r.f == f,
    {
        Inspect { f, _phantom: core::marker::PhantomData }
    }
}

impl<T: Copy, F: Fn(&T)> Stage<T, T> for Inspect<T, F> {
    open spec fn inv(&self) -> bool {
        forall|x: T| call_requires(self.f, (&x,))
    }

    open spec fn step(&self, data: T, emitted: Seq<T>, next: Self) -> bool {
        &&& next == *self
        &&& call_ensures(self.f, (&data,), ())
        &&& emitted == seq![data]
    }

    fn process<C: OutputCollector<T>>(&mut self, data: &T, collector: &mut C) {
        (self.f)(data);
        collector.push(data);
        proof {
            let before = old(collector).collected();
            assert(collector.collected().subrange(0, before.len() as int) =~= before);
            assert(crate::stage::added(before, collector.collected()) =~= seq![*data]);
        }
    }
}

/// A stage that calls `f` on each input and passes the input on.
pub fn inspect<T, F: Fn(&T)>(f: F) -> (r: Inspect<T, F>)
    ensures
        r.f == f,
{
    Inspect::new(f)
}

/// Aligns a timestamp to the start of the fixed-size window that holds it.
pub fn windowed(timestamp: u64, window_size: u64) -> (r: u64)
    ensures
        window_size == 0 ==> r == timestamp,
        window_size > 0 ==> r == (timestamp / window_size) * window_size,
{
    if window_size == 0 {
        return timestamp;
    }
    let q = timestamp / window_size;
    proof {
        assert(q * window_size <= timestamp) by (nonlinear_arith)
            requires
                q == timestamp / window_size,
                window_size > 0,
        ;
    }
    q * window_size
}

/// Counts what passes through and tells when a progress report is due.
pub struct Progress<T> {
    pub name: String,
    pub interval: usize,
    pub count: usize,
    pub _phantom: core::marker::PhantomData<T>,
}

impl<T> Progress<T> {
    /// Creates a counter that reports every `interval` items.
    pub fn new(name: String, interval: usize) -> (r: Self)
        requires
            interval > 0,
        ensures
            r.name == name,
            r.interval == interval,
            r.count == 0,
    {
        Progress { name, interval, count: 0, _phantom: core::marker::PhantomData }
    }

    /// Whether the item just counted completes a reporting interval.
    pub fn report_due(&self) -> (r: bool)
        requires
            self.interval > 0,
        ensures
            r == (self.count > 0 && self.count % self.interval == 0),
    {
        self.count > 0 && self.count % self.interval == 0
    }
}

impl<T: Copy> Stage<T, T> for Progress<T> {
    open spec fn inv(&self) -> bool {
        self.interval > 0
    }

    open spec fn step(&self, data: T, emitted: Seq<T>, next: Self) -> bool {
        &&& next.name == self.name
        &&& next.interval == self.interval
        &&& next.count == if self.count == usize::MAX {
            0
        } else {
            (self.count + 1) as usize
        }
        &&& emitted == seq![data]
    }

    fn process<C: OutputCollector<T>>(&mut self, data: &T, collector: &mut C) {
        self.count = self.count.wrapping_add(1);
        collector.push(data);
        proof {
            let before = old(collector).collected();
            assert(collector.collected().subrange(0, before.len() as int) =~= before);
            assert(crate::stage::added(before, collector.collected()) =~= seq![*data]);
        }
    }
}

/// A stage that passes everything on and counts it for progress reports.
pub fn progress<T>(name: String, interval: usize) -> (r: Progress<T>)
    requires
        interval > 0,
    ensures
        r.name == name,
        r.interval == interval,
        r.count == 0,
{
    Progress::new(name, interval)
}

/// A value together with the one before it, if any.
#[derive(Clone, Copy)]
pub struct WithPrev<T> {
    pub prev: T,
    pub curr: T,
    pub has_prev: u8,
}

impl<T: Record> Record for WithPrev<T> {}

impl<T: Copy> WithPrev<T> {
    /// The previous value, when there was one.
    pub fn prev(&self) -> (r: Option<T>)
        ensures
            r == (if self.has_prev != 0 {
                Some(self.prev)
            } else {
                None
            }),
    {
        if self.has_prev != 0 {
            Some(self.prev)
        } else {
            None
        }
    }
}

/// The pair emitted for `curr` when the value before it was `prev`.
pub open spec fn tracks<T>(t: WithPrev<T>, prev: Option<T>, curr: T) -> bool {
    &&& t.curr == curr
    &&& (t.has_prev != 0) == (prev is Some)
    &&& prev matches Some(p) ==> t.prev == p
}

/// Emits each input together with the input before it.
pub struct TrackPrev<T> {
    pub last_value: Option<T>,
}

impl<T: Copy + Default> Stage<T, WithPrev<T>> for TrackPrev<T> {
    open spec fn inv(&self) -> bool {
        true
    }

    open spec fn step(&self, data: T, emitted: Seq<WithPrev<T>>, next: Self) -> bool {
        &&& next.last_value == Some(data)
        &&& emitted.len() == 1
        &&& tracks(emitted[0], self.last_value, data)
    }

    fn process<C: OutputCollector<WithPrev<T>>>(&mut self, curr: &T, collector: &mut C) {
        let prev = self.last_value;
        self.last_value = Some(*curr);
        let t = match prev {
            Some(p) => WithPrev { prev: p, curr: *curr, has_prev: 1 },
            None => WithPrev { prev: T::default(), curr: *curr, has_prev: 0 },
        };
        collector.push(&t);
        proof {
            let before = old(collector).collected();
            assert(collector.collected().subrange(0, before.len() as int) =~= before);
            assert(crate::stage::added(before, collector.collected()) =~= seq![t]);
        }
    }
}

/// A stage that pairs each input with the input before it.
pub fn track_prev<T: Copy + Default>() -> (r: TrackPrev<T>)
    ensures
        r.last_value is None,
{
    TrackPrev { last_value: None }
}

} // verus!
