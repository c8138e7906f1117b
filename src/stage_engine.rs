use vstd::prelude::*;

use crate::journal::{JournalStore, JournalStoreOptions, StoreJournalReader};
use crate::stage::{
    added, extends, lemma_runs_concat, lemma_runs_empty, lemma_runs_push, runs, OutputCollector,
    Pipeline, Stage,
};

verus! {

/// The stage that passes every input on unchanged.
pub struct Passthrough<T> {
    pub _phantom: core::marker::PhantomData<T>,
}

impl<T: Copy> Stage<T, T> for Passthrough<T> {
    open spec fn inv(&self) -> bool {
        true
    }

    open spec fn step(&self, data: T, emitted: Seq<T>, next: Self) -> bool {
        next == *self && emitted == seq![data]
    }

    fn process<C: OutputCollector<T>>(&mut self, data: &T, collector: &mut C) {
        collector.push(data);
        proof {
            let before = old(collector).collected();
            assert(collector.collected().subrange(0, before.len() as int) =~= before);
            assert(added(before, collector.collected()) =~= seq![*data]);
        }
    }
}

/// A linear pipeline fed through an input journal: every record sent is run
/// through the chain of stages, and what the last stage emits is received in order.
pub struct StageEngine<In, Out, S> {
    input_store: JournalStore<In>,
    input_reader: StoreJournalReader,
    stage: S,
    outputs: Vec<Out>,
    received: usize,
    default_capacity: usize,
    /// The chain as it stood when the last stage was added.
    start: Ghost<S>,
    /// How many records had run through the chain when the last stage was added.
    in_base: Ghost<nat>,
    /// How many outputs the tail held when the last stage was added.
    out_base: Ghost<nat>,
}

impl<In: Copy, Out: Copy, S: Stage<In, Out>> StageEngine<In, Out, S> {
    /// The records sent so far.
    pub closed spec fn sent(&self) -> Seq<In> {
        self.input_store.records()
    }

    /// The largest number of records the input journal can hold.
    pub closed spec fn input_capacity(&self) -> nat {
        self.input_store.capacity()
    }

    /// The number of records sent that have run through the chain.
    pub closed spec fn processed(&self) -> nat {
        self.input_reader.index()
    }

    /// The records sent that have not yet run through the chain.
    pub open spec fn unprocessed(&self) -> Seq<In> {
        self.sent().subrange(self.processed() as int, self.sent().len() as int)
    }

    /// What the tail has emitted and is not yet received, in order.
    pub closed spec fn pending(&self) -> Seq<Out> {
        self.outputs@.subrange(self.received as int, self.outputs@.len() as int)
    }

    /// The chain of stages, in its current state.
    pub closed spec fn chain(&self) -> S {
        self.stage
    }

    /// The number of records the tail has emitted since the last stage was added.
    pub closed spec fn emitted_count(&self) -> nat {
        self.outputs@.len()
    }

    pub closed spec fn wf(&self) -> bool {
        &&& self.input_store.wf()
        &&& self.input_reader.index() <= self.input_store.records().len()
        &&& self.stage.inv()
        &&& self.received <= self.outputs@.len()
        &&& self.in_base@ <= self.input_reader.index()
        &&& self.out_base@ <= self.outputs@.len()
        &&& runs(
            self.start@,
            self.input_store.records().subrange(
                self.in_base@ as int,
                self.input_reader.index() as int,
            ),
            self.outputs@.subrange(self.out_base@ as int, self.outputs@.len() as int),
            self.stage,
        )
    }

    /// Sends a record into the head of the pipeline; the input journal must have room.
    pub fn send(&mut self, data: &In)
        requires
            old(self).wf(),
            old(self).sent().len() < old(self).input_capacity(),
        ensures
            final(self).wf(),
            final(self).sent() == old(self).sent().push(*data),
            final(self).input_capacity() == old(self).input_capacity(),
            final(self).processed() == old(self).processed(),
            final(self).pending() == old(self).pending(),
            final(self).chain() == old(self).chain(),
    {
        self.input_store.append(data);
        proof {
            let recs = self.input_store.records();
            assert(recs.subrange(self.in_base@ as int, self.input_reader.index() as int)
                =~= old(self).input_store.records().subrange(
                self.in_base@ as int,
                self.input_reader.index() as int,
            ));
        }
    }

    /// Whether the input journal has room for one more record.
    pub fn input_has_room(&self) -> (r: bool)
        requires
            self.wf(),
        ensures
            r == (self.sent().len() < self.input_capacity()),
    {
        self.input_store.has_room()
    }

    /// The worker step: runs every record sent and not yet processed through
    /// the chain, in order, and tells whether there was any.
    pub fn step(&mut self) -> (r: bool)
        requires
            old(self).wf(),
        ensures
            final(self).wf(),
            r == (old(self).unprocessed().len() > 0),
            final(self).sent() == old(self).sent(),
            final(self).input_capacity() == old(self).input_capacity(),
            final(self).processed() == final(self).sent().len(),
            extends(old(self).pending(), final(self).pending()),
            runs(
                old(self).chain(),
                old(self).unprocessed(),
                added(old(self).pending(), final(self).pending()),
                final(self).chain(),
            ),
    {
        let ghost first = self.input_reader.index();
        let ghost outs0 = self.outputs@;
        let ghost chain0 = self.stage;
        let mut batch: Vec<In> = Vec::new();
        let n = self.input_reader.handle_remaining(&self.input_store, &mut batch);
        proof {
            lemma_runs_empty::<In, Out, S>(chain0);
            assert(batch@.subrange(0, 0) =~= Seq::<In>::empty());
            assert(added(outs0, outs0) =~= Seq::<Out>::empty());
            assert(outs0.subrange(0, outs0.len() as int) =~= outs0);
        }
        let ghost pre = *self;
        let mut i: usize = 0;
        while i < batch.len()
            invariant
                self.input_store == pre.input_store,
                self.input_reader == pre.input_reader,
                self.start == pre.start,
                self.in_base == pre.in_base,
                self.out_base == pre.out_base,
                self.received == pre.received,
                pre.input_reader.index() == pre.input_store.records().len(),
                pre.in_base@ <= first <= pre.input_store.records().len(),
                pre.out_base@ <= outs0.len(),
                pre.received <= outs0.len(),
                runs(
                    pre.start@,
                    pre.input_store.records().subrange(pre.in_base@ as int, first as int),
                    outs0.subrange(pre.out_base@ as int, outs0.len() as int),
                    chain0,
                ),
                i <= batch@.len(),
                batch@ == self.input_store.records().subrange(
                    first as int,
                    self.input_store.records().len() as int,
                ),
                self.stage.inv(),
                extends(outs0, self.outputs@),
                runs(chain0, batch@.subrange(0, i as int), added(outs0, self.outputs@), self.stage),
            decreases batch@.len() - i,
        {
            let ghost before = self.outputs@;
            let ghost stage_before = self.stage;
            let item = batch[i];
            self.stage.process(&item, &mut self.outputs);
            proof {
                let e = added(before, self.outputs@);
                lemma_runs_push(
                    chain0,
                    batch@.subrange(0, i as int),
                    added(outs0, before),
                    stage_before,
                    item,
                    e,
                    self.stage,
                );
                assert(batch@.subrange(0, i as int).push(item) =~= batch@.subrange(0, i + 1));
                assert(added(outs0, before) + e =~= added(outs0, self.outputs@));
                assert(self.outputs@.subrange(0, outs0.len() as int) =~= outs0);
            }
            i = i + 1;
        }
        proof {
            assert(batch@.subrange(0, batch@.len() as int) =~= batch@);
            let recs = self.input_store.records();
            let prev_in = recs.subrange(self.in_base@ as int, first as int);
            let prev_out = outs0.subrange(self.out_base@ as int, outs0.len() as int);
            lemma_runs_concat(self.start@, prev_in, prev_out, chain0, batch@, added(outs0, self.outputs@), self.stage);
            assert(prev_in + batch@ =~= recs.subrange(self.in_base@ as int, recs.len() as int));
            assert(prev_out + added(outs0, self.outputs@) =~= self.outputs@.subrange(
                self.out_base@ as int,
                self.outputs@.len() as int,
            ));
            let before = old(self).pending();
            let after = self.pending();
            assert(after.subrange(0, before.len() as int) =~= before);
            assert(added(before, after) =~= added(outs0, self.outputs@));
        }
        n > 0
    }

    /// The oldest output not yet received, if any.
    pub fn try_receive(&mut self) -> (r: Option<Out>)
        requires
            old(self).wf(),
        ensures
            final(self).wf(),
            final(self).processed() == old(self).processed(),
            final(self).sent() == old(self).sent(),
            final(self).input_capacity() == old(self).input_capacity(),
            final(self).chain() == old(self).chain(),
            old(self).pending().len() == 0 ==> r is None
                && final(self).pending() == old(self).pending(),
            old(self).pending().len() > 0 ==> r == Some(old(self).pending()[0])
                && final(self).pending() == old(self).pending().drop_first(),
    {
        if self.received < self.outputs.len() {
            let v = self.outputs[self.received];
            self.received = self.received + 1;
            proof {
                assert(self.pending() =~= old(self).pending().drop_first());
            }
            Some(v)
        } else {
            None
        }
    }

    /// Receives the oldest output not yet received. When none is waiting, it
    /// first runs the worker step itself; `None` means that the records sent
    /// so far yield no further output.
    pub fn receive(&mut self) -> (r: Option<Out>)
        requires
            old(self).wf(),
        ensures
            final(self).wf(),
            final(self).sent() == old(self).sent(),
            final(self).input_capacity() == old(self).input_capacity(),
            old(self).pending().len() > 0 ==> {
                &&& r == Some(old(self).pending()[0])
                &&& final(self).pending() == old(self).pending().drop_first()
                &&& final(self).chain() == old(self).chain()
                &&& final(self).processed() == old(self).processed()
            },
            old(self).pending().len() == 0 ==> {
                &&& final(self).processed() == final(self).sent().len()
                &&& exists|emitted: Seq<Out>|
                    #[trigger] runs(old(self).chain(), old(self).unprocessed(), emitted, final(self).chain())
                        && (emitted.len() == 0 ==> r is None && final(self).pending() == emitted)
                        && (emitted.len() > 0 ==> r == Some(emitted[0]) && final(self).pending()
                            == emitted.drop_first())
            },
    {
        if self.received < self.outputs.len() {
            return self.try_receive();
        }
        let ghost before = *self;
        self.step();
        proof {
            assert(added(before.pending(), self.pending()) =~= self.pending());
        }
        self.try_receive()
    }

    /// The number of records the tail has emitted since the last stage was added.
    pub fn output_size(&self) -> (r: usize)
        requires
            self.wf(),
        ensures
            r == self.emitted_count(),
    {
        self.outputs.len()
    }

    /// Appends a stage to the tail. Outputs not yet received are run through it.
    pub fn add_stage<NextOut: Copy, S2: Stage<Out, NextOut>>(self, stage: S2) -> (r: StageEngine<
        In,
        NextOut,
        Pipeline<S, S2, In, Out, NextOut>,
    >)
        requires
            self.wf(),
            stage.inv(),
        ensures
            r.wf(),
            r.sent() == self.sent(),
            r.input_capacity() == self.input_capacity(),
            r.processed() == self.processed(),
            r.chain().s1 == self.chain(),
            runs(stage, self.pending(), r.pending(), r.chain().s2),
    {
        let capacity = self.default_capacity;
        self.add_stage_with_capacity(capacity, stage)
    }

    /// Appends a stage to the tail, recording `capacity` as the size of its output.
    pub fn add_stage_with_capacity<NextOut: Copy, S2: Stage<Out, NextOut>>(
        self,
        capacity: usize,
        stage: S2,
    ) -> (r: StageEngine<In, NextOut, Pipeline<S, S2, In, Out, NextOut>>)
        requires
            self.wf(),
            stage.inv(),
        ensures
            r.wf(),
            r.sent() == self.sent(),
            r.input_capacity() == self.input_capacity(),
            r.processed() == self.processed(),
            r.chain().s1 == self.chain(),
            runs(stage, self.pending(), r.pending(), r.chain().s2),
    {
        let StageEngine {
            input_store,
            input_reader,
            stage: first,
            outputs,
            received,
            default_capacity,
            start: _,
            in_base: _,
            out_base: _,
        } = self;
        let mut next = stage;
        let mut next_outputs: Vec<NextOut> = Vec::new();
        let ghost pending = outputs@.subrange(received as int, outputs@.len() as int);
        let ghost next_start = next;
        proof {
            lemma_runs_empty::<Out, NextOut, S2>(next_start);
            assert(pending.subrange(0, 0) =~= Seq::<Out>::empty());
        }
        let mut i = received;
        while i < outputs.len()
            invariant
                received <= i <= outputs.len(),
                pending == outputs@.subrange(received as int, outputs@.len() as int),
                next.inv(),
                runs(
                    next_start,
                    pending.subrange(0, i - received),
                    next_outputs@,
                    next,
                ),
            decreases outputs.len() - i,
        {
            let ghost before = next_outputs@;
            let ghost next_before = next;
            next.process(&outputs[i], &mut next_outputs);
            proof {
                let e = added(before, next_outputs@);
                lemma_runs_push(
                    next_start,
                    pending.subrange(0, i - received),
                    before,
                    next_before,
                    outputs@[i as int],
                    e,
                    next,
                );
                assert(pending.subrange(0, i - received).push(outputs@[i as int])
                    =~= pending.subrange(0, i + 1 - received));
                assert(before + e =~= next_outputs@);
            }
            i = i + 1;
        }
        proof {
            assert(pending.subrange(0, outputs@.len() - received) =~= pending);
        }
        let chain = Pipeline::new(first, next);
        let ghost n_in = input_reader.index();
        let ghost n_out = next_outputs@.len();
        let r = StageEngine {
            input_store,
            input_reader,
            stage: chain,
            outputs: next_outputs,
            received: 0,
            default_capacity: if capacity > 0 {
                capacity
            } else {
                default_capacity
            },
            start: Ghost(chain),
            in_base: Ghost(n_in),
            out_base: Ghost(n_out),
        };
        proof {
            lemma_runs_empty::<In, NextOut, Pipeline<S, S2, In, Out, NextOut>>(chain);
            assert(r.input_store.records().subrange(n_in as int, n_in as int) =~= Seq::<In>::empty());
            assert(r.outputs@.subrange(n_out as int, n_out as int) =~= Seq::<NextOut>::empty());
            assert(r.pending() =~= next_outputs@);
        }
        r
    }
}

impl<T: Copy> StageEngine<T, T, Passthrough<T>> {
    /// A pipeline with no stage yet, whose input journal holds 1024 records.
    pub fn new() -> (r: Self)
        ensures
            r.wf(),
            r.sent() == Seq::<T>::empty(),
            r.pending() == Seq::<T>::empty(),
            r.input_capacity() == 1024,
    {
        Self::with_capacity(1024)
    }

    /// A pipeline with no stage yet, whose input journal holds `capacity` records.
    pub fn with_capacity(capacity: usize) -> (r: Self)
        ensures
            r.wf(),
            r.sent() == Seq::<T>::empty(),
            r.pending() == Seq::<T>::empty(),
            r.input_capacity() == capacity,
    {
        let input_store = JournalStore::new(
            JournalStoreOptions { name: "input", size: capacity, in_memory: true },
        );
        let input_reader = input_store.reader();
        let stage = Passthrough { _phantom: core::marker::PhantomData };
        let r = StageEngine {
            input_store,
            input_reader,
            stage,
            outputs: Vec::new(),
            received: 0,
            default_capacity: capacity,
            start: Ghost(stage),
            in_base: Ghost(0),
            out_base: Ghost(0),
        };
        proof {
            lemma_runs_empty::<T, T, Passthrough<T>>(stage);
            assert(r.input_store.records().subrange(0, 0) =~= Seq::<T>::empty());
            assert(r.outputs@.subrange(0, 0) =~= Seq::<T>::empty());
            assert(r.pending() =~= Seq::<T>::empty());
        }
        r
    }
}

} // verus!
