use vstd::prelude::*;

use crate::journal::{current_record, JournalStore, StoreJournalReader};
use crate::keyed::keyed_inv;
use std::collections::HashMap;
use std::hash::Hash;

verus! {

broadcast use vstd::std_specs::hash::group_hash_axioms;

/// A partitioned reducer: keeps, per key, a fold count and an accumulator,
/// and appends the updated accumulator to a target store for each new record.
pub struct Aggregator<In, Out, K> {
    pub last_index: usize,
    pub states: HashMap<K, (u64, Out)>,
    pub zero: Out,
    pub _phantom: core::marker::PhantomData<In>,
}

/// The (count, accumulator) pair a key starts from or has reached.
pub open spec fn fetch_or_zero<K, Out>(m: Map<K, (u64, Out)>, k: K, zero: Out) -> (u64, Out) {
    if m.contains_key(k) {
        m[k]
    } else {
        (0, zero)
    }
}

/// What one call of `reduce` does: nothing when the reader has not moved past
/// `last_index`; otherwise, for the record `v` the reader stands on, with key
/// `k` and state `(idx, acc)` (or `(0, zero)`), `update_fn(idx, v, acc)` gives
/// `(new, keep)`: a kept key gets `(idx + 1, new)` and `new` is appended to the
/// target; otherwise the key is dropped and nothing is appended.
pub open spec fn aggregate_effect<In, Out, K, KF: Fn(&In) -> K, UF: Fn(u64, &In, &Out) -> (Out, bool)>(
    before: Aggregator<In, Out, K>,
    after: Aggregator<In, Out, K>,
    reader_index: nat,
    source: Seq<In>,
    target_before: Seq<Out>,
    target_after: Seq<Out>,
    key_fn: KF,
    update_fn: UF,
) -> bool {
    &&& after.zero == before.zero
    &&& if reader_index <= before.last_index {
        &&& after.last_index == before.last_index
        &&& after.states@ == before.states@
        &&& target_after == target_before
    } else {
        let v = current_record(source, reader_index)->Some_0;
        &&& after.last_index == reader_index
        &&& exists|k: K, r: (Out, bool)|
            #![trigger call_ensures(key_fn, (&v,), k), call_ensures(update_fn, (fetch_or_zero(before.states@, k, before.zero).0, &v, &fetch_or_zero(before.states@, k, before.zero).1), r)]
            {
                let (idx, acc) = fetch_or_zero(before.states@, k, before.zero);
                &&& call_ensures(key_fn, (&v,), k)
                &&& call_ensures(update_fn, (idx, &v, &acc), r)
                &&& r.1 ==> {
                    &&& after.states@ == before.states@.insert(k, ((idx + 1) as u64, r.0))
                    &&& target_after == target_before.push(r.0)
                }
                &&& !r.1 ==> {
                    &&& after.states@ == before.states@.remove(k)
                    &&& target_after == target_before
                }
            }
    }
}

impl<In: Copy, Out: Copy + Default, K: Hash + Eq> Aggregator<In, Out, K> {
    /// No fold count exceeds the number of records taken in.
    pub open spec fn wf(&self) -> bool {
        forall|k: K| #[trigger] self.states@.contains_key(k) ==> self.states@[k].0 <= self.last_index
    }

    /// An aggregator with no state; accumulators start from `Out::default()`.
    pub fn new() -> (r: Self)
        ensures
            r.wf(),
            r.last_index == 0,
            r.states@ == Map::<K, (u64, Out)>::empty(),
    {
        Aggregator {
            last_index: 0,
            states: HashMap::new(),
            zero: Out::default(),
            _phantom: core::marker::PhantomData,
        }
    }

    /// An empty aggregator meant to read `source` and write `target`.
    pub fn pipe(source: &JournalStore<In>, target: &JournalStore<Out>) -> (r: Self)
        ensures
            r.wf(),
            r.last_index == 0,
            r.states@ == Map::<K, (u64, Out)>::empty(),
    {
        Self::new()
    }

    /// Takes in the record `reader` stands on, if it moved since the last call:
    /// with `(index, acc)` the state of its key (or `(0, zero)`), calls
    /// `update_fn(index, record, acc)`, which gives the new accumulator and
    /// whether to keep the key. A kept key gets `(index + 1, new)` and `new` is
    /// appended to `target`; otherwise the key is dropped.
    pub fn reduce<KF: Fn(&In) -> K, UF: Fn(u64, &In, &Out) -> (Out, bool)>(
        &mut self,
        reader: &StoreJournalReader,
        source: &JournalStore<In>,
        target: &mut JournalStore<Out>,
        key_fn: KF,
        update_fn: UF,
    )
        requires
            old(self).wf(),
            reader.valid_for(source.records()),
            old(target).wf(),
            reader.index() > old(self).last_index
                ==> old(target).records().len() < old(target).capacity(),
            keyed_inv::<In, K, KF>(key_fn),
            forall|i: u64, x: In, acc: Out| call_requires(update_fn, (i, &x, &acc)),
        ensures
            final(self).wf(),
            final(target).wf(),
            final(target).capacity() == old(target).capacity(),
            aggregate_effect(
                *old(self),
                *final(self),
                reader.index(),
                source.records(),
                old(target).records(),
                final(target).records(),
                key_fn,
                update_fn,
            ),
    {
        let current_index = reader.get_index();
        if current_index > self.last_index {
            if let Some(val) = reader.get(source) {
                let key = (key_fn)(&val);
                let (index, state) = match self.states.get(&key) {
                    Some(e) => *e,
                    None => (0u64, self.zero),
                };
                proof {
                    assert((index, state) == fetch_or_zero(old(self).states@, key, self.zero));
                    assert(index < current_index);
                }
                let (next, keep) = update_fn(index, &val, &state);
                if keep {
                    target.append(&next);
                    self.states.insert(key, (index + 1, next));
                } else {
                    self.states.remove(&key);
                }
            }
            self.last_index = current_index;
        }
    }
}

/// An aggregator bound to the reader and store it takes records from.
pub struct AggregatorFrom<'a, In, Out, K> {
    pub aggregator: &'a mut Aggregator<In, Out, K>,
    pub reader: &'a StoreJournalReader,
    pub source: &'a JournalStore<In>,
}

/// An aggregator bound to its source and to the store it writes to.
pub struct AggregatorTo<'a, In, Out, K> {
    pub aggregator: &'a mut Aggregator<In, Out, K>,
    pub reader: &'a StoreJournalReader,
    pub source: &'a JournalStore<In>,
    pub target: &'a mut JournalStore<Out>,
}

/// An aggregator bound to its source, its target and its partition key.
pub struct AggregatorPartition<'a, In, Out, K, KF> {
    pub aggregator: &'a mut Aggregator<In, Out, K>,
    pub reader: &'a StoreJournalReader,
    pub source: &'a JournalStore<In>,
    pub target: &'a mut JournalStore<Out>,
    pub key_fn: KF,
}

impl<In: Copy, Out: Copy + Default, K: Hash + Eq> Aggregator<In, Out, K> {
    /// Binds this aggregator to `reader` over `source`.
    pub fn from<'a>(&'a mut self, reader: &'a StoreJournalReader, source: &'a JournalStore<In>) -> (r:
        AggregatorFrom<'a, In, Out, K>)
        ensures
            *r.aggregator == *old(self),
            *final(self) == *final(r.aggregator),
            r.reader == reader,
            r.source == source,
    {
        AggregatorFrom { aggregator: self, reader, source }
    }
}

impl<'a, In: Copy, Out: Copy + Default, K: Hash + Eq> AggregatorFrom<'a, In, Out, K> {
    /// Binds the aggregator to the store it writes to.
    pub fn to(self, target: &'a mut JournalStore<Out>) -> (r: AggregatorTo<'a, In, Out, K>)
        ensures
            *r.aggregator == *old(self.aggregator),
            *final(r.aggregator) == *final(self.aggregator),
            r.reader == self.reader,
            r.source == self.source,
            *r.target == *old(target),
            *final(target) == *final(r.target),
    {
        AggregatorTo { aggregator: self.aggregator, reader: self.reader, source: self.source, target }
    }
}

impl<'a, In: Copy, Out: Copy + Default, K: Hash + Eq> AggregatorTo<'a, In, Out, K> {
    /// Partitions the records by `key_fn`.
    pub fn partition_by<KF: Fn(&In) -> K>(self, key_fn: KF) -> (r: AggregatorPartition<
        'a,
        In,
        Out,
        K,
        KF,
    >)
        ensures
            *r.aggregator == *old(self.aggregator),
            *final(r.aggregator) == *final(self.aggregator),
            r.reader == self.reader,
            r.source == self.source,
            *r.target == *old(self.target),
            *final(r.target) == *final(self.target),
            r.key_fn == key_fn,
    {
        AggregatorPartition {
            aggregator: self.aggregator,
            reader: self.reader,
            source: self.source,
            target: self.target,
            key_fn,
        }
    }
}

impl<'a, In: Copy, Out: Copy + Default, K: Hash + Eq, KF: Fn(&In) -> K> AggregatorPartition<
    'a,
    In,
    Out,
    K,
    KF,
> {
    /// Runs one step of the aggregation: see `Aggregator::reduce`.
    pub fn reduce<UF: Fn(u64, &In, &Out) -> (Out, bool)>(self, update_fn: UF)
        requires
            old(self.aggregator).wf(),
            self.reader.valid_for(self.source.records()),
            old(self.target).wf(),
            self.reader.index() > old(self.aggregator).last_index ==> old(self.target).records().len()
                < old(self.target).capacity(),
            keyed_inv::<In, K, KF>(self.key_fn),
            forall|i: u64, x: In, acc: Out| call_requires(update_fn, (i, &x, &acc)),
        ensures
            final(self.aggregator).wf(),
            final(self.target).wf(),
            final(self.target).capacity() == old(self.target).capacity(),
            aggregate_effect(
                *old(self.aggregator),
                *final(self.aggregator),
                self.reader.index(),
                self.source.records(),
                old(self.target).records(),
                final(self.target).records(),
                self.key_fn,
                update_fn,
            ),
    {
        self.aggregator.reduce(self.reader, self.source, self.target, self.key_fn, update_fn)
    }
}

} // verus!
