use vstd::prelude::*;

use crate::pipe::{tracks, WithPrev};
use crate::stage::{added, OutputCollector, Stage};
use std::collections::HashMap;
use std::hash::Hash;
use vstd::laws_eq::obeys_concrete_eq;
use vstd::std_specs::hash::obeys_key_model;

verus! {

broadcast use vstd::std_specs::hash::group_hash_axioms;

/// A keyed message: an id and a signed value.
#[derive(Clone, Copy, Debug, Default, PartialEq, Eq)]
pub struct Message {
    pub id: u64,
    pub value: i64,
}

impl crate::stage::Record for Message {}

/// What a stage that keys its state by `key_fn` needs in order to accept any input.
pub open spec fn keyed_inv<T, K, F: Fn(&T) -> K>(key_fn: F) -> bool {
    &&& forall|x: T| call_requires(key_fn, (&x,))
    &&& obeys_key_model::<K>()
}

/// The value remembered for key `k`, if any.
pub open spec fn remembered<K, V>(m: Map<K, V>, k: K) -> Option<V> {
    if m.contains_key(k) {
        Some(m[k])
    } else {
        None
    }
}

/// Passes an input on only when it differs from the last input passed on for its key.
pub struct DedupBy<K, T, F> {
    pub key_fn: F,
    pub last_values: HashMap<K, T>,
}

impl<K: Hash + Eq, T: PartialEq + Copy, F: Fn(&T) -> K> DedupBy<K, T, F> {
    pub fn new(key_fn: F) -> (r: Self)
        ensures
            r.key_fn == key_fn,
            r.last_values@ == Map::<K, T>::empty(),
    {
        DedupBy { key_fn, last_values: HashMap::new() }
    }
}

impl<K: Hash + Eq, T: PartialEq + Copy, F: Fn(&T) -> K> Stage<T, T> for DedupBy<K, T, F> {
    open spec fn inv(&self) -> bool {
        keyed_inv::<T, K, F>(self.key_fn) && obeys_concrete_eq::<T>()
    }

    open spec fn step(&self, data: T, emitted: Seq<T>, next: Self) -> bool {
        &&& next.key_fn == self.key_fn
        &&& exists|k: K|
            #[trigger] call_ensures(self.key_fn, (&data,), k) && if remembered(
                self.last_values@,
                k,
            ) == Some(data) {
                emitted == Seq::<T>::empty() && next.last_values@ == self.last_values@
            } else {
                emitted == seq![data] && next.last_values@ == self.last_values@.insert(k, data)
            }
    }

    fn process<C: OutputCollector<T>>(&mut self, curr: &T, collector: &mut C) {
        let key = (self.key_fn)(curr);
        let same = match self.last_values.get(&key) {
            Some(p) => *p == *curr,
            None => false,
        };
        proof {
            reveal(obeys_concrete_eq);
            let before = old(collector).collected();
            assert(before.subrange(0, before.len() as int) =~= before);
            assert(added(before, before) =~= Seq::<T>::empty());
        }
        if same {
            return ;
        }
        self.last_values.insert(key, *curr);
        collector.push(curr);
        proof {
            let before = old(collector).collected();
            assert(collector.collected().subrange(0, before.len() as int) =~= before);
            assert(added(before, collector.collected()) =~= seq![*curr]);
        }
    }
}

/// A stage that drops an input equal to the last one passed on for its key.
pub fn dedup_by<K: Hash + Eq, T: PartialEq + Copy, F: Fn(&T) -> K>(key_fn: F) -> (r: DedupBy<
    K,
    T,
    F,
>)
    ensures
        r.key_fn == key_fn,
        r.last_values@ == Map::<K, T>::empty(),
{
    DedupBy::new(key_fn)
}

/// Derives an event from each input and the last input seen for its key.
pub struct Delta<K, T, Out, F, L> {
    pub key_fn: F,
    pub logic: L,
    pub last_values: HashMap<K, T>,
    pub _phantom: core::marker::PhantomData<Out>,
}

impl<K: Hash + Eq, T: Copy, Out, F: Fn(&T) -> K, L: Fn(&T, Option<T>) -> Option<Out>> Delta<
    K,
    T,
    Out,
    F,
    L,
> {
    pub fn new(key_fn: F, logic: L) -> (r: Self)
        ensures
            r.key_fn == key_fn,
            r.logic == logic,
            r.last_values@ == Map::<K, T>::empty(),
    {
        Delta { key_fn, logic, last_values: HashMap::new(), _phantom: core::marker::PhantomData }
    }
}

impl<
    K: Hash + Eq,
    T: Copy,
    Out: Copy,
    F: Fn(&T) -> K,
    L: Fn(&T, Option<T>) -> Option<Out>,
> Stage<T, Out> for Delta<K, T, Out, F, L> {
    open spec fn inv(&self) -> bool {
        &&& keyed_inv::<T, K, F>(self.key_fn)
        &&& forall|x: T, p: Option<T>| call_requires(self.logic, (&x, p))
    }

    open spec fn step(&self, data: T, emitted: Seq<Out>, next: Self) -> bool {
        &&& next.key_fn == self.key_fn
        &&& next.logic == self.logic
        &&& exists|k: K, o: Option<Out>|
            #![trigger call_ensures(self.key_fn, (&data,), k), call_ensures(self.logic, (&data, remembered(self.last_values@, k)), o)]
            call_ensures(self.key_fn, (&data,), k) && call_ensures(
                self.logic,
                (&data, remembered(self.last_values@, k)),
                o,
            ) && next.last_values@ == self.last_values@.insert(k, data) && emitted == match o {
                Some(v) => seq![v],
                None => Seq::<Out>::empty(),
            }
    }

    fn process<C: OutputCollector<Out>>(&mut self, curr: &T, collector: &mut C) {
        let key = (self.key_fn)(curr);
        let prev = match self.last_values.get(&key) {
            Some(p) => Some(*p),
            None => None,
        };
        proof {
            assert(prev == remembered(self.last_values@, key));
        }
        self.last_values.insert(key, *curr);
        let out = (self.logic)(curr, prev);
        match out {
            Some(v) => {
                collector.push(&v);
                proof {
                    let before = old(collector).collected();
                    assert(collector.collected().subrange(0, before.len() as int) =~= before);
                    assert(added(before, collector.collected()) =~= seq![v]);
                }
            },
            None => {
                proof {
                    let before = old(collector).collected();
                    assert(before.subrange(0, before.len() as int) =~= before);
                    assert(added(before, before) =~= Seq::<Out>::empty());
                }
            },
        }
    }
}

/// A stage that emits `logic(input, last input of the same key)` when it is `Some`.
pub fn delta<
    K: Hash + Eq,
    T: Copy,
    Out,
    F: Fn(&T) -> K,
    L: Fn(&T, Option<T>) -> Option<Out>,
>(key_fn: F, logic: L) -> (r: Delta<K, T, Out, F, L>)
    ensures
        r.key_fn == key_fn,
        r.logic == logic,
        r.last_values@ == Map::<K, T>::empty(),
{
    Delta::new(key_fn, logic)
}

/// Keeps a state per key: the first input of a key sets it, later ones fold into it.
/// Each input emits the updated state of its key.
pub struct Stateful<K, In, Out, KF, IF, FF> {
    pub key_fn: KF,
    pub init_fn: IF,
    pub fold_fn: FF,
    pub storage: HashMap<K, Out>,
    pub _phantom: core::marker::PhantomData<In>,
}

impl<
    K: Hash + Eq,
    In,
    Out: Copy,
    KF: Fn(&In) -> K,
    IF: Fn(&In) -> Out,
    FF: Fn(&Out, &In) -> Out,
> Stateful<K, In, Out, KF, IF, FF> {
    pub fn new(key_fn: KF, init_fn: IF, fold_fn: FF) -> (r: Self)
        ensures
            r.key_fn == key_fn,
            r.init_fn == init_fn,
            r.fold_fn == fold_fn,
            r.storage@ == Map::<K, Out>::empty(),
    {
        Stateful {
            key_fn,
            init_fn,
            fold_fn,
            storage: HashMap::new(),
            _phantom: core::marker::PhantomData,
        }
    }
}

impl<
    K: Hash + Eq,
    In,
    Out: Copy,
    KF: Fn(&In) -> K,
    IF: Fn(&In) -> Out,
    FF: Fn(&Out, &In) -> Out,
> Stage<In, Out> for Stateful<K, In, Out, KF, IF, FF> {
    open spec fn inv(&self) -> bool {
        &&& keyed_inv::<In, K, KF>(self.key_fn)
        &&& forall|x: In| call_requires(self.init_fn, (&x,))
        &&& forall|s: Out, x: In| call_requires(self.fold_fn, (&s, &x))
    }

    open spec fn step(&self, data: In, emitted: Seq<Out>, next: Self) -> bool {
        &&& next.key_fn == self.key_fn
        &&& next.init_fn == self.init_fn
        &&& next.fold_fn == self.fold_fn
        &&& exists|k: K, s: Out|
            #![trigger call_ensures(self.key_fn, (&data,), k), self.storage@.insert(k, s)]
            call_ensures(self.key_fn, (&data,), k) && next.storage@ == self.storage@.insert(k, s)
                && emitted == seq![s] && if self.storage@.contains_key(k) {
                call_ensures(self.fold_fn, (&self.storage@[k], &data), s)
            } else {
                call_ensures(self.init_fn, (&data,), s)
            }
    }

    fn process<C: OutputCollector<Out>>(&mut self, item: &In, collector: &mut C) {
        let key = (self.key_fn)(item);
        let state = match self.storage.get(&key) {
            Some(s) => (self.fold_fn)(s, item),
            None => (self.init_fn)(item),
        };
        self.storage.insert(key, state);
        collector.push(&state);
        proof {
            let before = old(collector).collected();
            assert(collector.collected().subrange(0, before.len() as int) =~= before);
            assert(added(before, collector.collected()) =~= seq![state]);
            assert(self.storage@ == old(self).storage@.insert(key, state));
        }
    }
}

/// A stage keeping one state per key, set by `init_fn` and folded by `fold_fn`.
pub fn stateful<
    K: Hash + Eq,
    In,
    Out: Copy,
    KF: Fn(&In) -> K,
    IF: Fn(&In) -> Out,
    FF: Fn(&Out, &In) -> Out,
>(key_fn: KF, init_fn: IF, fold_fn: FF) -> (r: Stateful<K, In, Out, KF, IF, FF>)
    ensures
        r.key_fn == key_fn,
        r.init_fn == init_fn,
        r.fold_fn == fold_fn,
        r.storage@ == Map::<K, Out>::empty(),
{
    Stateful::new(key_fn, init_fn, fold_fn)
}

/// Emits each input together with the last input of the same key.
pub struct TrackPrevByHashmap<K, T, F> {
    pub key_fn: F,
    pub storage: HashMap<K, T>,
}

impl<K: Hash + Eq, T: Copy + Default, F: Fn(&T) -> K> TrackPrevByHashmap<K, T, F> {
    pub fn new(key_fn: F) -> (r: Self)
        ensures
            r.key_fn == key_fn,
            r.storage@ == Map::<K, T>::empty(),
    {
        TrackPrevByHashmap { key_fn, storage: HashMap::new() }
    }
}

impl<K: Hash + Eq, T: Copy + Default, F: Fn(&T) -> K> Stage<T, WithPrev<T>> for TrackPrevByHashmap<
    K,
    T,
    F,
> {
    open spec fn inv(&self) -> bool {
        keyed_inv::<T, K, F>(self.key_fn)
    }

    open spec fn step(&self, data: T, emitted: Seq<WithPrev<T>>, next: Self) -> bool {
        &&& next.key_fn == self.key_fn
        &&& exists|k: K|
            #[trigger] call_ensures(self.key_fn, (&data,), k) && next.storage@
                == self.storage@.insert(k, data) && emitted.len() == 1 && tracks(
                emitted[0],
                remembered(self.storage@, k),
                data,
            )
    }

    fn process<C: OutputCollector<WithPrev<T>>>(&mut self, item: &T, collector: &mut C) {
        let key = (self.key_fn)(item);
        let t = match self.storage.get(&key) {
            Some(p) => WithPrev { prev: *p, curr: *item, has_prev: 1 },
            None => WithPrev { prev: T::default(), curr: *item, has_prev: 0 },
        };
        proof {
            assert(tracks(t, remembered(self.storage@, key), *item));
        }
        self.storage.insert(key, *item);
        collector.push(&t);
        proof {
            let before = old(collector).collected();
            assert(collector.collected().subrange(0, before.len() as int) =~= before);
            assert(added(before, collector.collected()) =~= seq![t]);
        }
    }
}

/// A stage that pairs each input with the last input of the same key.
pub fn track_prev_by_hashmap<K: Hash + Eq, T: Copy + Default, F: Fn(&T) -> K>(key_fn: F) -> (r:
    TrackPrevByHashmap<K, T, F>)
    ensures
        r.key_fn == key_fn,
        r.storage@ == Map::<K, T>::empty(),
{
    TrackPrevByHashmap::new(key_fn)
}

} // verus!
