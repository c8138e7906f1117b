use vstd::prelude::*;

use crate::journal::{current_record, record_at};
use crate::keyed::{remembered, DedupBy, Stateful};
use crate::pipe::MapStage;
use crate::stage::{is_trace, runs, Pipeline, Stage};
use std::hash::Hash;

verus! {

/// Every call of `s` on `x` emits exactly `h(x)` and leaves `s` as it was.
pub open spec fn pure_one_to_one<In, Out, S: Stage<In, Out>>(s: S, h: spec_fn(In) -> Out) -> bool {
    forall|x: In, e: Seq<Out>, n: S| #[trigger] s.step(x, e, n) ==> n == s && e == seq![h(x)]
}

/// A function value that gives one result for each argument.
pub open spec fn deterministic<A, R, F: Fn(&A) -> R>(f: F) -> bool {
    forall|x: A, r1: R, r2: R|
        call_ensures(f, (&x,), r1) && call_ensures(f, (&x,), r2) ==> r1 == r2
}

/// A run of a pure one-to-one stage emits the image of its inputs, in order.
pub proof fn lemma_runs_pure<In, Out, S: Stage<In, Out>>(
    s: S,
    h: spec_fn(In) -> Out,
    inputs: Seq<In>,
    emitted: Seq<Out>,
    fin: S,
)
    requires
        pure_one_to_one(s, h),
        runs(s, inputs, emitted, fin),
    ensures
        emitted == inputs.map_values(h),
        fin == s,
    decreases inputs.len(),
{
    let (states, outs) = choose|states: Seq<S>, outs: Seq<Seq<Out>>|
        #[trigger] is_trace(inputs, states, outs) && states[0] == s && states.last() == fin
            && emitted == outs.flatten();
    if inputs.len() == 0 {
        assert(emitted =~= inputs.map_values(h));
    } else {
        let n = inputs.len() - 1;
        let front = inputs.drop_last();
        let states0 = states.drop_last();
        let outs0 = outs.drop_last();
        assert forall|i: int| 0 <= i < front.len() implies #[trigger] states0[i].step(
            front[i],
            outs0[i],
            states0[i + 1],
        ) by {
            assert(states[i].step(inputs[i], outs[i], states[i + 1]));
        }
        assert(is_trace(front, states0, outs0));
        assert(runs(s, front, outs0.flatten(), states0.last()));
        lemma_runs_pure(s, h, front, outs0.flatten(), states0.last());
        assert(states[n].step(inputs[n], outs[n], states[n + 1]));
        assert(outs0.push(outs[n]) =~= outs);
        outs0.lemma_flatten_push(outs[n]);
        assert(emitted =~= inputs.map_values(h));
    }
}

/// A map stage whose function computes `h` is pure and one-to-one for `h`.
pub proof fn lemma_map_is_pure<In, Out: Copy, F: Fn(&In) -> Out>(m: MapStage<In, Out, F>, h: spec_fn(In) -> Out)
    requires
        forall|x: In, y: Out| call_ensures(m.f, (&x,), y) ==> y == h(x),
    ensures
        pure_one_to_one(m, h),
{
    assert forall|x: In, e: Seq<Out>, n: MapStage<In, Out, F>| #[trigger] m.step(x, e, n) implies n == m
        && e == seq![h(x)] by {
        assert(e =~= seq![h(x)]);
    }
}

/// Chaining two pure one-to-one stages gives a pure one-to-one stage of the
/// composed function: the tail sees, in order, the image of the head's inputs.
pub proof fn law_pipeline_preserves_order<In, Mid: Copy, Out, S1, S2>(
    p: Pipeline<S1, S2, In, Mid, Out>,
    h1: spec_fn(In) -> Mid,
    h2: spec_fn(Mid) -> Out,
    inputs: Seq<In>,
    emitted: Seq<Out>,
    fin: Pipeline<S1, S2, In, Mid, Out>,
) where S1: Stage<In, Mid>, S2: Stage<Mid, Out>
    requires
        pure_one_to_one(p.s1, h1),
        pure_one_to_one(p.s2, h2),
        runs(p, inputs, emitted, fin),
    ensures
        emitted == inputs.map_values(|x: In| h2(h1(x))),
        fin == p,
{
    let h = |x: In| h2(h1(x));
    assert forall|x: In, e: Seq<Out>, n: Pipeline<S1, S2, In, Mid, Out>|
        #[trigger] p.step(x, e, n) implies n == p && e == seq![h(x)] by {
        let mids = choose|mids: Seq<Mid>|
            #[trigger] p.s1.step(x, mids, n.s1) && runs(p.s2, mids, e, n.s2);
        assert(mids == seq![h1(x)] && n.s1 == p.s1);
        lemma_runs_pure(p.s2, h2, mids, e, n.s2);
        assert(e =~= seq![h(x)]);
        assert(n._phantom == p._phantom);
    }
    lemma_runs_pure(p, h, inputs, emitted, fin);
}

/// Feeding a dedup stage the same input twice in a row: the second call emits
/// nothing and leaves the remembered values as they were.
pub proof fn law_dedup_repeat_is_silent<K: Hash + Eq, T: PartialEq + Copy, F: Fn(&T) -> K>(
    s0: DedupBy<K, T, F>,
    x: T,
    e1: Seq<T>,
    s1: DedupBy<K, T, F>,
    e2: Seq<T>,
    s2: DedupBy<K, T, F>,
)
    requires
        deterministic::<T, K, F>(s0.key_fn),
        s0.step(x, e1, s1),
        s1.step(x, e2, s2),
    ensures
        e2 == Seq::<T>::empty(),
        s2.last_values@ == s1.last_values@,
{
    let k1 = choose|k: K|
        #[trigger] call_ensures(s0.key_fn, (&x,), k) && if remembered(s0.last_values@, k) == Some(
            x,
        ) {
            e1 == Seq::<T>::empty() && s1.last_values@ == s0.last_values@
        } else {
            e1 == seq![x] && s1.last_values@ == s0.last_values@.insert(k, x)
        };
    let k2 = choose|k: K|
        #[trigger] call_ensures(s1.key_fn, (&x,), k) && if remembered(s1.last_values@, k) == Some(
            x,
        ) {
            e2 == Seq::<T>::empty() && s2.last_values@ == s1.last_values@
        } else {
            e2 == seq![x] && s2.last_values@ == s1.last_values@.insert(k, x)
        };
    assert(k1 == k2);
    assert(remembered(s1.last_values@, k1) == Some(x));
}

/// The key, init and fold functions of a stateful stage give one result per argument.
pub open spec fn stateful_deterministic<
    K: Hash + Eq,
    In,
    Out: Copy,
    KF: Fn(&In) -> K,
    IF: Fn(&In) -> Out,
    FF: Fn(&Out, &In) -> Out,
>(s: Stateful<K, In, Out, KF, IF, FF>) -> bool {
    &&& deterministic::<In, K, KF>(s.key_fn)
    &&& deterministic::<In, Out, IF>(s.init_fn)
    &&& forall|st: Out, x: In, r1: Out, r2: Out|
        call_ensures(s.fold_fn, (&st, &x), r1) && call_ensures(s.fold_fn, (&st, &x), r2) ==> r1
            == r2
}

/// One step of a stateful stage on an input of key `k` stores and emits
/// `expected`: the fold of the key's state, or the init of the input.
proof fn lemma_stateful_step<
    K: Hash + Eq,
    In,
    Out: Copy,
    KF: Fn(&In) -> K,
    IF: Fn(&In) -> Out,
    FF: Fn(&Out, &In) -> Out,
>(
    s: Stateful<K, In, Out, KF, IF, FF>,
    x: In,
    e: Seq<Out>,
    next: Stateful<K, In, Out, KF, IF, FF>,
    k: K,
    expected: Out,
)
    requires
        stateful_deterministic(s),
        s.step(x, e, next),
        call_ensures(s.key_fn, (&x,), k),
        s.storage@.contains_key(k) ==> call_ensures(s.fold_fn, (&s.storage@[k], &x), expected),
        !s.storage@.contains_key(k) ==> call_ensures(s.init_fn, (&x,), expected),
    ensures
        e == seq![expected],
        next.storage@ == s.storage@.insert(k, expected),
        stateful_deterministic(next),
{
    let (kk, st) = choose|kk: K, st: Out|
        #![trigger call_ensures(s.key_fn, (&x,), kk), s.storage@.insert(kk, st)]
        call_ensures(s.key_fn, (&x,), kk) && next.storage@ == s.storage@.insert(kk, st) && e
            == seq![st] && if s.storage@.contains_key(kk) {
            call_ensures(s.fold_fn, (&s.storage@[kk], &x), st)
        } else {
            call_ensures(s.init_fn, (&x,), st)
        };
    assert(kk == k);
}

/// Within one key, a stateful stage's state after `a`, `b`, `c` is
/// `fold(fold(init(a), b), c)`, and it emits each intermediate state in turn.
pub proof fn law_stateful_folds_in_order<
    K: Hash + Eq,
    In,
    Out: Copy,
    KF: Fn(&In) -> K,
    IF: Fn(&In) -> Out,
    FF: Fn(&Out, &In) -> Out,
>(
    s: Stateful<K, In, Out, KF, IF, FF>,
    k: K,
    a: In,
    b: In,
    c: In,
    emitted: Seq<Out>,
    fin: Stateful<K, In, Out, KF, IF, FF>,
    sa: Out,
    sb: Out,
    sc: Out,
)
    requires
        !s.storage@.contains_key(k),
        stateful_deterministic(s),
        call_ensures(s.key_fn, (&a,), k),
        call_ensures(s.key_fn, (&b,), k),
        call_ensures(s.key_fn, (&c,), k),
        call_ensures(s.init_fn, (&a,), sa),
        call_ensures(s.fold_fn, (&sa, &b), sb),
        call_ensures(s.fold_fn, (&sb, &c), sc),
        runs(s, seq![a, b, c], emitted, fin),
    ensures
        fin.storage@.contains_key(k),
        fin.storage@[k] == sc,
        emitted == seq![sa, sb, sc],
{
    let inputs = seq![a, b, c];
    let (states, outs) = choose|states: Seq<Stateful<K, In, Out, KF, IF, FF>>, outs: Seq<Seq<Out>>|
        #[trigger] is_trace(inputs, states, outs) && states[0] == s && states.last() == fin
            && emitted == outs.flatten();
    let (i0, i1, i2): (int, int, int) = (0, 1, 2);
    assert(states[i0].step(inputs[i0], outs[i0], states[i0 + 1]));
    assert(states[i1].step(inputs[i1], outs[i1], states[i1 + 1]));
    assert(states[i2].step(inputs[i2], outs[i2], states[i2 + 1]));
    lemma_stateful_step(states[0], a, outs[0], states[1], k, sa);
    lemma_stateful_step(states[1], b, outs[1], states[2], k, sb);
    lemma_stateful_step(states[2], c, outs[2], states[3], k, sc);
    let none = Seq::<Seq<Out>>::empty();
    assert(outs =~= none.push(seq![sa]).push(seq![sb]).push(seq![sc]));
    none.lemma_flatten_push(seq![sa]);
    none.push(seq![sa]).lemma_flatten_push(seq![sb]);
    none.push(seq![sa]).push(seq![sb]).lemma_flatten_push(seq![sc]);
    assert(emitted =~= seq![sa, sb, sc]);
}

/// A reader advancing from position `i` stands on the `i`-th record appended,
/// and appends made later do not change that: successive advances yield the
/// records in the order they were appended.
pub proof fn law_reader_yields_append_order<T>(appended: Seq<T>, later: Seq<T>, i: nat)
    requires
        i < appended.len(),
    ensures
        current_record(appended, i + 1) == Some(appended[i as int]),
        current_record(appended + later, i + 1) == Some(appended[i as int]),
{
}

/// A record appended is read back, unchanged, at the position it was appended to.
pub proof fn law_append_then_read<T>(records: Seq<T>, v: T)
    ensures
        record_at(records.push(v), records.len() as int) == Some(v),
{
}

/// The entries of an index that has taken in `records` in order, keyed by `h`:
/// each record's key maps to its position, later records replacing earlier ones.
pub open spec fn index_after<T>(records: Seq<T>, h: spec_fn(T) -> i64) -> Map<i64, u64>
    decreases records.len(),
{
    if records.len() == 0 {
        Map::empty()
    } else {
        index_after(records.drop_last(), h).insert(h(records.last()), (records.len() - 1) as u64)
    }
}

/// Taking in one more record with a key function that computes `h` extends
/// the entries from `index_after` of the first `n` records to that of `n + 1`.
pub proof fn law_compute_extends_index<T, F: Fn(&T) -> i64>(
    records: Seq<T>,
    h: spec_fn(T) -> i64,
    key_fn: F,
    n: nat,
    before: Map<i64, u64>,
    after: Map<i64, u64>,
)
    requires
        forall|x: T, y: i64| call_ensures(key_fn, (&x,), y) ==> y == h(x),
        n < records.len(),
        before == index_after(records.subrange(0, n as int), h),
        exists|k: i64|
            call_ensures(key_fn, (&records[n as int],), k) && after == before.insert(k, n as u64),
    ensures
        after == index_after(records.subrange(0, n as int + 1), h),
{
    let next = records.subrange(0, n as int + 1);
    assert(next.drop_last() =~= records.subrange(0, n as int));
    assert(next.last() == records[n as int]);
}

/// After an index has taken in every record, a key has an entry exactly when
/// some record has that key, and the entry is the position of the last such record.
pub proof fn law_index_last_writer_wins<T>(records: Seq<T>, h: spec_fn(T) -> i64, k: i64)
    requires
        records.len() <= u64::MAX,
    ensures
        index_after(records, h).contains_key(k) <==> exists|i: int|
            0 <= i < records.len() && h(#[trigger] records[i]) == k,
        index_after(records, h).contains_key(k) ==> {
            let p = index_after(records, h)[k] as int;
            &&& 0 <= p < records.len()
            &&& h(records[p]) == k
            &&& forall|j: int| p < j < records.len() ==> h(#[trigger] records[j]) != k
        },
    decreases records.len(),
{
    if records.len() > 0 {
        let front = records.drop_last();
        let n = records.len() - 1;
        law_index_last_writer_wins(front, h, k);
        if h(records[n]) == k {
            assert(records[n] == records.last());
        } else {
            if exists|i: int| 0 <= i < records.len() && h(#[trigger] records[i]) == k {
                let i = choose|i: int| 0 <= i < records.len() && h(#[trigger] records[i]) == k;
                assert(front[i] == records[i]);
            }
            if index_after(records, h).contains_key(k) {
                let p = index_after(records, h)[k] as int;
                assert(front[p] == records[p]);
                assert forall|j: int| p < j < records.len() implies h(#[trigger] records[j]) != k by {
                    if j < n {
                        assert(front[j] == records[j]);
                    }
                }
            }
        }
    }
}

/// One step of a slot's (version, payload) under the write protocol: a write
/// moves the version from even to odd, may change the payload only while the
/// version is odd, and moves it back to even; or nothing changes.
pub open spec fn slot_protocol_step<T>(a: (nat, T), b: (nat, T)) -> bool {
    ||| a.0 % 2 == 0 && b.0 == a.0 + 1 && b.1 == a.1
    ||| a.0 % 2 == 1 && b.0 == a.0
    ||| a.0 % 2 == 1 && b.0 == a.0 + 1 && b.1 == a.1
    ||| b == a
}

/// Along a history that follows the write protocol, versions never go back.
proof fn lemma_slot_versions_grow<T>(history: Seq<(nat, T)>, t1: int, t: int)
    requires
        forall|i: int|
            0 <= i < history.len() - 1 ==> #[trigger] slot_protocol_step(history[i], history[i + 1]),
        0 <= t1 <= t < history.len(),
    ensures
        history[t1].0 <= history[t].0,
    decreases t - t1,
{
    if t > t1 {
        let i = t - 1;
        lemma_slot_versions_grow(history, t1, i);
        assert(slot_protocol_step(history[i], history[i + 1]));
    }
}

/// A read that sees the same even version before and after copying the
/// payload, at any moment in between, copies the payload that was there when
/// it started: no read mixes two writes.
pub proof fn law_slot_snapshot_is_whole<T>(history: Seq<(nat, T)>, t1: int, t2: int, t3: int)
    requires
        forall|i: int|
            0 <= i < history.len() - 1 ==> #[trigger] slot_protocol_step(history[i], history[i + 1]),
        0 <= t1 <= t2 <= t3 < history.len(),
        history[t1].0 % 2 == 0,
        history[t1].0 == history[t3].0,
    ensures
        history[t2].1 == history[t1].1,
    decreases t2 - t1,
{
    if t2 > t1 {
        law_slot_snapshot_is_whole(history, t1, t2 - 1, t3);
        lemma_slot_versions_grow(history, t1, t2 - 1);
        lemma_slot_versions_grow(history, t2 - 1, t2);
        lemma_slot_versions_grow(history, t2, t3);
        let i = t2 - 1;
        assert(slot_protocol_step(history[i], history[i + 1]));
    }
}

} // verus!
