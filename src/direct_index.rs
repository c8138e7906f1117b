use vstd::prelude::*;

use crate::journal::{JournalStore, StoreJournalReader};
use crossbeam_skiplist::SkipMap;
use std::ops::Bound;

verus! {

#[verifier::external_type_specification]
#[verifier::external_body]
#[verifier::reject_recursive_types(K)]
#[verifier::reject_recursive_types(V)]
pub struct ExSkipMap<K, V>(SkipMap<K, V>);

/// The ordered map behind an index: key to journal position.
pub type PositionMap = SkipMap<i64, u64>;

/// What an index's ordered map holds: each key and the journal position of its record.
pub uninterp spec fn index_entries(m: PositionMap) -> Map<i64, u64>;

/// The empty set of entries.
pub open spec fn no_entries() -> Map<i64, u64> {
    Map::empty()
}

/// One end of a key range.
#[derive(Clone, Copy, PartialEq, Eq, Debug)]
pub enum KeyBound {
    Included(i64),
    Excluded(i64),
    Unbounded,
}

/// `k` lies on the upper side of the lower end `lo`.
pub open spec fn above(k: i64, lo: KeyBound) -> bool {
    match lo {
        KeyBound::Included(x) => k >= x,
        KeyBound::Excluded(x) => k > x,
        KeyBound::Unbounded => true,
    }
}

/// `k` lies on the lower side of the upper end `hi`.
pub open spec fn below(k: i64, hi: KeyBound) -> bool {
    match hi {
        KeyBound::Included(x) => k <= x,
        KeyBound::Excluded(x) => k < x,
        KeyBound::Unbounded => true,
    }
}

/// `r` lists, in increasing key order, exactly the entries of `m` whose keys
/// lie between `lo` and `hi`.
pub open spec fn lists_range(r: Seq<(i64, u64)>, m: Map<i64, u64>, lo: KeyBound, hi: KeyBound) -> bool {
    &&& forall|i: int, j: int| 0 <= i < j < r.len() ==> r[i].0 < r[j].0
    &&& forall|i: int|
        0 <= i < r.len() ==> m.contains_key(#[trigger] r[i].0) && m[r[i].0] == r[i].1 && above(
            r[i].0,
            lo,
        ) && below(r[i].0, hi)
    &&& forall|k: i64|
        #[trigger] m.contains_key(k) && above(k, lo) && below(k, hi) ==> exists|i: int|
            0 <= i < r.len() && #[trigger] r[i].0 == k
}

/// Relies on `SkipMap::new`: a new map is empty.
#[verifier::external_body]
fn map_new() -> (r: PositionMap)
    ensures
        index_entries(r) == no_entries(),
{
    SkipMap::new()
}

/// Relies on `SkipMap::insert`: the key now maps to the value, replacing any earlier entry.
#[verifier::external_body]
fn map_insert(m: &mut PositionMap, k: i64, v: u64)
    ensures
        index_entries(*final(m)) == index_entries(*old(m)).insert(k, v),
{
    m.insert(k, v);
}

/// Relies on `SkipMap::remove`: the key no longer has an entry.
#[verifier::external_body]
fn map_remove(m: &mut PositionMap, k: i64)
    ensures
        index_entries(*final(m)) == index_entries(*old(m)).remove(k),
{
    m.remove(&k);
}

/// Relies on `SkipMap::get`: the value of the key's entry, if there is one.
#[verifier::external_body]
fn map_get(m: &PositionMap, k: i64) -> (r: Option<u64>)
    ensures
        r == (if index_entries(*m).contains_key(k) {
            Some(index_entries(*m)[k])
        } else {
            None
        }),
{
    m.get(&k).map(|e| *e.value())
}

/// Relies on `SkipMap::len`: the number of entries.
#[verifier::external_body]
fn map_len(m: &PositionMap) -> (r: usize)
    ensures
        r == index_entries(*m).len(),
{
    m.len()
}

/// Relies on `SkipMap::lower_bound`: the entry with the lowest key above `lo`.
#[verifier::external_body]
fn map_lower_bound(m: &PositionMap, lo: KeyBound) -> (r: Option<(i64, u64)>)
    ensures
        r matches Some(e) ==> {
            &&& index_entries(*m).contains_key(e.0)
            &&& index_entries(*m)[e.0] == e.1
            &&& above(e.0, lo)
            &&& forall|k: i64| #[trigger] index_entries(*m).contains_key(k) && above(k, lo) ==> e.0 <= k
        },
        r is None ==> forall|k: i64| #[trigger] index_entries(*m).contains_key(k) ==> !above(k, lo),
{
    let b = match &lo {
        KeyBound::Included(x) => Bound::Included(x),
        KeyBound::Excluded(x) => Bound::Excluded(x),
        KeyBound::Unbounded => Bound::Unbounded,
    };
    m.lower_bound(b).map(|e| (*e.key(), *e.value()))
}

/// Relies on `SkipMap::upper_bound`: the entry with the highest key below `hi`.
#[verifier::external_body]
fn map_upper_bound(m: &PositionMap, hi: KeyBound) -> (r: Option<(i64, u64)>)
    ensures
        r matches Some(e) ==> {
            &&& index_entries(*m).contains_key(e.0)
            &&& index_entries(*m)[e.0] == e.1
            &&& below(e.0, hi)
            &&& forall|k: i64| #[trigger] index_entries(*m).contains_key(k) && below(k, hi) ==> k <= e.0
        },
        r is None ==> forall|k: i64| #[trigger] index_entries(*m).contains_key(k) ==> !below(k, hi),
{
    let b = match &hi {
        KeyBound::Included(x) => Bound::Included(x),
        KeyBound::Excluded(x) => Bound::Excluded(x),
        KeyBound::Unbounded => Bound::Unbounded,
    };
    m.upper_bound(b).map(|e| (*e.key(), *e.value()))
}

/// Relies on `SkipMap::range`: the entries between two ends, in increasing key order.
#[verifier::external_body]
fn map_range(m: &PositionMap, lo: KeyBound, hi: KeyBound) -> (r: Vec<(i64, u64)>)
    ensures
        lists_range(r@, index_entries(*m), lo, hi),
{
    let from = match &lo {
        KeyBound::Included(x) => Bound::Included(x),
        KeyBound::Excluded(x) => Bound::Excluded(x),
        KeyBound::Unbounded => Bound::Unbounded,
    };
    let to = match &hi {
        KeyBound::Included(x) => Bound::Included(x),
        KeyBound::Excluded(x) => Bound::Excluded(x),
        KeyBound::Unbounded => Bound::Unbounded,
    };
    m.range((from, to)).map(|e| (*e.key(), *e.value())).collect()
}

/// An ordered map from keys to the latest record of each key, fed by a reader
/// over a journal store. Entries hold journal positions; lookups take the store.
pub struct DirectIndex {
    map: PositionMap,
    reader: StoreJournalReader,
}

impl DirectIndex {
    /// Each key and the journal position of its latest record.
    pub closed spec fn entries(&self) -> Map<i64, u64> {
        index_entries(self.map)
    }

    /// The number of records this index has taken in.
    pub closed spec fn seen(&self) -> nat {
        self.reader.index()
    }

    /// Every entry points at a record this index has taken in.
    pub closed spec fn wf(&self) -> bool {
        forall|k: i64| #[trigger]
            index_entries(self.map).contains_key(k) ==> index_entries(self.map)[k]
                < self.reader.index()
    }

    /// An empty index that will take in `store`'s records from the first one.
    pub fn new<T: Copy>(store: &JournalStore<T>) -> (r: Self)
        ensures
            r.wf(),
            r.entries() == Map::<i64, u64>::empty(),
            r.seen() == 0,
    {
        DirectIndex { map: map_new(), reader: store.reader() }
    }

    /// Takes in the next record of `store`, if there is one, under the key
    /// `key_fn` gives it; a later record replaces an earlier one of the same key.
    pub fn compute<T: Copy, F: Fn(&T) -> i64>(&mut self, store: &JournalStore<T>, key_fn: F)
        requires
            old(self).wf(),
            old(self).seen() <= store.records().len(),
            forall|x: T| call_requires(key_fn, (&x,)),
        ensures
            final(self).wf(),
            final(self).seen() <= store.records().len(),
            old(self).seen() == store.records().len() ==> {
                &&& final(self).seen() == old(self).seen()
                &&& final(self).entries() == old(self).entries()
            },
            old(self).seen() < store.records().len() ==> {
                &&& final(self).seen() == old(self).seen() + 1
                &&& exists|k: i64|
                    call_ensures(key_fn, (&store.records()[old(self).seen() as int],), k)
                        && #[trigger] final(self).entries() == old(self).entries().insert(
                        k,
                        old(self).seen() as u64,
                    )
            },
    {
        if self.reader.next(store) {
            let pos = self.reader.get_index() - 1;
            let state = store.read(pos).unwrap();
            let key = key_fn(&state);
            map_insert(&mut self.map, key, pos as u64);
            assert forall|k: i64| #[trigger]
                index_entries(self.map).contains_key(k) implies index_entries(self.map)[k]
                    < self.reader.index() by {
                if k != key {
                    assert(index_entries(old(self).map).contains_key(k));
                }
            }
        }
    }

    /// Removes the entry of `key`.
    pub fn delete(&mut self, key: &i64)
        requires
            old(self).wf(),
        ensures
            final(self).wf(),
            final(self).seen() == old(self).seen(),
            final(self).entries() == old(self).entries().remove(*key),
    {
        map_remove(&mut self.map, *key);
    }

    /// The number of entries.
    pub fn size(&self) -> (r: usize)
        ensures
            r == self.entries().len(),
    {
        map_len(&self.map)
    }

    /// The latest record of `key`.
    pub fn get<T: Copy>(&self, store: &JournalStore<T>, key: &i64) -> (r: Option<T>)
        requires
            self.wf(),
            self.seen() <= store.records().len(),
        ensures
            r == (if self.entries().contains_key(*key) {
                Some(store.records()[self.entries()[*key] as int])
            } else {
                None
            }),
    {
        match map_get(&self.map, *key) {
            Some(pos) => {
                proof {
                    self.reader.lemma_index_fits();
                }
                store.read(pos as usize)
            },
            None => None,
        }
    }

    /// Calls `handler` on the latest record of `key`, if it has one.
    pub fn with<T: Copy, R, F: Fn(&T) -> R>(&self, store: &JournalStore<T>, key: &i64, handler: F) -> (r:
        Option<R>)
        requires
            self.wf(),
            self.seen() <= store.records().len(),
            forall|x: T| call_requires(handler, (&x,)),
        ensures
            !self.entries().contains_key(*key) ==> r is None,
            self.entries().contains_key(*key) ==> (r matches Some(o) && call_ensures(
                handler,
                (&store.records()[self.entries()[*key] as int],),
                o,
            )),
    {
        match self.get(store, key) {
            Some(v) => Some(handler(&v)),
            None => None,
        }
    }

    /// The entries whose keys lie between `lo` and `hi`, in increasing key
    /// order, each with its latest record.
    pub fn range<T: Copy>(&self, store: &JournalStore<T>, lo: KeyBound, hi: KeyBound) -> (r: Vec<
        (i64, T),
    >)
        requires
            self.wf(),
            self.seen() <= store.records().len(),
        ensures
            exists|found: Seq<(i64, u64)>|
                #[trigger] lists_range(found, self.entries(), lo, hi) && r@.len() == found.len()
                    && forall|i: int|
                    0 <= i < found.len() ==> #[trigger] r@[i] == (
                        found[i].0,
                        store.records()[found[i].1 as int],
                    ),
    {
        let found = map_range(&self.map, lo, hi);
        let mut out: Vec<(i64, T)> = Vec::new();
        let mut i: usize = 0;
        while i < found.len()
            invariant
                self.wf(),
                self.seen() <= store.records().len(),
                lists_range(found@, self.entries(), lo, hi),
                i <= found@.len(),
                out@.len() == i,
                forall|j: int|
                    0 <= j < i ==> #[trigger] out@[j] == (
                        found@[j].0,
                        store.records()[found@[j].1 as int],
                    ),
            decreases found@.len() - i,
        {
            let (k, pos) = found[i];
            proof {
                self.reader.lemma_index_fits();
                assert(index_entries(self.map).contains_key(found@[i as int].0));
            }
            let state = store.read(pos as usize).unwrap();
            out.push((k, state));
            i = i + 1;
        }
        out
    }

    /// All entries in increasing key order.
    pub fn iter<T: Copy>(&self, store: &JournalStore<T>) -> (r: Vec<(i64, T)>)
        requires
            self.wf(),
            self.seen() <= store.records().len(),
        ensures
            exists|found: Seq<(i64, u64)>|
                #[trigger] lists_range(found, self.entries(), KeyBound::Unbounded, KeyBound::Unbounded)
                    && r@.len() == found.len() && forall|i: int|
                    0 <= i < found.len() ==> #[trigger] r@[i] == (
                        found[i].0,
                        store.records()[found[i].1 as int],
                    ),
    {
        self.range(store, KeyBound::Unbounded, KeyBound::Unbounded)
    }

    /// The entries with keys at or above `key`, in increasing key order.
    pub fn find_ge<T: Copy>(&self, store: &JournalStore<T>, key: &i64) -> (r: Vec<(i64, T)>)
        requires
            self.wf(),
            self.seen() <= store.records().len(),
        ensures
            exists|found: Seq<(i64, u64)>|
                #[trigger] lists_range(found, self.entries(), KeyBound::Included(*key), KeyBound::Unbounded)
                    && r@.len() == found.len() && forall|i: int|
                    0 <= i < found.len() ==> #[trigger] r@[i] == (
                        found[i].0,
                        store.records()[found[i].1 as int],
                    ),
    {
        self.range(store, KeyBound::Included(*key), KeyBound::Unbounded)
    }

    /// The entries with keys at or below `key`, in increasing key order.
    pub fn find_le<T: Copy>(&self, store: &JournalStore<T>, key: &i64) -> (r: Vec<(i64, T)>)
        requires
            self.wf(),
            self.seen() <= store.records().len(),
        ensures
            exists|found: Seq<(i64, u64)>|
                #[trigger] lists_range(found, self.entries(), KeyBound::Unbounded, KeyBound::Included(*key))
                    && r@.len() == found.len() && forall|i: int|
                    0 <= i < found.len() ==> #[trigger] r@[i] == (
                        found[i].0,
                        store.records()[found[i].1 as int],
                    ),
    {
        self.range(store, KeyBound::Unbounded, KeyBound::Included(*key))
    }

    /// The entry with the lowest key at or above `key`.
    pub fn first_after<T: Copy>(&self, store: &JournalStore<T>, key: &i64) -> (r: Option<(i64, T)>)
        requires
            self.wf(),
            self.seen() <= store.records().len(),
        ensures
            r matches Some(e) ==> {
                &&& self.entries().contains_key(e.0)
                &&& e.0 >= *key
                &&& e.1 == store.records()[self.entries()[e.0] as int]
                &&& forall|k: i64| self.entries().contains_key(k) && k >= *key ==> e.0 <= k
            },
            r is None ==> forall|k: i64| self.entries().contains_key(k) ==> k < *key,
    {
        proof {
            self.reader.lemma_index_fits();
        }
        match map_lower_bound(&self.map, KeyBound::Included(*key)) {
            Some((k, pos)) => {
                proof {
                    assert(index_entries(self.map).contains_key(k));
                }
                match store.read(pos as usize) {
                    Some(state) => Some((k, state)),
                    None => None,
                }
            },
            None => None,
        }
    }

    /// The entry with the highest key below `key`.
    pub fn last_before<T: Copy>(&self, store: &JournalStore<T>, key: &i64) -> (r: Option<(i64, T)>)
        requires
            self.wf(),
            self.seen() <= store.records().len(),
        ensures
            r matches Some(e) ==> {
                &&& self.entries().contains_key(e.0)
                &&& e.0 < *key
                &&& e.1 == store.records()[self.entries()[e.0] as int]
                &&& forall|k: i64| self.entries().contains_key(k) && k < *key ==> k <= e.0
            },
            r is None ==> forall|k: i64| self.entries().contains_key(k) ==> k >= *key,
    {
        proof {
            self.reader.lemma_index_fits();
        }
        match map_upper_bound(&self.map, KeyBound::Excluded(*key)) {
            Some((k, pos)) => {
                proof {
                    assert(index_entries(self.map).contains_key(k));
                }
                match store.read(pos as usize) {
                    Some(state) => Some((k, state)),
                    None => None,
                }
            },
            None => None,
        }
    }
}

impl<T: Copy> JournalStore<T> {
    /// A new index over this store, starting from its first record.
    pub fn direct_index(&self) -> (r: DirectIndex)
        ensures
            r.wf(),
            r.entries() == Map::<i64, u64>::empty(),
            r.seen() == 0,
    {
        DirectIndex::new(self)
    }
}

} // verus!
