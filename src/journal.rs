use vstd::prelude::*;

verus! {

/// Configuration of a journal store.
pub struct JournalStoreOptions {
    /// The name of the store, used for the backing file name.
    pub name: &'static str,
    /// The largest number of records the store can hold.
    pub size: usize,
    /// Whether the store lives in memory only.
    pub in_memory: bool,
}

/// An append-only log of fixed-size records with a single writer.
///
/// Published records never change; the write cursor only moves forward.
pub struct JournalStore<T> {
    records: Vec<T>,
    capacity: usize,
}

impl<T: Copy> JournalStore<T> {
    /// The records published so far, in append order.
    pub closed spec fn records(&self) -> Seq<T> {
        self.records@
    }

    /// The largest number of records the store can hold.
    pub closed spec fn capacity(&self) -> nat {
        self.capacity as nat
    }

    pub closed spec fn wf(&self) -> bool {
        self.records@.len() <= self.capacity
    }

    /// Creates an empty store with room for `options.size` records.
    pub fn new(options: JournalStoreOptions) -> (r: Self)
        ensures
            r.wf(),
            r.records() == Seq::<T>::empty(),
            r.capacity() == options.size,
    {
        JournalStore { records: Vec::with_capacity(options.size), capacity: options.size }
    }

    /// Appends one record; the store must not be full.
    pub fn append(&mut self, state: &T)
        requires
            old(self).wf(),
            old(self).records().len() < old(self).capacity(),
        ensures
            final(self).wf(),
            final(self).records() == old(self).records().push(*state),
            final(self).capacity() == old(self).capacity(),
    {
        self.records.push(*state);
    }

    /// The number of records published so far.
    pub fn size(&self) -> (r: usize)
        ensures
            r == self.records().len(),
    {
        self.records.len()
    }

    /// The largest number of records the store can hold.
    pub fn capacity_records(&self) -> (r: usize)
        ensures
            r == self.capacity(),
    {
        self.capacity
    }

    /// Whether one more record fits.
    pub fn has_room(&self) -> (r: bool)
        requires
            self.wf(),
        ensures
            r == (self.records().len() < self.capacity()),
    {
        self.records.len() < self.capacity
    }

    /// A new reader positioned before the first record.
    pub fn reader(&self) -> (r: StoreJournalReader)
        ensures
            r.index() == 0,
            r.op_count() == 0,
    {
        StoreJournalReader { next_index: 0, op_count: 0 }
    }

    /// The record at position `at`, if it has been published.
    pub fn read(&self, at: usize) -> (r: Option<T>)
        ensures
            r == record_at(self.records(), at as int),
    {
        if at < self.records.len() {
            Some(self.records[at])
        } else {
            None
        }
    }
}

/// The record at position `at` of `records`, if there is one.
pub open spec fn record_at<T>(records: Seq<T>, at: int) -> Option<T> {
    if 0 <= at < records.len() {
        Some(records[at])
    } else {
        None
    }
}

/// A cursor over a journal store.
///
/// It counts the records it has advanced over; the store itself is passed to
/// each call, so many readers can follow one store independently.
pub struct StoreJournalReader {
    next_index: usize,
    op_count: u64,
}

impl StoreJournalReader {
    /// The number of records this reader has advanced over.
    pub closed spec fn index(&self) -> nat {
        self.next_index as nat
    }

    /// The progress this reader has reported.
    pub closed spec fn op_count(&self) -> nat {
        self.op_count as nat
    }

    /// The position fits in a machine word.
    pub proof fn lemma_index_fits(&self)
        ensures
            self.index() <= usize::MAX,
    {
    }

    /// A reader is valid for a store when it has not passed the store's end.
    pub open spec fn valid_for<T>(&self, records: Seq<T>) -> bool {
        self.index() <= records.len()
    }

    /// Advances over the next record when one has been published.
    pub fn next<T: Copy>(&mut self, store: &JournalStore<T>) -> (r: bool)
        requires
            old(self).valid_for(store.records()),
        ensures
            r == (old(self).index() < store.records().len()),
            r ==> final(self).index() == old(self).index() + 1,
            !r ==> final(self).index() == old(self).index(),
            final(self).op_count() == if r {
                min_nat(old(self).op_count() + 1, u64::MAX as nat)
            } else {
                old(self).op_count()
            },
            final(self).valid_for(store.records()),
    {
        if self.next_index < store.records.len() {
            self.next_index = self.next_index + 1;
            self.op_count = self.op_count.saturating_add(1);
            true
        } else {
            false
        }
    }

    /// The number of records this reader has advanced over.
    pub fn get_index(&self) -> (r: usize)
        ensures
            r == self.index(),
    {
        self.next_index
    }

    /// The progress this reader has reported.
    pub fn ops(&self) -> (r: u64)
        ensures
            r == self.op_count(),
    {
        self.op_count
    }

    /// The record at the last position advanced over; `None` before the first advance.
    pub fn get<T: Copy>(&self, store: &JournalStore<T>) -> (r: Option<T>)
        requires
            self.valid_for(store.records()),
        ensures
            r == current_record(store.records(), self.index()),
    {
        if self.next_index == 0 {
            None
        } else {
            Some(store.records[self.next_index - 1])
        }
    }

    /// The record at position `at`, if it has been published.
    pub fn get_at<T: Copy>(&self, store: &JournalStore<T>, at: usize) -> (r: Option<T>)
        ensures
            r == record_at(store.records(), at as int),
    {
        store.read(at)
    }

    /// The most recently published record.
    pub fn get_last<T: Copy>(&self, store: &JournalStore<T>) -> (r: Option<T>)
        ensures
            r == record_at(store.records(), store.records().len() - 1),
    {
        let n = store.records.len();
        if n == 0 {
            None
        } else {
            Some(store.records[n - 1])
        }
    }

    /// `N` consecutive records starting at position `at`, if all of them are published.
    pub fn get_window<T: Copy, const N: usize>(&self, store: &JournalStore<T>, at: usize) -> (r:
        Option<Vec<T>>)
        ensures
            r is Some <==> at + N <= store.records().len(),
            r matches Some(w) ==> w@ == store.records().subrange(at as int, at + N),
    {
        let n = store.records.len();
        if at > n || N > n - at {
            return None;
        }
        let mut out: Vec<T> = Vec::new();
        let mut i: usize = 0;
        while i < N
            invariant
                at + N <= n,
                n == store.records().len(),
                i <= N,
                out@ == store.records().subrange(at as int, at + i),
            decreases N - i,
        {
            out.push(store.records[at + i]);
            i = i + 1;
        }
        Some(out)
    }

    /// Calls `handler` on the record the reader stands on, if any.
    pub fn with<T: Copy, R, F: Fn(&T) -> R>(&self, store: &JournalStore<T>, handler: F) -> (r:
        Option<R>)
        requires
            self.valid_for(store.records()),
            forall|x: T| call_requires(handler, (&x,)),
        ensures
            current_record(store.records(), self.index()) is None ==> r is None,
            current_record(store.records(), self.index()) matches Some(v) ==> (r matches Some(o)
                && call_ensures(handler, (&v,), o)),
    {
        match self.get(store) {
            Some(v) => Some(handler(&v)),
            None => None,
        }
    }

    /// Calls `handler` on the record at position `at`, if it has been published.
    pub fn with_at<T: Copy, R, F: Fn(&T) -> R>(
        &self,
        store: &JournalStore<T>,
        at: usize,
        handler: F,
    ) -> (r: Option<R>)
        requires
            forall|x: T| call_requires(handler, (&x,)),
        ensures
            record_at(store.records(), at as int) is None ==> r is None,
            record_at(store.records(), at as int) matches Some(v) ==> (r matches Some(o)
                && call_ensures(handler, (&v,), o)),
    {
        match store.read(at) {
            Some(v) => Some(handler(&v)),
            None => None,
        }
    }

    /// Calls `handler` on the most recently published record, if any.
    pub fn with_last<T: Copy, R, F: Fn(&T) -> R>(&self, store: &JournalStore<T>, handler: F) -> (r:
        Option<R>)
        requires
            forall|x: T| call_requires(handler, (&x,)),
        ensures
            store.records().len() == 0 ==> r is None,
            store.records().len() > 0 ==> (r matches Some(o) && call_ensures(
                handler,
                (&store.records().last(),),
                o,
            )),
    {
        match self.get_last(store) {
            Some(v) => Some(handler(&v)),
            None => None,
        }
    }

    /// The number of records published in `store`.
    pub fn size<T: Copy>(&self, store: &JournalStore<T>) -> (r: usize)
        ensures
            r == store.records().len(),
    {
        store.size()
    }

    /// Takes every record published since the last advance, in order, and
    /// moves past all of them at once. Returns how many there were.
    pub fn handle_remaining<T: Copy>(&mut self, store: &JournalStore<T>, out: &mut Vec<T>) -> (r:
        usize)
        requires
            old(self).valid_for(store.records()),
        ensures
            r == store.records().len() - old(self).index(),
            final(self).index() == store.records().len(),
            final(out)@ == old(out)@ + store.records().subrange(
                old(self).index() as int,
                store.records().len() as int,
            ),
            final(self).op_count() == min_nat((old(self).op_count() + r) as nat, u64::MAX as nat),
    {
        let n = store.records.len();
        let start = self.next_index;
        let mut i = start;
        while i < n
            invariant
                start <= i <= n,
                n == store.records().len(),
                out@ == old(out)@ + store.records().subrange(start as int, i as int),
            decreases n - i,
        {
            out.push(store.records[i]);
            i = i + 1;
        }
        let processed = n - start;
        self.next_index = n;
        self.op_count = self.op_count.saturating_add(processed as u64);
        processed
    }
}

/// The smaller of two naturals.
pub open spec fn min_nat(a: nat, b: nat) -> nat {
    if a <= b {
        a
    } else {
        b
    }
}

/// The record a reader at `index` currently stands on.
pub open spec fn current_record<T>(records: Seq<T>, index: nat) -> Option<T> {
    if index == 0 {
        None
    } else {
        record_at(records, index - 1)
    }
}

} // verus!
