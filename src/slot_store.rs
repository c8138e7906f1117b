use vstd::prelude::*;

verus! {

/// Configuration of a slot store.
pub struct SlotStoreOptions {
    /// The name of the store, used for the backing file name.
    pub name: &'static str,
    /// The number of slots.
    pub size: usize,
    /// Whether the store lives in memory only.
    pub in_memory: bool,
}

/// A fixed number of versioned slots. A write moves a slot's version to odd,
/// replaces the payload whole, then moves the version back to even; a read
/// accepts a payload only between two equal, even versions.
pub struct SlotStore<T> {
    versions: Vec<u64>,
    payloads: Vec<T>,
    zero: T,
}

/// The version after one write: two steps forward, wrapping at 2^64.
pub open spec fn bumped(v: u64) -> u64 {
    ((v as int + 2) % 0x1_0000_0000_0000_0000) as u64
}

/// A read that saw `v1` before copying the payload and `v2` after it holds a
/// whole payload exactly when both are equal and even.
pub fn snapshot_consistent(v1: u64, v2: u64) -> (r: bool)
    ensures
        r == (v1 % 2 == 0 && v1 == v2),
{
    v1 % 2 == 0 && v1 == v2
}

impl<T: Copy + Default> SlotStore<T> {
    /// The payload of each slot.
    pub closed spec fn payloads(&self) -> Seq<T> {
        self.payloads@
    }

    /// The version of each slot.
    pub closed spec fn versions(&self) -> Seq<u64> {
        self.versions@
    }

    /// The payload a slot holds before its first write.
    pub closed spec fn zero(&self) -> T {
        self.zero
    }

    pub closed spec fn wf(&self) -> bool {
        &&& self.versions@.len() == self.payloads@.len()
        &&& forall|i: int| 0 <= i < self.versions@.len() ==> #[trigger] self.versions@[i] % 2 == 0
    }

    /// `options.size` slots, each at version 0 with a zero payload.
    pub fn new(options: SlotStoreOptions) -> (r: Self)
        ensures
            r.wf(),
            r.payloads().len() == options.size,
            forall|i: int| 0 <= i < options.size ==> #[trigger] r.payloads()[i] == r.zero(),
            forall|i: int| 0 <= i < options.size ==> #[trigger] r.versions()[i] == 0,
    {
        let zero = T::default();
        let mut versions: Vec<u64> = Vec::new();
        let mut payloads: Vec<T> = Vec::new();
        let mut i: usize = 0;
        while i < options.size
            invariant
                i <= options.size,
                versions@.len() == i,
                payloads@.len() == i,
                forall|j: int| 0 <= j < i ==> #[trigger] payloads@[j] == zero,
                forall|j: int| 0 <= j < i ==> #[trigger] versions@[j] == 0,
            decreases options.size - i,
        {
            versions.push(0);
            payloads.push(zero);
            i = i + 1;
        }
        SlotStore { versions, payloads, zero }
    }

    /// Replaces the payload of slot `index` whole.
    pub fn update_at(&mut self, index: usize, state: T)
        requires
            old(self).wf(),
            index < old(self).payloads().len(),
        ensures
            final(self).wf(),
            final(self).zero() == old(self).zero(),
            final(self).payloads() == old(self).payloads().update(index as int, state),
            final(self).versions() == old(self).versions().update(
                index as int,
                bumped(old(self).versions()[index as int]),
            ),
    {
        let v = self.versions[index];
        let odd = v.wrapping_add(1);
        self.versions.set(index, odd);
        self.payloads.set(index, state);
        let even = odd.wrapping_add(1);
        self.versions.set(index, even);
        proof {
            assert(v % 2 == 0);
            assert(even == bumped(v));
            assert(even % 2 == 0);
        }
    }

    /// Reads slot `index`, trying at most `max_retries` times to see it
    /// between two equal, even versions.
    pub fn read_snapshot_with_retry(&self, index: usize, max_retries: usize) -> (r: Option<T>)
        requires
            self.wf(),
            index < self.payloads().len(),
        ensures
            max_retries > 0 ==> r == Some(self.payloads()[index as int]),
            max_retries == 0 ==> r is None,
    {
        let mut attempt: usize = 0;
        while attempt < max_retries
            invariant
                self.wf(),
                index < self.payloads().len(),
                attempt == 0,
            decreases max_retries - attempt,
        {
            let v1 = self.versions[index];
            if v1 % 2 == 0 {
                let data = self.payloads[index];
                let v2 = self.versions[index];
                if snapshot_consistent(v1, v2) {
                    return Some(data);
                }
            }
            attempt = attempt + 1;
        }
        None
    }

    /// The payload of slot `at`, read with a budget of 100 tries.
    pub fn get_at(&self, at: usize) -> (r: Option<T>)
        requires
            self.wf(),
            at < self.payloads().len(),
        ensures
            r == Some(self.payloads()[at as int]),
    {
        self.read_snapshot_with_retry(at, 100)
    }

    /// Calls `handler` on the payload of slot `at` and returns its result.
    pub fn with_at<R, F: Fn(&T) -> R>(&self, at: usize, handler: F) -> (r: Option<R>)
        requires
            self.wf(),
            at < self.payloads().len(),
            call_requires(handler, (&self.payloads()[at as int],)),
        ensures
            r matches Some(v) && call_ensures(handler, (&self.payloads()[at as int],), v),
    {
        match self.get_at(at) {
            Some(state) => Some(handler(&state)),
            None => None,
        }
    }

    /// The number of slots.
    pub fn size(&self) -> (r: usize)
        requires
            self.wf(),
        ensures
            r == self.payloads().len(),
    {
        self.payloads.len()
    }
}

} // verus!
