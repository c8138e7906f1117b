use vstd::prelude::*;

verus! {

/// The sum of a sequence of counts.
pub open spec fn sum(counts: Seq<u64>) -> nat
    decreases counts.len(),
{
    if counts.len() == 0 {
        0
    } else {
        sum(counts.drop_last()) + counts.last() as nat
    }
}

/// One progress count per registered reader; their total drives idle detection.
pub struct OpCounter {
    counters: Vec<u64>,
}

impl OpCounter {
    /// The count of each registered reader, by registration order.
    pub closed spec fn counts(&self) -> Seq<u64> {
        self.counters@
    }

    /// A counter with no reader registered.
    pub fn new() -> (r: Self)
        ensures
            r.counts() == Seq::<u64>::empty(),
    {
        OpCounter { counters: Vec::new() }
    }

    /// Registers a new reader with a count of zero and returns its slot.
    pub fn new_counter(&mut self) -> (r: usize)
        ensures
            r == old(self).counts().len(),
            final(self).counts() == old(self).counts().push(0),
    {
        let id = self.counters.len();
        self.counters.push(0);
        id
    }

    /// Publishes the count a reader has reached.
    pub fn set_count(&mut self, id: usize, count: u64)
        requires
            id < old(self).counts().len(),
        ensures
            final(self).counts() == old(self).counts().update(id as int, count),
    {
        self.counters.set(id, count);
    }

    /// The total of all counts, or `u64::MAX` when it does not fit.
    pub fn total_op_count(&self) -> (r: u64)
        ensures
            r == if sum(self.counts()) <= u64::MAX {
                sum(self.counts())
            } else {
                u64::MAX as nat
            },
    {
        let mut total: u64 = 0;
        let mut saturated = false;
        let mut i: usize = 0;
        while i < self.counters.len()
            invariant
                i <= self.counters@.len(),
                !saturated ==> total == sum(self.counters@.subrange(0, i as int)),
                saturated ==> total == u64::MAX && sum(self.counters@.subrange(0, i as int))
                    > u64::MAX,
            decreases self.counters@.len() - i,
        {
            proof {
                let next = self.counters@.subrange(0, i + 1);
                assert(next.drop_last() =~= self.counters@.subrange(0, i as int));
            }
            let c = self.counters[i];
            if !saturated {
                if total <= u64::MAX - c {
                    total = total + c;
                } else {
                    total = u64::MAX;
                    saturated = true;
                }
            }
            i = i + 1;
        }
        proof {
            assert(self.counters@.subrange(0, self.counters@.len() as int) =~= self.counters@);
        }
        total
    }
}

} // verus!
