use vstd::prelude::*;

verus! {

/// The shortest latency a histogram records, in nanoseconds.
pub const MIN_NANOS: u64 = 1;

/// The longest latency a histogram records (1000 s), in nanoseconds.
pub const MAX_NANOS: u64 = 1_000_000_000_000;

/// The fewest samples before a latency can be judged an outlier.
pub const OUTLIER_MIN_SAMPLES: u64 = 100;

/// Decides which steps are measured: one in every `sample_rate`.
pub struct LatencySampler {
    pub sample_rate: u64,
    pub step: u64,
}

impl LatencySampler {
    /// A sampler that measures every `sample_rate`-th step.
    pub fn new(sample_rate: u64) -> (r: Self)
        requires
            sample_rate > 0,
        ensures
            r.sample_rate == sample_rate,
            r.step == 0,
    {
        LatencySampler { sample_rate, step: 0 }
    }

    /// Counts one step and tells whether it is to be measured.
    pub fn tick(&mut self) -> (r: bool)
        requires
            old(self).sample_rate > 0,
        ensures
            final(self).sample_rate == old(self).sample_rate,
            final(self).step == if old(self).step == u64::MAX {
                0
            } else {
                (old(self).step + 1) as u64
            },
            r == (final(self).step % final(self).sample_rate == 0),
    {
        self.step = self.step.wrapping_add(1);
        self.step % self.sample_rate == 0
    }
}

/// A latency brought into the range a histogram records.
pub fn clamp_nanos(nanos: u64) -> (r: u64)
    ensures
        nanos < MIN_NANOS ==> r == MIN_NANOS,
        nanos > MAX_NANOS ==> r == MAX_NANOS,
        MIN_NANOS <= nanos <= MAX_NANOS ==> r == nanos,
{
    if nanos < MIN_NANOS {
        MIN_NANOS
    } else if nanos > MAX_NANOS {
        MAX_NANOS
    } else {
        nanos
    }
}

/// Whether a latency is an outlier: above the 99.9th percentile, once at
/// least `OUTLIER_MIN_SAMPLES` samples have been recorded.
pub fn is_outlier(count: u64, p999: u64, nanos: u64) -> (r: bool)
    ensures
        r == (count >= OUTLIER_MIN_SAMPLES && nanos > p999),
{
    count >= OUTLIER_MIN_SAMPLES && nanos > p999
}

} // verus!
