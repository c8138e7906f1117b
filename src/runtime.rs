use vstd::prelude::*;

verus! {

/// Steps without work after which a worker starts spinning.
pub const HOT_STEPS: u64 = 10;

/// Steps without work after which a worker yields its thread.
pub const SPIN_STEPS: u64 = 1000;

/// What a worker does after a step, by how long it has been idle.
#[derive(Clone, Copy, PartialEq, Eq, Debug)]
pub enum Backoff {
    /// Run the next step at once.
    Hot,
    /// Give the processor a spin hint first.
    Spin,
    /// Yield the thread first.
    Yield,
}

/// The idle-step count after a step that did (or did not) work.
pub fn next_idle_steps(idle_steps: u64, did_work: bool) -> (r: u64)
    ensures
        did_work ==> r == 0,
        !did_work ==> r == if idle_steps == u64::MAX {
            u64::MAX as int
        } else {
            idle_steps + 1
        },
{
    if did_work {
        0
    } else {
        idle_steps.saturating_add(1)
    }
}

/// The backoff ladder: hot for up to `HOT_STEPS` idle steps, then spinning
/// for up to `SPIN_STEPS`, then yielding.
pub fn backoff(idle_steps: u64) -> (r: Backoff)
    ensures
        idle_steps <= HOT_STEPS ==> r == Backoff::Hot,
        HOT_STEPS < idle_steps <= SPIN_STEPS ==> r == Backoff::Spin,
        SPIN_STEPS < idle_steps ==> r == Backoff::Yield,
{
    if idle_steps <= HOT_STEPS {
        Backoff::Hot
    } else if idle_steps <= SPIN_STEPS {
        Backoff::Spin
    } else {
        Backoff::Yield
    }
}

/// What an idle wait does after one polling tick.
#[derive(Clone, Copy, PartialEq, Eq, Debug)]
pub enum IdleCheck {
    /// The op counter did not move during the tick: the engine is quiet.
    Idle,
    /// The time allowed has run out.
    TimedOut,
    /// Keep polling.
    Wait,
}

/// Decides an idle wait after a tick, from the op count before and after it
/// and the time spent so far.
pub fn idle_check(last_count: u64, new_count: u64, elapsed_nanos: u64, timeout_nanos: u64) -> (r:
    IdleCheck)
    ensures
        new_count == last_count ==> r == IdleCheck::Idle,
        new_count != last_count && elapsed_nanos > timeout_nanos ==> r == IdleCheck::TimedOut,
        new_count != last_count && elapsed_nanos <= timeout_nanos ==> r == IdleCheck::Wait,
{
    if new_count == last_count {
        IdleCheck::Idle
    } else if elapsed_nanos > timeout_nanos {
        IdleCheck::TimedOut
    } else {
        IdleCheck::Wait
    }
}

/// Whether some worker has stopped while the engine is still running, which
/// only a panic in its step function can cause.
pub fn any_worker_panicked(finished: &Vec<bool>, running: bool) -> (r: bool)
    ensures
        r == (running && exists|i: int| 0 <= i < finished@.len() && finished@[i]),
{
    if !running {
        return false;
    }
    let mut i: usize = 0;
    while i < finished.len()
        invariant
            i <= finished@.len(),
            running,
            forall|j: int| 0 <= j < i ==> !finished@[j],
        decreases finished@.len() - i,
    {
        if finished[i] {
            proof {
                assert(finished@[i as int]);
            }
            return true;
        }
        i = i + 1;
    }
    false
}

/// The core a worker is pinned to: workers take the cores round-robin.
pub fn core_for_worker(worker_id: usize, n_cores: usize) -> (r: usize)
    requires
        n_cores > 0,
    ensures
        r == worker_id % n_cores,
        r < n_cores,
{
    worker_id % n_cores
}

} // verus!
