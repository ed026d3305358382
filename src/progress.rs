use vstd::prelude::*;

verus! {

/// The progress reporter's memory between two samples of the shared counter.
#[derive(Clone, Copy, Debug, PartialEq, Eq, Structural)]
pub struct ProgressTracker {
    pub last_count: u64,
}

/// One sample: `after` is the tracker once `current` is observed from
/// `before`, and `delta` the growth reported.
pub open spec fn observe_step(
    before: ProgressTracker,
    current: u64,
    after: ProgressTracker,
    delta: u64,
) -> bool {
    if current >= before.last_count {
        delta == current - before.last_count && after.last_count == current
    } else {
        delta == 0 && after == before
    }
}

impl ProgressTracker {
    pub fn new() -> (r: ProgressTracker)
        ensures
            r.last_count == 0,
    {
        ProgressTracker { last_count: 0 }
    }

    /// Take a new sample of the counter and return how many attempts it grew
    /// by since the last sample. The counter only grows; a sample below the
    /// last one (a stale read) counts as no growth and is not recorded.
    pub fn observe(&mut self, current: u64) -> (delta: u64)
        ensures
            observe_step(*old(self), current, *final(self), delta),
    {
        if current >= self.last_count {
            let delta = current - self.last_count;
            self.last_count = current;
            delta
        } else {
            0
        }
    }
}

/// The total that the reporter records never decreases, and the growth it
/// reports over two samples adds up to the growth of the recorded total.
pub proof fn lemma_recorded_total_monotonic(
    before: ProgressTracker,
    after: ProgressTracker,
    current: u64,
    delta: u64,
)
    requires
        observe_step(before, current, after, delta),
    ensures
        after.last_count >= before.last_count,
        after.last_count == before.last_count + delta,
{
}

} // verus!
