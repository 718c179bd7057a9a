//! Frame pacing on a fixed cadence. Times are nanoseconds since an origin
//! chosen by the caller.
use vstd::prelude::*;

verus! {

/// The deadline that follows `deadline` when the caller wakes at `now`:
/// one interval later, unless the caller is already a whole interval past
/// that, in which case the cadence restarts at `now`.
pub open spec fn next_deadline(deadline: int, interval: int, now: int) -> int {
    let due = deadline + interval;
    let late = if now > due { now - due } else { 0 };
    if late >= interval { now } else { due }
}

/// The deadline after waking at each of `wakeups` in turn.
pub open spec fn deadline_after(deadline: int, interval: int, wakeups: Seq<int>) -> int
    decreases wakeups.len(),
{
    if wakeups.len() == 0 {
        deadline
    } else {
        next_deadline(
            deadline_after(deadline, interval, wakeups.drop_last()),
            interval,
            wakeups.last(),
        )
    }
}

/// Keeps frame deadlines on the cadence set by its start and interval.
pub struct FramePacer {
    deadline: u64,
    interval: u64,
}

impl FramePacer {
    /// The most recent deadline.
    pub closed spec fn deadline(self) -> u64 {
        self.deadline
    }

    /// The frame interval.
    pub closed spec fn interval(self) -> u64 {
        self.interval
    }

    /// A pacer whose first deadline is `start`.
    pub fn new(start: u64, interval: u64) -> (r: Self)
        ensures
            r.deadline() == start,
            r.interval() == interval,
    {
        FramePacer { deadline: start, interval }
    }

    /// Moves to the next deadline for a caller that woke at `now` and
    /// returns it. Oversleeping by less than an interval does not shift the
    /// cadence; a longer stall restarts it at `now` instead of producing a
    /// burst of catch-up frames.
    pub fn advance(&mut self, now: u64) -> (r: u64)
        requires
            old(self).deadline() + old(self).interval() <= u64::MAX,
        ensures
            r == next_deadline(old(self).deadline() as int, old(self).interval() as int, now as int),
            final(self).deadline() == r,
            final(self).interval() == old(self).interval(),
    {
        self.deadline = self.deadline + self.interval;
        if now.saturating_sub(self.deadline) >= self.interval {
            self.deadline = now;
        }
        self.deadline
    }
}

/// Late wakeups do not accumulate: when every wakeup comes before the
/// deadline that follows the one it waits for, the k-th deadline lies
/// exactly k intervals after the start.
pub proof fn lemma_cadence_is_kept(start: int, interval: int, wakeups: Seq<int>)
    requires
        interval > 0,
        forall|k: int|
            0 <= k < wakeups.len() ==> #[trigger] wakeups[k] < start + (k + 2) * interval,
    ensures
        deadline_after(start, interval, wakeups) == start + wakeups.len() * interval,
    decreases wakeups.len(),
{
    if wakeups.len() > 0 {
        let prefix = wakeups.drop_last();
        assert forall|k: int| 0 <= k < prefix.len() implies #[trigger] prefix[k] < start + (k + 2)
            * interval by {
            assert(prefix[k] == wakeups[k]);
        }
        lemma_cadence_is_kept(start, interval, prefix);
        let n = prefix.len() as int;
        let last = wakeups[n];
        assert(wakeups.last() == last);
        assert(last < start + (n + 2) * interval);
        assert((n + 2) * interval == n * interval + 2 * interval) by (nonlinear_arith);
        assert((n + 1) * interval == n * interval + interval) by (nonlinear_arith);
    }
}

} // verus!
