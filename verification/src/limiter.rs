//! The rate limiter: the one mutable structure shared by the whole fetch
//! phase. Granting a slot never schedules two dispatches closer together
//! than the configured interval, wherever the clock readings come from.
use vstd::prelude::*;

verus! {

/// Grants dispatch instants at least `interval` apart on the instant scale
/// (saturating at the top of the scale).
pub struct RateLimiter {
    /// Configured minimum spacing between two granted instants.
    pub interval: u64,
    /// Earliest instant the next grant may be scheduled at.
    pub next_free: u64,
}

impl RateLimiter {
    /// A limiter with minimum spacing `interval` whose first grant is
    /// unconstrained.
    pub fn new(interval: u64) -> (r: RateLimiter)
        ensures
            r.interval == interval,
            r.next_free == 0,
    {
        RateLimiter { interval, next_free: 0 }
    }

    /// Grant one dispatch slot: the later of the current instant and the
    /// earliest free instant, and push the next free instant one interval
    /// further out.
    pub fn grant(&mut self, now: u64) -> (t: u64)
        ensures
            t == (if now >= old(self).next_free { now } else { old(self).next_free }),
            t >= old(self).next_free,
            final(self).interval == old(self).interval,
            final(self).next_free == (if t + old(self).interval <= u64::MAX {
                (t + old(self).interval) as int
            } else {
                u64::MAX as int
            }),
    {
        let t = if now >= self.next_free { now } else { self.next_free };
        self.next_free = if t <= u64::MAX - self.interval { t + self.interval } else { u64::MAX };
        t
    }
}

/// Adjacent instants of `ts` are at least `interval` apart, except where the
/// scale saturated.
pub open spec fn spaced(ts: Seq<u64>, interval: u64) -> bool {
    forall|k: int|
        1 <= k < ts.len() ==> ((#[trigger] ts[k]) >= ts[k - 1] + interval || ts[k] == u64::MAX)
}

/// For dispatch instants spaced at least `interval` apart, the span from the
/// first to the last is at least one interval per dispatch after the first.
/// (Excluded: runs whose last instant saturated the scale.)
pub proof fn lemma_dispatch_span(ts: Seq<u64>, interval: u64)
    requires
        spaced(ts, interval),
        ts.len() >= 1,
        ts.last() < u64::MAX,
    ensures
        ts.last() >= ts[0] + (ts.len() - 1) * interval,
    decreases ts.len(),
{
    let n = ts.len() as int;
    if n == 1 {
        assert(n == 1 ==> (n - 1) * (interval as int) == 0) by (nonlinear_arith);
    } else {
        let prev = ts.drop_last();
        assert(ts.last() >= ts[n - 2] + interval);
        assert(prev.last() == ts[n - 2]);
        assert(spaced(prev, interval));
        lemma_dispatch_span(prev, interval);
        assert((n - 1) * (interval as int) == (n - 2) * (interval as int) + interval)
            by (nonlinear_arith);
    }
}

} // verus!
