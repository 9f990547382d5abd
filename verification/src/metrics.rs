//! Turning cumulative totals into the increments a telemetry counter needs:
//! each emission adds only the growth since the last one.

use vstd::prelude::*;

verus! {

/// The growth of a cumulative total over the largest total already emitted.
pub open spec fn growth(prev: u64, total: u64) -> u64 {
    if total > prev { (total - prev) as u64 } else { 0 }
}

/// The largest total emitted after one more observation.
pub open spec fn high_water(prev: u64, total: u64) -> u64 {
    if total > prev { total } else { prev }
}

/// Tracks the cumulative total already emitted to a counter.
#[derive(Debug, Clone, Copy)]
pub struct CumulativeCounter {
    prev: u64,
}

impl CumulativeCounter {
    /// The largest total emitted so far.
    pub closed spec fn spec_prev(&self) -> u64 {
        self.prev
    }

    pub fn new() -> (c: CumulativeCounter)
        ensures
            c.spec_prev() == 0,
    {
        CumulativeCounter { prev: 0 }
    }

    /// Observe the current cumulative `total` and return what to add to the
    /// counter: its growth since the last emission, or 0 when it has not
    /// grown (a total that shrank is never emitted as negative).
    pub fn advance(&mut self, total: u64) -> (delta: u64)
        ensures
            delta == growth(old(self).spec_prev(), total),
            final(self).spec_prev() == high_water(old(self).spec_prev(), total),
    {
        let delta = total.saturating_sub(self.prev);
        if delta > 0 {
            self.prev = total;
        }
        delta
    }
}

/// The largest of `totals` (0 for none).
pub open spec fn max_seen(totals: Seq<u64>) -> u64
    decreases totals.len(),
{
    if totals.len() == 0 {
        0
    } else {
        high_water(max_seen(totals.drop_last()), totals.last())
    }
}

/// What the counter has received after observing `totals` in order, from a
/// fresh tracker.
pub open spec fn emitted(totals: Seq<u64>) -> nat
    decreases totals.len(),
{
    if totals.len() == 0 {
        0
    } else {
        emitted(totals.drop_last()) + growth(max_seen(totals.drop_last()), totals.last()) as nat
    }
}

/// A counter fed by a fresh tracker ends up holding exactly the largest
/// cumulative total observed: repeated totals add nothing, and growth is
/// never double-counted.
pub proof fn lemma_emitted_is_max(totals: Seq<u64>)
    ensures
        emitted(totals) == max_seen(totals),
    decreases totals.len(),
{
    if totals.len() > 0 {
        lemma_emitted_is_max(totals.drop_last());
    }
}

} // verus!
