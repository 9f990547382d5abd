//! How often, and after how long, a read that fails transiently is tried
//! again: up to three retries, waiting 200 ms before the first and twice as
//! long before each next one. The caller performs the reads and the waits.

use vstd::prelude::*;

verus! {

/// How many retries a read gets after its first attempt.
pub const MAX_RETRIES: u32 = 3;

/// The wait before the first retry, in milliseconds.
pub const FIRST_DELAY_MS: u64 = 200;

/// The wait before the next retry when `retries_left` retries remain.
pub open spec fn delay_for(retries_left: u32) -> u64 {
    if retries_left >= 3 {
        200
    } else if retries_left == 2 {
        400
    } else if retries_left == 1 {
        800
    } else {
        1600
    }
}

/// The retries left to a read and the wait before the next one.
pub struct RetryBudget {
    retries_left: u32,
    delay_ms: u64,
}

impl RetryBudget {
    #[verifier::type_invariant]
    spec fn doubling(self) -> bool {
        self.retries_left <= MAX_RETRIES && self.delay_ms == delay_for(self.retries_left)
    }

    pub closed spec fn spec_retries_left(&self) -> u32 {
        self.retries_left
    }

    pub closed spec fn spec_delay_ms(&self) -> u64 {
        self.delay_ms
    }

    /// A fresh budget: three retries, the first after 200 ms.
    pub fn new() -> (b: RetryBudget)
        ensures
            b.spec_retries_left() == MAX_RETRIES,
            b.spec_delay_ms() == FIRST_DELAY_MS,
    {
        RetryBudget { retries_left: MAX_RETRIES, delay_ms: FIRST_DELAY_MS }
    }

    /// An attempt failed. A transient failure with retries left is retried
    /// after the returned wait (in milliseconds), and the next wait doubles;
    /// any other failure, or one with no retries left, is final (`None`)
    /// and leaves the budget as it was.
    pub fn after_failure(&mut self, transient: bool) -> (wait: Option<u64>)
        ensures
            transient && old(self).spec_retries_left() > 0 ==> wait == Some(old(self).spec_delay_ms())
                && final(self).spec_retries_left() == old(self).spec_retries_left() - 1
                && final(self).spec_delay_ms() == 2 * old(self).spec_delay_ms(),
            !(transient && old(self).spec_retries_left() > 0) ==> wait is None
                && final(self).spec_retries_left() == old(self).spec_retries_left()
                && final(self).spec_delay_ms() == old(self).spec_delay_ms(),
            final(self).spec_delay_ms() == delay_for(final(self).spec_retries_left()),
    {
        proof {
            use_type_invariant(&*self);
        }
        if transient && self.retries_left > 0 {
            let wait = self.delay_ms;
            *self = RetryBudget { retries_left: self.retries_left - 1, delay_ms: wait * 2 };
            Some(wait)
        } else {
            None
        }
    }
}

} // verus!
