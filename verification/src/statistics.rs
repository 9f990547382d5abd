//! Per-list statistics published alongside a feed list, and the next-match
//! prediction they may carry. Instants are microseconds since the Unix epoch.

use vstd::prelude::*;

verus! {

/// Quantiles of the predicted wait until the next match, as instants
/// (microseconds since the epoch) the next match is expected by.
#[derive(Debug, Clone, Copy, PartialEq, Eq, Structural)]
pub struct NextMatchPrediction {
    /// 2.5% chance of a match by here.
    pub lower: i64,
    /// The median: an even chance of a match by here.
    pub middle: i64,
    /// 97.5% chance of a match by here.
    pub upper: i64,
}

/// Per-list aggregate statistics: "N images checked over this window, of
/// which M shown".
#[derive(Debug, Clone, Copy, PartialEq, Eq, Structural)]
pub struct ListStatistics {
    /// Start of the window the list covers (inclusive).
    pub interval_start: i64,
    /// End of the window the list covers (exclusive).
    pub interval_end: i64,
    /// Images the pruner examined over the window.
    pub examined: u64,
    /// Images found to match: the full published list length.
    pub found: u64,
    /// Of `found`, how many are still live (what the feed shows).
    pub exists: u64,
    /// When the next match is predicted, or `None` without a match to
    /// extrapolate from.
    pub next_match_prediction: Option<NextMatchPrediction>,
}

impl ListStatistics {
    pub fn new(interval_start: i64, interval_end: i64, examined: u64, found: u64, exists: u64) -> (s: ListStatistics)
        ensures
            s == (ListStatistics {
                interval_start,
                interval_end,
                examined,
                found,
                exists,
                next_match_prediction: None,
            }),
    {
        ListStatistics { interval_start, interval_end, examined, found, exists, next_match_prediction: None }
    }

    /// Attach the next-match prediction, returning the updated statistics.
    pub fn with_next_match_prediction(self, prediction: Option<NextMatchPrediction>) -> (s: ListStatistics)
        ensures
            s == (ListStatistics { next_match_prediction: prediction, ..self }),
    {
        ListStatistics { next_match_prediction: prediction, ..self }
    }
}

} // verus!
