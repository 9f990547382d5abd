//! The pruning pipeline's bookkeeping: content tallies, rejection breakdowns,
//! metadata-stage messages, status cadence and metric deltas.

pub mod counts;
pub mod stages;
pub mod metrics;
pub mod status;
pub mod counters;
pub mod firehose;
pub mod persister;
