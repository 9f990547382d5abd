//! Refinement bookkeeping: batches of unscored images, the discovery-time
//! watermark that drives the next fetch, and per-tick outcome tallies.

pub mod batch;
pub mod tick;
pub mod metrics;
pub mod refining;
