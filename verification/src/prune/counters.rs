//! Per-stage item counters, shared across the pipeline's worker tasks.

use std::sync::atomic::AtomicU64;
use std::sync::atomic::Ordering;

use vstd::prelude::*;

verus! {

/// Per-stage item counters for throughput monitoring. Workers increment them
/// concurrently; a read sees some value the counter held.
#[derive(Debug, Default)]
pub struct PipelineCounters {
    pub firehose: AtomicU64,
    pub meta: AtomicU64,
    pub image: AtomicU64,
}

impl PipelineCounters {
    /// Candidates read off the firehose so far. Other tasks may be adding
    /// concurrently, so nothing is promised of the value.
    pub fn firehose_count(&self) -> u64 {
        self.firehose.load(Ordering::Relaxed)
    }

    /// Candidates the metadata stage has taken so far.
    pub fn meta_count(&self) -> u64 {
        self.meta.load(Ordering::Relaxed)
    }

    /// Candidates the image stage has taken so far.
    pub fn image_count(&self) -> u64 {
        self.image.load(Ordering::Relaxed)
    }
}

} // verus!
