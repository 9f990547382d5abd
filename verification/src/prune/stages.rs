//! Per-stage pipeline numbers, and the messages between the stages.

use vstd::prelude::*;

use crate::prune::counts::{spec_rejected, ContentCounts, Rejection};

verus! {

/// Cumulative throughput and current queue depth for one pipeline stage.
#[derive(Debug, Clone, Copy, PartialEq, Eq, Structural)]
pub struct StageStats {
    pub throughput: u64,
    pub depth: u64,
}

/// Per-stage pipeline metrics.
#[derive(Debug, Clone, Copy, PartialEq, Eq, Structural)]
pub struct PipelineStages {
    pub firehose: StageStats,
    pub meta: StageStats,
    pub image: StageStats,
}

/// One status interval's pipeline numbers, captured once and handed to each
/// consumer (telemetry, the store's statistics record).
#[derive(Debug, Clone, Copy, PartialEq, Eq, Structural)]
pub struct PipelineSnapshot {
    pub stages: PipelineStages,
    pub content: ContentCounts,
}

impl StageStats {
    pub fn zero() -> (s: StageStats)
        ensures
            s == (StageStats { throughput: 0, depth: 0 }),
    {
        StageStats { throughput: 0, depth: 0 }
    }
}

impl PipelineStages {
    pub fn zero() -> (s: PipelineStages)
        ensures
            s.firehose == (StageStats { throughput: 0, depth: 0 }),
            s.meta == (StageStats { throughput: 0, depth: 0 }),
            s.image == (StageStats { throughput: 0, depth: 0 }),
    {
        PipelineStages { firehose: StageStats::zero(), meta: StageStats::zero(), image: StageStats::zero() }
    }
}

impl PipelineSnapshot {
    pub fn zero() -> (s: PipelineSnapshot)
        ensures
            s.stages.firehose == (StageStats { throughput: 0, depth: 0 }),
            s.stages.meta == (StageStats { throughput: 0, depth: 0 }),
            s.stages.image == (StageStats { throughput: 0, depth: 0 }),
            s.content == ContentCounts::spec_zero(),
    {
        PipelineSnapshot { stages: PipelineStages::zero(), content: ContentCounts::zero() }
    }
}

/// One image of a post: its blob CID and the CDN URL to fetch it from.
#[derive(Debug)]
pub struct ImageCandidate {
    pub cid: String,
    pub url: String,
}

/// A post that has images but whose images are not downloaded yet.
/// `original_at` is the post's creation time, microseconds since the epoch.
#[derive(Debug)]
pub struct SkeetCandidate {
    pub skeet_id: String,
    pub original_at: i64,
    pub images: Vec<ImageCandidate>,
}

/// The metadata check's verdict on one candidate.
#[derive(Debug)]
pub enum MetaFilterOutcome {
    Pass,
    /// Blocked by moderation labels on the post, its author, or a quoted
    /// record; holds the labels.
    Blocked(Vec<String>),
    /// The post-thread fetch failed (the message); rejected fail-closed.
    FetchFailed(String),
}

/// The metadata stage's outcome for one candidate.
#[derive(Debug)]
pub enum MetaResult {
    Candidate(SkeetCandidate),
    Rejected,
}

/// Build the single meta-stage message for a candidate from its metadata
/// outcome. A passed candidate contributes one post and its full image
/// count; a blocked one (or a failed fetch) contributes one post with no
/// images plus the metadata rejection.
pub fn meta_message(candidate: SkeetCandidate, outcome: MetaFilterOutcome) -> (m: (MetaResult, ContentCounts))
    ensures
        outcome is Pass ==> (m.0 matches MetaResult::Candidate(c) && c == candidate)
            && m.1 == (ContentCounts { posts: 1, images: candidate.images.len() as u64, ..ContentCounts::spec_zero() }),
        !(outcome is Pass) ==> m.0 is Rejected && m.1 == (ContentCounts {
            posts: 1,
            ..ContentCounts::spec_zero()
        }).spec_merge(spec_rejected(seq![Rejection::BlockedByMetadata])),
{
    match outcome {
        MetaFilterOutcome::Pass => {
            let images = candidate.images.len() as u64;
            (MetaResult::Candidate(candidate), ContentCounts::post(images))
        },
        _ => {
            let reasons = vec![Rejection::BlockedByMetadata];
            assert(reasons@ =~= seq![Rejection::BlockedByMetadata]);
            let rejected = ContentCounts::rejected(reasons.as_slice());
            (MetaResult::Rejected, ContentCounts::post(0).merge(rejected))
        },
    }
}

} // verus!

verus! {

/// The metadata verdict from the labels found blocking: none passes, any
/// blocks (carrying them).
pub fn check_metadata(blocked: Vec<String>) -> (o: MetaFilterOutcome)
    ensures
        blocked@.len() == 0 ==> o is Pass,
        blocked@.len() > 0 ==> (o matches MetaFilterOutcome::Blocked(b) && b@ == blocked@),
{
    if blocked.len() == 0 {
        MetaFilterOutcome::Pass
    } else {
        MetaFilterOutcome::Blocked(blocked)
    }
}

} // verus!

verus! {

/// A stage should stop: its downstream is gone or shutdown was requested.
pub struct Stopped;

/// Whether a save persisted a fresh record or skipped it (the image already
/// existed, or the write failed).
#[derive(Debug, Clone, Copy, PartialEq, Eq, Structural)]
pub enum SaveOutcome {
    Saved,
    Skipped,
}

/// Whether to write a record, given the existence check (`None` when the
/// check failed): only a confirmed existing image is skipped; a failed check
/// still attempts the save.
pub fn should_write(exists: Option<bool>) -> (b: bool)
    ensures
        b == (exists != Some(true)),
{
    match exists {
        Some(true) => false,
        _ => true,
    }
}

/// The outcome of a save: `Saved` only when a write was attempted and
/// succeeded.
pub fn save_outcome(exists: Option<bool>, write_succeeded: bool) -> (o: SaveOutcome)
    ensures
        o == (if exists != Some(true) && write_succeeded { SaveOutcome::Saved } else { SaveOutcome::Skipped }),
{
    if should_write(exists) && write_succeeded {
        SaveOutcome::Saved
    } else {
        SaveOutcome::Skipped
    }
}

/// Fold one save into a message's tally: a fresh save adds one saved image.
pub fn fold_save(counts: &mut ContentCounts, outcome: SaveOutcome)
    ensures
        outcome is Saved ==> *final(counts) == old(counts).spec_merge(
            ContentCounts { saved: 1, ..ContentCounts::spec_zero() },
        ),
        outcome is Skipped ==> *final(counts) == *old(counts),
{
    if outcome == SaveOutcome::Saved {
        let one = ContentCounts::saved();
        counts.add_assign(&one);
    }
}

} // verus!
