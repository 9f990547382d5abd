//! The running content tally of the pruner and when to log a summary of it.

use vstd::prelude::*;

use crate::prune::counts::{spec_rejected, ContentCounts, Rejection};
use crate::prune::stages::{PipelineSnapshot, PipelineStages};

verus! {

/// Whether a summary is due after a post-bearing update: on the first post,
/// on every `every_n`-th post, or once the log interval has elapsed.
pub open spec fn summary_due(posts: u64, every_n: u64, interval_elapsed: bool) -> bool {
    ||| posts == 1
    ||| (if every_n == 0 { posts == 0 } else { posts % every_n == 0 })
    ||| interval_elapsed
}

pub fn is_summary_due(posts: u64, every_n: u64, interval_elapsed: bool) -> (b: bool)
    ensures
        b == summary_due(posts, every_n, interval_elapsed),
{
    posts == 1 || (if every_n == 0 { posts == 0 } else { posts % every_n == 0 }) || interval_elapsed
}

/// The pruner's running tally, and the cadence of its summaries.
pub struct Status {
    content: ContentCounts,
    every_n: u64,
}

impl Status {
    pub closed spec fn spec_content(&self) -> ContentCounts {
        self.content
    }

    pub closed spec fn spec_every_n(&self) -> u64 {
        self.every_n
    }

    /// A fresh status that also logs every `log_every_n` posts.
    pub fn new(log_every_n: u64) -> (s: Status)
        ensures
            s.spec_content() == ContentCounts::spec_zero(),
            s.spec_every_n() == log_every_n,
    {
        Status { content: ContentCounts::zero(), every_n: log_every_n }
    }

    /// Fold one message's tally into the running total. Returns whether a
    /// summary is due: only a message carrying posts can trigger one.
    pub fn record_counts(&mut self, counts: &ContentCounts, interval_elapsed: bool) -> (log_now: bool)
        ensures
            final(self).spec_content() == old(self).spec_content().spec_merge(*counts),
            final(self).spec_every_n() == old(self).spec_every_n(),
            log_now == (counts.posts > 0 && summary_due(
                final(self).spec_content().posts,
                old(self).spec_every_n(),
                interval_elapsed,
            )),
    {
        self.content.add_assign(counts);
        counts.posts > 0 && is_summary_due(self.content.posts, self.every_n, interval_elapsed)
    }

    /// One post observed with `image_count` images.
    pub fn record_post(&mut self, image_count: u64, interval_elapsed: bool) -> (log_now: bool)
        ensures
            final(self).spec_content() == old(self).spec_content().spec_merge(
                ContentCounts { posts: 1, images: image_count, ..ContentCounts::spec_zero() },
            ),
            final(self).spec_every_n() == old(self).spec_every_n(),
            log_now == summary_due(final(self).spec_content().posts, old(self).spec_every_n(), interval_elapsed),
    {
        let delta = ContentCounts::post(image_count);
        self.record_counts(&delta, interval_elapsed)
    }

    /// One image saved.
    pub fn record_saved(&mut self)
        ensures
            final(self).spec_content() == old(self).spec_content().spec_merge(
                ContentCounts { saved: 1, ..ContentCounts::spec_zero() },
            ),
            final(self).spec_every_n() == old(self).spec_every_n(),
    {
        let delta = ContentCounts::saved();
        self.content.add_assign(&delta);
    }

    /// One image rejected for `reasons`.
    pub fn record_rejected(&mut self, reasons: &[Rejection])
        ensures
            final(self).spec_content() == old(self).spec_content().spec_merge(spec_rejected(reasons@)),
            final(self).spec_every_n() == old(self).spec_every_n(),
    {
        let delta = ContentCounts::rejected(reasons);
        self.content.add_assign(&delta);
    }

    /// Images saved so far.
    pub fn saved_count(&self) -> (n: u64)
        ensures
            n == self.spec_content().saved,
    {
        self.content.saved
    }

    /// The running tally.
    pub fn content(&self) -> (c: ContentCounts)
        ensures
            c == self.spec_content(),
    {
        self.content
    }

    /// The interval's snapshot: the given stage numbers with the tally.
    pub fn snapshot(&self, stages: PipelineStages) -> (s: PipelineSnapshot)
        ensures
            s == (PipelineSnapshot { stages, content: self.spec_content() }),
    {
        PipelineSnapshot { stages, content: self.content }
    }
}

} // verus!

verus! {

/// The reasons with a non-zero count, in the order of their labels.
pub open spec fn spec_reason_summary(r: crate::prune::counts::ReasonCounts) -> Seq<(Rejection, u64)> {
    let b = if r.blocked_by_metadata > 0 { seq![(Rejection::BlockedByMetadata, r.blocked_by_metadata)] } else { seq![] };
    let f = if r.face_too_small > 0 { seq![(Rejection::FaceTooSmall, r.face_too_small)] } else { seq![] };
    let t = if r.too_much_text > 0 { seq![(Rejection::TooMuchText, r.too_much_text)] } else { seq![] };
    b + f + t
}

/// Label order on reasons: their labels begin with distinct letters, so
/// comparing the first letters orders them.
pub open spec fn label_before(a: Rejection, b: Rejection) -> bool {
    (a.spec_label()[0] as int) < (b.spec_label()[0] as int)
}

/// What a reason summary is: every reason with a non-zero count appears,
/// with that count; nothing else appears; and the entries follow label
/// order, so no reason appears twice.
pub proof fn lemma_reason_summary_reports_each_counted_reason(r: crate::prune::counts::ReasonCounts)
    ensures
        forall|x: Rejection| r.spec_get(x) > 0 ==> exists|i: int|
            0 <= i < spec_reason_summary(r).len() && (#[trigger] spec_reason_summary(r)[i]).0 == x,
        forall|i: int|
            0 <= i < spec_reason_summary(r).len() ==> (#[trigger] spec_reason_summary(r)[i]).1 == r.spec_get(
                spec_reason_summary(r)[i].0,
            ) && spec_reason_summary(r)[i].1 > 0,
        forall|i: int, j: int|
            0 <= i < j < spec_reason_summary(r).len() ==> label_before(
                #[trigger] spec_reason_summary(r)[i].0,
                #[trigger] spec_reason_summary(r)[j].0,
            ),
{
    reveal_strlit("FaceTooSmall");
    reveal_strlit("TooMuchText");
    reveal_strlit("BlockedByMetadata");
    let out = spec_reason_summary(r);
    assert forall|x: Rejection| r.spec_get(x) > 0 implies exists|i: int|
        0 <= i < out.len() && (#[trigger] out[i]).0 == x by {
        let b: int = if r.blocked_by_metadata > 0 { 1 } else { 0 };
        let f: int = if r.face_too_small > 0 { 1 } else { 0 };
        match x {
            Rejection::BlockedByMetadata => {
                assert(out[0].0 == x);
            },
            Rejection::FaceTooSmall => {
                assert(out[b].0 == x);
            },
            Rejection::TooMuchText => {
                assert(out[b + f].0 == x);
            },
        }
    }
}

/// The per-reason part of a summary: each reason counted so far, with its
/// count, ordered by label.
pub fn reason_summary(r: &crate::prune::counts::ReasonCounts) -> (out: Vec<(Rejection, u64)>)
    ensures
        out@ == spec_reason_summary(*r),
        forall|x: Rejection| r.spec_get(x) > 0 ==> exists|i: int| 0 <= i < out@.len() && (#[trigger] out@[i]).0 == x,
        forall|i: int| 0 <= i < out@.len() ==> (#[trigger] out@[i]).1 == r.spec_get(out@[i].0) && out@[i].1 > 0,
        forall|i: int, j: int| 0 <= i < j < out@.len() ==> label_before(#[trigger] out@[i].0, #[trigger] out@[j].0),
{
    let mut out: Vec<(Rejection, u64)> = Vec::new();
    if r.blocked_by_metadata > 0 {
        out.push((Rejection::BlockedByMetadata, r.blocked_by_metadata));
    }
    if r.face_too_small > 0 {
        out.push((Rejection::FaceTooSmall, r.face_too_small));
    }
    if r.too_much_text > 0 {
        out.push((Rejection::TooMuchText, r.too_much_text));
    }
    proof {
        assert(out@ =~= spec_reason_summary(*r));
        lemma_reason_summary_reports_each_counted_reason(*r);
    }
    out
}

} // verus!
