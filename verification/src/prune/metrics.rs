//! The pruner's telemetry at each status interval: counters receive the
//! growth since the last emission, gauges the current value.

use vstd::prelude::*;

use crate::metrics::{emitted, growth, high_water, lemma_emitted_is_max, max_seen, CumulativeCounter};
use crate::prune::counts::{CategoryCounts, ReasonCounts};
use crate::prune::stages::PipelineSnapshot;

verus! {

/// What to record for one status interval. Counter fields are increments
/// (0 means nothing to add); depth fields are the gauges' current values.
#[derive(Debug, Clone, Copy, PartialEq, Eq, Structural)]
pub struct PruneEmission {
    pub firehose_throughput: u64,
    pub meta_throughput: u64,
    pub image_throughput: u64,
    pub firehose_depth: u64,
    pub meta_depth: u64,
    pub image_depth: u64,
    pub skeets: u64,
    pub images: u64,
    pub saved: u64,
    pub rejected: ReasonCounts,
    pub categories: CategoryCounts,
    pub sole_categories: CategoryCounts,
}

/// How many counter series the pruner emits.
pub open spec fn series_count() -> int {
    15
}

/// The cumulative total of counter series `k` in a snapshot. The series, in
/// order: throughput of the firehose, meta and image stages; skeets, images,
/// saved; rejections by reason (face too small, too much text, blocked by
/// metadata); rejections by category (face, text, metadata); rejections by
/// sole category (face, text, metadata).
pub open spec fn series_total(s: PipelineSnapshot, k: int) -> u64 {
    let st = s.stages;
    let ct = s.content;
    let rj = ct.rejections;
    if k == 0 {
        st.firehose.throughput
    } else if k == 1 {
        st.meta.throughput
    } else if k == 2 {
        st.image.throughput
    } else if k == 3 {
        ct.posts
    } else if k == 4 {
        ct.images
    } else if k == 5 {
        ct.saved
    } else if k == 6 {
        rj.by_reason.face_too_small
    } else if k == 7 {
        rj.by_reason.too_much_text
    } else if k == 8 {
        rj.by_reason.blocked_by_metadata
    } else if k == 9 {
        rj.by_category.face
    } else if k == 10 {
        rj.by_category.text
    } else if k == 11 {
        rj.by_category.metadata
    } else if k == 12 {
        rj.by_sole_category.face
    } else if k == 13 {
        rj.by_sole_category.text
    } else {
        rj.by_sole_category.metadata
    }
}

/// The increment an emission carries for counter series `k` (same order as
/// [`series_total`]).
pub open spec fn series_increment(e: PruneEmission, k: int) -> u64 {
    if k == 0 {
        e.firehose_throughput
    } else if k == 1 {
        e.meta_throughput
    } else if k == 2 {
        e.image_throughput
    } else if k == 3 {
        e.skeets
    } else if k == 4 {
        e.images
    } else if k == 5 {
        e.saved
    } else if k == 6 {
        e.rejected.face_too_small
    } else if k == 7 {
        e.rejected.too_much_text
    } else if k == 8 {
        e.rejected.blocked_by_metadata
    } else if k == 9 {
        e.categories.face
    } else if k == 10 {
        e.categories.text
    } else if k == 11 {
        e.categories.metadata
    } else if k == 12 {
        e.sole_categories.face
    } else if k == 13 {
        e.sole_categories.text
    } else {
        e.sole_categories.metadata
    }
}

/// One emission, seen series by series: from tracker `before` and `snapshot`,
/// each series receives its growth and the tracker moves to `after`; the
/// depth gauges receive the snapshot's depths.
pub open spec fn emit_step(
    before: PruneMetrics,
    snapshot: PipelineSnapshot,
    e: PruneEmission,
    after: PruneMetrics,
) -> bool {
    &&& forall|k: int|
        0 <= k < series_count() ==> series_increment(e, k) == growth(
            before.series_emitted(k),
            #[trigger] series_total(snapshot, k),
        ) && after.series_emitted(k) == high_water(before.series_emitted(k), series_total(snapshot, k))
    &&& e.firehose_depth == snapshot.stages.firehose.depth
    &&& e.meta_depth == snapshot.stages.meta.depth
    &&& e.image_depth == snapshot.stages.image.depth
}

/// The history of series `k` over a run of snapshots.
pub open spec fn series_history(snapshots: Seq<PipelineSnapshot>, k: int) -> Seq<u64> {
    Seq::new(snapshots.len(), |i: int| series_total(snapshots[i], k))
}

/// Everything a run of emissions added to series `k`.
pub open spec fn total_added(emissions: Seq<PruneEmission>, k: int) -> nat
    decreases emissions.len(),
{
    if emissions.len() == 0 {
        0
    } else {
        total_added(emissions.drop_last(), k) + series_increment(emissions.last(), k) as nat
    }
}

/// Tracks the cumulative totals already emitted, one per counter series.
pub struct PruneMetrics {
    firehose: CumulativeCounter,
    meta: CumulativeCounter,
    image: CumulativeCounter,
    skeets: CumulativeCounter,
    images: CumulativeCounter,
    saved: CumulativeCounter,
    face_too_small: CumulativeCounter,
    too_much_text: CumulativeCounter,
    blocked_by_metadata: CumulativeCounter,
    face: CumulativeCounter,
    text: CumulativeCounter,
    metadata: CumulativeCounter,
    sole_face: CumulativeCounter,
    sole_text: CumulativeCounter,
    sole_metadata: CumulativeCounter,
}

impl PruneMetrics {
    /// The total already emitted to series `k` (order of [`series_total`]).
    pub closed spec fn series_emitted(&self, k: int) -> u64 {
        if k == 0 {
            self.firehose.spec_prev()
        } else if k == 1 {
            self.meta.spec_prev()
        } else if k == 2 {
            self.image.spec_prev()
        } else if k == 3 {
            self.skeets.spec_prev()
        } else if k == 4 {
            self.images.spec_prev()
        } else if k == 5 {
            self.saved.spec_prev()
        } else if k == 6 {
            self.face_too_small.spec_prev()
        } else if k == 7 {
            self.too_much_text.spec_prev()
        } else if k == 8 {
            self.blocked_by_metadata.spec_prev()
        } else if k == 9 {
            self.face.spec_prev()
        } else if k == 10 {
            self.text.spec_prev()
        } else if k == 11 {
            self.metadata.spec_prev()
        } else if k == 12 {
            self.sole_face.spec_prev()
        } else if k == 13 {
            self.sole_text.spec_prev()
        } else {
            self.sole_metadata.spec_prev()
        }
    }

    /// Nothing has been emitted to any series yet.
    pub open spec fn is_fresh(&self) -> bool {
        forall|k: int| 0 <= k < series_count() ==> #[trigger] self.series_emitted(k) == 0
    }

    /// The totals already emitted per series.
    pub closed spec fn spec_emitted(&self) -> (u64, u64, u64, u64, u64, u64, ReasonCounts, CategoryCounts, CategoryCounts) {
        (
            self.firehose.spec_prev(),
            self.meta.spec_prev(),
            self.image.spec_prev(),
            self.skeets.spec_prev(),
            self.images.spec_prev(),
            self.saved.spec_prev(),
            ReasonCounts {
                face_too_small: self.face_too_small.spec_prev(),
                too_much_text: self.too_much_text.spec_prev(),
                blocked_by_metadata: self.blocked_by_metadata.spec_prev(),
            },
            CategoryCounts { face: self.face.spec_prev(), text: self.text.spec_prev(), metadata: self.metadata.spec_prev() },
            CategoryCounts {
                face: self.sole_face.spec_prev(),
                text: self.sole_text.spec_prev(),
                metadata: self.sole_metadata.spec_prev(),
            },
        )
    }

    pub fn new() -> (m: PruneMetrics)
        ensures
            m.spec_emitted() == (0u64, 0u64, 0u64, 0u64, 0u64, 0u64,
                ReasonCounts { face_too_small: 0, too_much_text: 0, blocked_by_metadata: 0 },
                CategoryCounts { face: 0, text: 0, metadata: 0 },
                CategoryCounts { face: 0, text: 0, metadata: 0 }),
            m.is_fresh(),
    {
        PruneMetrics {
            firehose: CumulativeCounter::new(),
            meta: CumulativeCounter::new(),
            image: CumulativeCounter::new(),
            skeets: CumulativeCounter::new(),
            images: CumulativeCounter::new(),
            saved: CumulativeCounter::new(),
            face_too_small: CumulativeCounter::new(),
            too_much_text: CumulativeCounter::new(),
            blocked_by_metadata: CumulativeCounter::new(),
            face: CumulativeCounter::new(),
            text: CumulativeCounter::new(),
            metadata: CumulativeCounter::new(),
            sole_face: CumulativeCounter::new(),
            sole_text: CumulativeCounter::new(),
            sole_metadata: CumulativeCounter::new(),
        }
    }

    /// The metrics for one status interval: each counter series receives the
    /// growth of its cumulative total since the last emission, and each depth
    /// gauge the current depth.
    pub fn emit(&mut self, snapshot: &PipelineSnapshot) -> (e: PruneEmission)
        ensures
            ({
                let (f, m, i, sk, im, sv, r, c, sc) = old(self).spec_emitted();
                let st = snapshot.stages;
                let ct = snapshot.content;
                let rj = ct.rejections;
                &&& e.firehose_throughput == growth(f, st.firehose.throughput)
                &&& e.meta_throughput == growth(m, st.meta.throughput)
                &&& e.image_throughput == growth(i, st.image.throughput)
                &&& e.firehose_depth == st.firehose.depth
                &&& e.meta_depth == st.meta.depth
                &&& e.image_depth == st.image.depth
                &&& e.skeets == growth(sk, ct.posts)
                &&& e.images == growth(im, ct.images)
                &&& e.saved == growth(sv, ct.saved)
                &&& e.rejected == (ReasonCounts {
                    face_too_small: growth(r.face_too_small, rj.by_reason.face_too_small),
                    too_much_text: growth(r.too_much_text, rj.by_reason.too_much_text),
                    blocked_by_metadata: growth(r.blocked_by_metadata, rj.by_reason.blocked_by_metadata),
                })
                &&& e.categories == (CategoryCounts {
                    face: growth(c.face, rj.by_category.face),
                    text: growth(c.text, rj.by_category.text),
                    metadata: growth(c.metadata, rj.by_category.metadata),
                })
                &&& e.sole_categories == (CategoryCounts {
                    face: growth(sc.face, rj.by_sole_category.face),
                    text: growth(sc.text, rj.by_sole_category.text),
                    metadata: growth(sc.metadata, rj.by_sole_category.metadata),
                })
                &&& final(self).spec_emitted() == (
                    high_water(f, st.firehose.throughput),
                    high_water(m, st.meta.throughput),
                    high_water(i, st.image.throughput),
                    high_water(sk, ct.posts),
                    high_water(im, ct.images),
                    high_water(sv, ct.saved),
                    ReasonCounts {
                        face_too_small: high_water(r.face_too_small, rj.by_reason.face_too_small),
                        too_much_text: high_water(r.too_much_text, rj.by_reason.too_much_text),
                        blocked_by_metadata: high_water(r.blocked_by_metadata, rj.by_reason.blocked_by_metadata),
                    },
                    CategoryCounts {
                        face: high_water(c.face, rj.by_category.face),
                        text: high_water(c.text, rj.by_category.text),
                        metadata: high_water(c.metadata, rj.by_category.metadata),
                    },
                    CategoryCounts {
                        face: high_water(sc.face, rj.by_sole_category.face),
                        text: high_water(sc.text, rj.by_sole_category.text),
                        metadata: high_water(sc.metadata, rj.by_sole_category.metadata),
                    },
                )
            }),
            emit_step(*old(self), *snapshot, e, *final(self)),
    {
        let stages = snapshot.stages;
        let content = snapshot.content;
        let rj = content.rejections;
        let firehose_throughput = self.firehose.advance(stages.firehose.throughput);
        let meta_throughput = self.meta.advance(stages.meta.throughput);
        let image_throughput = self.image.advance(stages.image.throughput);
        let skeets = self.skeets.advance(content.posts);
        let images = self.images.advance(content.images);
        let saved = self.saved.advance(content.saved);
        let rejected = ReasonCounts {
            face_too_small: self.face_too_small.advance(rj.by_reason.face_too_small),
            too_much_text: self.too_much_text.advance(rj.by_reason.too_much_text),
            blocked_by_metadata: self.blocked_by_metadata.advance(rj.by_reason.blocked_by_metadata),
        };
        let categories = CategoryCounts {
            face: self.face.advance(rj.by_category.face),
            text: self.text.advance(rj.by_category.text),
            metadata: self.metadata.advance(rj.by_category.metadata),
        };
        let sole_categories = CategoryCounts {
            face: self.sole_face.advance(rj.by_sole_category.face),
            text: self.sole_text.advance(rj.by_sole_category.text),
            metadata: self.sole_metadata.advance(rj.by_sole_category.metadata),
        };
        PruneEmission {
            firehose_throughput,
            meta_throughput,
            image_throughput,
            firehose_depth: stages.firehose.depth,
            meta_depth: stages.meta.depth,
            image_depth: stages.image.depth,
            skeets,
            images,
            saved,
            rejected,
            categories,
            sole_categories,
        }
    }
}

/// Following a run of emissions series by series: the tracker ends at the
/// largest total seen, and the increments sum to what the counter received.
proof fn lemma_series_run(
    trackers: Seq<PruneMetrics>,
    snapshots: Seq<PipelineSnapshot>,
    emissions: Seq<PruneEmission>,
    k: int,
)
    requires
        0 <= k < series_count(),
        trackers.len() == snapshots.len() + 1,
        emissions.len() == snapshots.len(),
        trackers[0].is_fresh(),
        forall|i: int|
            0 <= i < snapshots.len() ==> #[trigger] emit_step(trackers[i], snapshots[i], emissions[i], trackers[i + 1]),
    ensures
        total_added(emissions, k) == emitted(series_history(snapshots, k)),
        trackers.last().series_emitted(k) == max_seen(series_history(snapshots, k)),
    decreases snapshots.len(),
{
    let n = snapshots.len() as int;
    let h = series_history(snapshots, k);
    if n == 0 {
        assert(trackers[0].series_emitted(k) == 0);
    } else {
        let t = trackers.drop_last();
        let sn = snapshots.drop_last();
        let em = emissions.drop_last();
        assert forall|i: int| 0 <= i < sn.len() implies #[trigger] emit_step(t[i], sn[i], em[i], t[i + 1]) by {
            assert(emit_step(trackers[i], snapshots[i], emissions[i], trackers[i + 1]));
        }
        lemma_series_run(t, sn, em, k);
        assert(h.drop_last() =~= series_history(sn, k));
        assert(emit_step(trackers[n - 1], snapshots[n - 1], emissions[n - 1], trackers[n]));
        assert(series_total(snapshots[n - 1], k) == h.last());
    }
}

/// Emitting a run of snapshots from a fresh tracker: every counter series
/// receives, over the whole run, exactly the largest cumulative total it was
/// shown (nothing for a series that stayed at zero, never a repeat of growth
/// already emitted), and every emission records its own snapshot's depths.
pub proof fn lemma_emissions_add_up_to_max(
    trackers: Seq<PruneMetrics>,
    snapshots: Seq<PipelineSnapshot>,
    emissions: Seq<PruneEmission>,
)
    requires
        trackers.len() == snapshots.len() + 1,
        emissions.len() == snapshots.len(),
        trackers[0].is_fresh(),
        forall|i: int|
            0 <= i < snapshots.len() ==> #[trigger] emit_step(trackers[i], snapshots[i], emissions[i], trackers[i + 1]),
    ensures
        forall|k: int| 0 <= k < series_count() ==> #[trigger] total_added(emissions, k) == max_seen(series_history(snapshots, k)),
        forall|i: int|
            0 <= i < snapshots.len() ==> (#[trigger] emissions[i]).firehose_depth == snapshots[i].stages.firehose.depth
                && emissions[i].meta_depth == snapshots[i].stages.meta.depth
                && emissions[i].image_depth == snapshots[i].stages.image.depth,
{
    assert forall|k: int| 0 <= k < series_count() implies #[trigger] total_added(emissions, k) == max_seen(series_history(snapshots, k)) by {
        lemma_series_run(trackers, snapshots, emissions, k);
        lemma_emitted_is_max(series_history(snapshots, k));
    }
    assert forall|i: int| 0 <= i < snapshots.len() implies (#[trigger] emissions[i]).firehose_depth == snapshots[i].stages.firehose.depth
        && emissions[i].meta_depth == snapshots[i].stages.meta.depth
        && emissions[i].image_depth == snapshots[i].stages.image.depth by {
        assert(emit_step(trackers[i], snapshots[i], emissions[i], trackers[i + 1]));
    }
}

} // verus!
