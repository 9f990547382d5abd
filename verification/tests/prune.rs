use bobby::metrics::CumulativeCounter;
use bobby::prune::counts::{
    CategoryCounts, ContentCounts, ReasonCounts, Rejection, RejectionBreakdown, RejectionCategory,
};
use bobby::prune::firehose::{cursor_micros, has_excluded_label, skeet_candidate, FirehoseCursor, RECONNECT_REWIND_MICROS};
use bobby::prune::metrics::{PruneEmission, PruneMetrics};
use bobby::prune::stages::{
    check_metadata, fold_save, meta_message, save_outcome, should_write, ImageCandidate, SaveOutcome, MetaFilterOutcome, MetaResult, PipelineSnapshot, PipelineStages,
    SkeetCandidate, StageStats,
};
use bobby::prune::status::{is_summary_due, reason_summary, Status};

fn candidate_with_images(n: usize) -> SkeetCandidate {
    SkeetCandidate {
        skeet_id: "at://did:plc:abc/app.bsky.feed.post/xyz".to_string(),
        original_at: 1_700_000_000_000_000,
        images: (0..n)
            .map(|i| ImageCandidate { cid: format!("cid{i}"), url: format!("https://cdn/{i}") })
            .collect(),
    }
}

#[test]
fn rejected_tallies_count_reasons_and_categories() {
    let c = ContentCounts::rejected(&[Rejection::FaceTooSmall, Rejection::FaceTooSmall]);
    assert_eq!(c.rejected, 1);
    assert_eq!(c.rejections.by_reason.get(Rejection::FaceTooSmall), 2);
    assert_eq!(c.rejections.by_category.get(RejectionCategory::Face), 1);
    assert_eq!(c.rejections.by_sole_category.get(RejectionCategory::Face), 1);

    let c = ContentCounts::rejected(&[Rejection::FaceTooSmall, Rejection::TooMuchText]);
    assert_eq!(c.rejected, 1);
    assert_eq!(c.rejections.by_category.get(RejectionCategory::Face), 1);
    assert_eq!(c.rejections.by_category.get(RejectionCategory::Text), 1);
    assert!(c.rejections.by_sole_category.is_empty());
}

#[test]
fn rejected_with_no_reasons_counts_one_image_and_nothing_else() {
    let c = ContentCounts::rejected(&[]);
    assert_eq!(c.rejected, 1);
    assert!(c.rejections.by_reason.is_empty());
    assert!(c.rejections.by_category.is_empty());
    assert!(c.rejections.by_sole_category.is_empty());
}

#[test]
fn pass_carries_one_post_and_full_image_count() {
    let (result, counts) = meta_message(candidate_with_images(3), MetaFilterOutcome::Pass);
    assert!(matches!(result, MetaResult::Candidate(_)));
    assert_eq!(counts, ContentCounts::post(3));
}

#[test]
fn blocked_tallies_the_rejection_into_its_counts() {
    let (result, counts) = meta_message(
        candidate_with_images(3),
        MetaFilterOutcome::Blocked(vec!["porn".to_string()]),
    );
    assert!(matches!(result, MetaResult::Rejected));
    assert_eq!(counts, ContentCounts::post(0) + ContentCounts::rejected(&[Rejection::BlockedByMetadata]));
}

#[test]
fn failed_fetch_is_rejected_fail_closed() {
    let (result, counts) =
        meta_message(candidate_with_images(2), MetaFilterOutcome::FetchFailed("timeout".to_string()));
    assert!(matches!(result, MetaResult::Rejected));
    assert_eq!(counts.posts, 1);
    assert_eq!(counts.images, 0);
    assert_eq!(counts.rejections.by_reason.get(Rejection::BlockedByMetadata), 1);
}

#[test]
fn merging_counts_adds_every_field_and_zero_is_neutral() {
    let a = ContentCounts::post(3) + ContentCounts::saved();
    let b = ContentCounts::rejected(&[Rejection::TooMuchText]);
    let ab = a + b;
    assert_eq!((ab.posts, ab.images, ab.saved, ab.rejected), (1, 3, 1, 1));
    assert_eq!(ab, b + a);
    assert_eq!(ab + ContentCounts::zero(), ab);
    let mut c = a;
    c.add_assign(&b);
    assert_eq!(c, ab);
    assert_eq!(a.merge(b), ab);
}

#[test]
fn reason_names_match_their_labels() {
    assert_eq!(Rejection::FaceTooSmall.as_str(), "FaceTooSmall");
    assert_eq!(Rejection::TooMuchText.category(), RejectionCategory::Text);
    assert_eq!(Rejection::BlockedByMetadata.category(), RejectionCategory::Metadata);
    assert_eq!(RejectionCategory::Metadata.as_str(), "Metadata");
}

#[test]
fn cursor_from_rewinds_by_the_configured_amount() {
    let time_us: u64 = 1_700_000_000_000_000;
    let cursor = cursor_micros(time_us).expect("representable");
    assert_eq!(cursor, time_us - RECONNECT_REWIND_MICROS);
    assert_eq!(RECONNECT_REWIND_MICROS, 5_000_000);
}

#[test]
fn cursor_from_undefined_if_would_be_negative() {
    assert_eq!(cursor_micros(0), None);
    assert_eq!(cursor_micros(RECONNECT_REWIND_MICROS - 1), None);
    assert_eq!(cursor_micros(RECONNECT_REWIND_MICROS), Some(0));
}

fn stage(throughput: u64, depth: u64) -> StageStats {
    StageStats { throughput, depth }
}

fn throughput(firehose: u64, meta: u64, image: u64) -> PipelineSnapshot {
    PipelineSnapshot {
        stages: PipelineStages { firehose: stage(firehose, 0), meta: stage(meta, 0), image: stage(image, 0) },
        content: ContentCounts::zero(),
    }
}

fn depths(firehose: u64, meta: u64, image: u64) -> PipelineSnapshot {
    PipelineSnapshot {
        stages: PipelineStages { firehose: stage(0, firehose), meta: stage(0, meta), image: stage(0, image) },
        content: ContentCounts::zero(),
    }
}

fn content(posts: u64, images: u64, saved: u64) -> PipelineSnapshot {
    let mut c = ContentCounts::zero();
    c.posts = posts;
    c.images = images;
    c.saved = saved;
    PipelineSnapshot { stages: PipelineStages::zero(), content: c }
}

fn breakdown(by_reason: ReasonCounts, by_category: CategoryCounts, by_sole_category: CategoryCounts) -> PipelineSnapshot {
    let mut c = ContentCounts::zero();
    c.rejections = RejectionBreakdown { by_reason, by_category, by_sole_category };
    PipelineSnapshot { stages: PipelineStages::zero(), content: c }
}

/// Feed the snapshots to a fresh tracker and collect what each counter
/// would have received.
fn run(snapshots: &[PipelineSnapshot]) -> Vec<PruneEmission> {
    let mut metrics = PruneMetrics::new();
    snapshots.iter().map(|s| metrics.emit(s)).collect()
}

#[test]
fn throughput_counter_emits_delta_only_when_increasing() {
    let out = run(&[throughput(10, 0, 0), throughput(10, 0, 0), throughput(15, 0, 0)]);
    let increments: Vec<u64> = out.iter().map(|e| e.firehose_throughput).collect();
    assert_eq!(increments, vec![10, 0, 5]);
    assert_eq!(increments.iter().sum::<u64>(), 15);
}

#[test]
fn throughput_counter_keeps_stages_independent() {
    let out = run(&[throughput(7, 11, 13)]);
    assert_eq!(
        (out[0].firehose_throughput, out[0].meta_throughput, out[0].image_throughput),
        (7, 11, 13)
    );
}

#[test]
fn depth_gauge_emits_current_value_each_call() {
    let out = run(&[depths(5, 7, 9), depths(5, 7, 9)]);
    for e in &out {
        assert_eq!((e.firehose_depth, e.meta_depth, e.image_depth), (5, 7, 9));
    }
}

#[test]
fn content_counters_emit_deltas() {
    let out = run(&[content(4, 6, 2), PipelineSnapshot::zero(), content(4, 6, 2), content(5, 6, 3)]);
    assert_eq!(out.iter().map(|e| e.skeets).sum::<u64>(), 5);
    assert_eq!(out.iter().map(|e| e.images).sum::<u64>(), 6);
    assert_eq!(out.iter().map(|e| e.saved).sum::<u64>(), 3);
}

#[test]
fn rejected_counter_keyed_by_reason_emits_delta() {
    let first = ReasonCounts { face_too_small: 1, too_much_text: 3, blocked_by_metadata: 0 };
    let bumped = ReasonCounts { face_too_small: 1, too_much_text: 7, blocked_by_metadata: 0 };
    let out = run(&[
        breakdown(first, CategoryCounts::zero(), CategoryCounts::zero()),
        breakdown(first, CategoryCounts::zero(), CategoryCounts::zero()),
        breakdown(bumped, CategoryCounts::zero(), CategoryCounts::zero()),
    ]);
    assert_eq!(out.iter().map(|e| e.rejected.too_much_text).sum::<u64>(), 7);
    assert_eq!(out.iter().map(|e| e.rejected.face_too_small).sum::<u64>(), 1);
    assert_eq!(out.iter().map(|e| e.rejected.blocked_by_metadata).sum::<u64>(), 0);
}

#[test]
fn category_counters_keyed_by_category_emit_delta() {
    let cats = CategoryCounts { face: 5, text: 0, metadata: 0 };
    let sole = CategoryCounts { face: 2, text: 0, metadata: 0 };
    let cats2 = CategoryCounts { face: 8, text: 0, metadata: 0 };
    let sole2 = CategoryCounts { face: 3, text: 0, metadata: 0 };
    let out = run(&[
        breakdown(ReasonCounts::zero(), cats, sole),
        breakdown(ReasonCounts::zero(), cats, sole),
        breakdown(ReasonCounts::zero(), cats2, sole2),
    ]);
    assert_eq!(out.iter().map(|e| e.categories.face).sum::<u64>(), 8);
    assert_eq!(out.iter().map(|e| e.sole_categories.face).sum::<u64>(), 3);
}

#[test]
fn a_shrinking_total_is_never_emitted_and_not_re_counted() {
    let mut c = CumulativeCounter::new();
    assert_eq!(c.advance(10), 10);
    assert_eq!(c.advance(4), 0);
    assert_eq!(c.advance(12), 2);
}

#[test]
fn summary_is_due_on_first_every_nth_or_elapsed() {
    assert!(is_summary_due(1, 100, false));
    assert!(is_summary_due(200, 100, false));
    assert!(!is_summary_due(150, 100, false));
    assert!(is_summary_due(150, 100, true));
    assert!(!is_summary_due(5, 0, false));
}

#[test]
fn status_tallies_posts_saves_and_rejections() {
    let mut status = Status::new(2);
    assert!(status.record_post(3, false));
    assert!(status.record_post(1, false));
    assert!(!status.record_post(0, false));
    status.record_saved();
    status.record_rejected(&[Rejection::TooMuchText]);
    let c = status.content();
    assert_eq!((c.posts, c.images, c.saved, c.rejected), (3, 4, 1, 1));
    assert_eq!(status.saved_count(), 1);
    assert_eq!(c.rejections.by_sole_category.get(RejectionCategory::Text), 1);
    let snap = status.snapshot(PipelineStages::zero());
    assert_eq!(snap.content, c);
    // A message without posts never triggers a summary.
    assert!(!status.record_counts(&ContentCounts::saved(), true));
}

fn labels(xs: &[&str]) -> Vec<String> {
    xs.iter().map(|s| s.to_string()).collect()
}

fn image(cid: &str) -> Option<ImageCandidate> {
    Some(ImageCandidate { cid: cid.to_string(), url: format!("https://cdn/{cid}") })
}

#[test]
fn excluded_self_labels_drop_the_post() {
    let excluded = labels(&["porn", "nudity"]);
    assert!(has_excluded_label(&labels(&["spoiler", "nudity"]), &excluded));
    assert!(!has_excluded_label(&labels(&["spoiler"]), &excluded));
    assert!(!has_excluded_label(&labels(&[]), &excluded));
    let none = skeet_candidate("at://p".to_string(), 7, &labels(&["porn"]), &excluded, vec![image("a")]);
    assert!(none.is_none());
}

#[test]
fn candidate_keeps_only_usable_images() {
    let excluded = labels(&["porn"]);
    let c = skeet_candidate("at://p".to_string(), 7, &labels(&[]), &excluded, vec![None, image("a"), None, image("b")])
        .expect("has usable images");
    assert_eq!(c.skeet_id, "at://p");
    assert_eq!(c.original_at, 7);
    let cids: Vec<&str> = c.images.iter().map(|i| i.cid.as_str()).collect();
    assert_eq!(cids, ["a", "b"]);
    assert!(skeet_candidate("at://p".to_string(), 7, &labels(&[]), &excluded, vec![None, None]).is_none());
    assert!(skeet_candidate("at://p".to_string(), 7, &labels(&[]), &excluded, vec![]).is_none());
}

#[test]
fn blocked_labels_decide_the_metadata_outcome() {
    assert!(matches!(check_metadata(vec![]), MetaFilterOutcome::Pass));
    match check_metadata(labels(&["porn", "!no-unauthenticated"])) {
        MetaFilterOutcome::Blocked(found) => assert_eq!(found, labels(&["porn", "!no-unauthenticated"])),
        _ => panic!("should block"),
    }
}

use bobby::prune::persister::{PruneStats, StatisticsPersister};

/// Drives the persister as the pipeline does: `record_every` / `flush_every`
/// say whether those intervals have elapsed at each message; a write fails
/// while `fail_next` is set, and succeeds into `written` otherwise.
struct Harness {
    persister: StatisticsPersister,
    written: Vec<Vec<PruneStats>>,
    fail_next: bool,
    clock: i64,
}

impl Harness {
    fn new(fail_next: bool) -> Self {
        Harness { persister: StatisticsPersister::new(0), written: Vec::new(), fail_next, clock: 0 }
    }

    fn flush(&mut self) {
        if !self.persister.has_pending() {
            return;
        }
        let written = !self.fail_next;
        self.fail_next = false;
        if written {
            self.written.push(self.persister.pending().clone());
        }
        assert_eq!(self.persister.finish_flush(written), written);
    }

    fn record(&mut self, counts: ContentCounts, record_due: bool, flush_due: bool) {
        self.clock += 10;
        let step = self.persister.record_counts(&counts, record_due, flush_due, self.clock);
        if step.flush {
            self.flush();
        }
    }

    fn totals(&self) -> (u64, u64, u64) {
        let all = self.written.iter().flatten();
        all.fold((0, 0, 0), |(s, i, v), r| (s + r.skeets_seen, i + r.images_examined, v + r.images_saved))
    }
}

#[test]
fn keeps_buffering_when_a_flush_fails() {
    let mut h = Harness::new(true);
    h.record(ContentCounts::post(3) + ContentCounts::saved(), true, true);
    h.record(ContentCounts::post(1), true, true);
    assert_eq!(h.written.len(), 1, "only the successful flush is recorded");
    let batch = &h.written[0];
    assert_eq!(batch.len(), 2, "the retained record rides the next batch");
    assert_eq!(h.totals(), (2, 4, 1));
}

#[test]
fn records_accumulated_counts_once_the_interval_elapses() {
    let mut h = Harness::new(false);
    h.record(ContentCounts::post(3) + ContentCounts::saved(), true, true);
    h.record(ContentCounts::post(1), true, true);
    assert_eq!(h.totals(), (2, 4, 1));
    let first = h.written[0][0];
    assert_eq!((first.interval_start, first.interval_end), (0, 10));
    assert_eq!((h.written[1][0].interval_start, h.written[1][0].interval_end), (10, 20));
}

#[test]
fn accumulates_without_recording_until_the_interval_elapses() {
    let mut h = Harness::new(false);
    h.record(ContentCounts::post(5), false, true);
    assert_eq!(h.totals(), (0, 0, 0));
    assert!(h.persister.pending().is_empty());
}

#[test]
fn buffers_records_until_flushed() {
    let mut h = Harness::new(false);
    h.record(ContentCounts::post(3), true, false);
    h.record(ContentCounts::post(2), true, false);
    assert_eq!(h.totals().1, 0, "nothing written before the flush");
    h.flush();
    assert_eq!(h.written.len(), 1);
    assert_eq!(h.totals(), (2, 5, 0));
}

#[test]
fn folds_only_fresh_saves_into_forwarded_counts() {
    // A fresh record (not in the store) is written; an existing one is skipped.
    let mut fresh = ContentCounts::post(3);
    fold_save(&mut fresh, save_outcome(Some(false), true));
    assert_eq!((fresh.posts, fresh.images, fresh.saved), (1, 3, 1));

    let mut existing = ContentCounts::post(1);
    fold_save(&mut existing, save_outcome(Some(true), true));
    assert_eq!((existing.posts, existing.saved), (1, 0));
}

#[test]
fn a_failed_existence_check_still_attempts_the_save() {
    assert!(should_write(None));
    assert!(should_write(Some(false)));
    assert!(!should_write(Some(true)));
    assert_eq!(save_outcome(None, true), SaveOutcome::Saved);
    assert_eq!(save_outcome(None, false), SaveOutcome::Skipped);
}

#[test]
fn the_resume_cursor_follows_the_last_event() {
    let mut cursor = FirehoseCursor::new();
    assert_eq!(cursor.resume_micros(), None);
    cursor.observe(1_111);
    assert_eq!(cursor.resume_micros(), None, "too early to rewind");
    cursor.observe(1_700_000_000_000_000);
    assert_eq!(cursor.resume_micros(), Some(1_700_000_000_000_000 - RECONNECT_REWIND_MICROS));
}

#[test]
fn summary_lists_counted_reasons_by_label() {
    let r = ReasonCounts { face_too_small: 3, too_much_text: 0, blocked_by_metadata: 1 };
    assert_eq!(reason_summary(&r), vec![(Rejection::BlockedByMetadata, 1), (Rejection::FaceTooSmall, 3)]);
    assert!(reason_summary(&ReasonCounts::zero()).is_empty());
}

#[test]
fn a_failed_write_keeps_the_records_for_the_next_flush() {
    let mut p = StatisticsPersister::new(0);
    assert!(!p.has_pending(), "nothing to write yet");
    p.record_counts(&ContentCounts::post(2), true, false, 10);
    assert!(p.has_pending());
    assert!(!p.finish_flush(false), "a failed write keeps the flush clock running");
    assert_eq!(p.pending().len(), 1);
    assert!(p.finish_flush(true), "a successful write restarts the flush clock");
    assert!(!p.has_pending());
}
