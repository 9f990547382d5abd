use bobby::refine::batch::{Batch, Original, PollingBatchSource, PollingCursor};
use bobby::refine::metrics::LiveRefineMetrics;
use bobby::refine::refining::{extract_json, json_span, rejects_custom_temperature, RefineError};
use bobby::refine::tick::{ErrorCounts, RunningTotals, ScoreOutcomes, ScoringFailure, TickAccumulator};

fn original(id: &str, discovered_at: i64) -> Original {
    Original {
        image_id: id.to_string(),
        discovered_at,
        image: image::DynamicImage::new_rgb8(1, 1),
    }
}

const T_OLD: i64 = 1_775_001_600_000_000;
const T_MID: i64 = 1_776_211_200_000_000;
const T_NEW: i64 = 1_777_248_000_000_000;

#[test]
fn batch_owns_discovered_at_per_candidate() {
    let batch = Batch::from_originals(vec![original("d1", T_MID)]);
    assert_eq!(batch.len(), 1);
    assert_eq!(batch.discovered_at(&"d1".to_string()), Some(T_MID));
    assert_eq!(batch.discovered_at(&"other".to_string()), None);
}

#[test]
fn a_repeated_id_keeps_both_images_and_its_last_time() {
    let batch = Batch::from_originals(vec![original("a", T_OLD), original("b", T_MID), original("a", T_NEW)]);
    assert_eq!(batch.len(), 3);
    assert_eq!(batch.ids(), &vec!["a".to_string(), "b".to_string(), "a".to_string()]);
    assert_eq!(batch.discovered_at(&"a".to_string()), Some(T_NEW));
    assert!(!batch.is_empty());
    assert!(Batch::new().is_empty());
}

#[test]
fn commit_fully_completed_batch_advances_to_max() {
    let mut first = Batch::from_originals(vec![original("ok_old", T_OLD), original("ok_new", T_NEW)]);
    assert_eq!(first.len(), 2);
    first.mark_completed(&"ok_old".to_string());
    first.mark_completed(&"ok_new".to_string());
    let mut cursor = PollingCursor::new();
    cursor.commit(first);
    assert_eq!(cursor.last_discovered_at(), Some(T_NEW), "fully-completed → watermark = max of batch");
}

#[test]
fn commit_with_straggler_advances_to_oldest_uncompleted() {
    let mut first = Batch::from_originals(vec![
        original("s_old", T_OLD),
        original("s_mid", T_MID),
        original("s_new", T_NEW),
    ]);
    assert_eq!(first.len(), 3);
    first.mark_completed(&"s_old".to_string());
    first.mark_completed(&"s_new".to_string());
    let mut cursor = PollingCursor::new();
    cursor.commit(first);
    assert_eq!(cursor.last_discovered_at(), Some(T_MID), "watermark = min(uncompleted) so the straggler re-appears");
}

#[test]
fn commit_is_monotonic_with_constructed_batches() {
    let mut cursor = PollingCursor::new();
    let mut b1 = Batch::with_entry("late".to_string(), T_NEW);
    b1.mark_completed(&"late".to_string());
    cursor.commit(b1);
    assert_eq!(cursor.last_discovered_at(), Some(T_NEW));

    let b2 = Batch::with_entry("early".to_string(), T_OLD);
    cursor.commit(b2);
    assert_eq!(cursor.last_discovered_at(), Some(T_NEW), "earlier watermark must not roll the cutoff back");
}

#[test]
fn an_empty_batch_leaves_the_cursor_alone() {
    let mut cursor = PollingCursor::new();
    cursor.commit(Batch::new());
    assert_eq!(cursor.last_discovered_at(), None);
    assert_eq!(Batch::new().watermark(), None);
}

#[test]
fn each_id_receives_its_own_score_under_reversed_completion_order() {
    let mut batch = Batch::from_originals(vec![original("a", 1), original("b", 2), original("c", 3), original("d", 4)]);
    let images = batch.take_images();
    assert_eq!(images.len(), 4);
    // Results arrive out of order; pair each with its id before settling.
    let arrived: Vec<(String, Result<u32, ()>)> =
        vec![("d".to_string(), Ok(40)), ("c".to_string(), Ok(30)), ("b".to_string(), Err(())), ("a".to_string(), Ok(10))];
    let aligned: Vec<Option<Result<u32, ()>>> = batch
        .ids()
        .iter()
        .map(|id| arrived.iter().find(|(k, _)| k == id).map(|(_, r)| *r))
        .collect();
    let outcomes = batch.settle(aligned);
    assert_eq!(
        outcomes.successes,
        vec![("a".to_string(), 10), ("c".to_string(), 30), ("d".to_string(), 40)]
    );
    assert_eq!(outcomes.failures, vec![("b".to_string(), ())]);
    assert_eq!(batch.watermark(), Some(2));
}

#[test]
fn settling_skips_a_repeated_id_without_a_result() {
    let mut batch = Batch::from_originals(vec![original("a", 1), original("a", 5)]);
    let outcomes = batch.settle(vec![Some(Ok::<u8, ()>(7)), None]);
    assert_eq!(outcomes.successes, vec![("a".to_string(), 7)]);
    assert!(outcomes.failures.is_empty());
    assert_eq!(batch.watermark(), Some(5));
}

#[test]
fn record_outcomes_pushes_successes_with_supplied_model_version() {
    let mut acc: TickAccumulator<f32> = TickAccumulator::new();
    let v = "model@v1".to_string();
    let outcomes = ScoreOutcomes::<f32, ScoringFailure> {
        successes: vec![("id1".to_string(), 0.4), ("id2".to_string(), 0.7)],
        failures: vec![],
    };
    acc.record_outcomes(outcomes, &v);
    assert_eq!(acc.pending_scores.len(), 2);
    for (_, _, mv) in &acc.pending_scores {
        assert_eq!(*mv, v);
    }
    assert!(acc.errors.is_empty());
}

#[test]
fn record_outcomes_bumps_fallback_count_for_each_failure() {
    let mut acc: TickAccumulator<f32> = TickAccumulator::new();
    let outcomes = ScoreOutcomes::<f32, ScoringFailure> {
        successes: vec![],
        failures: vec![
            ("id1".to_string(), ScoringFailure::FallbackAfterRetries),
            ("id2".to_string(), ScoringFailure::FallbackAfterRetries),
            ("id3".to_string(), ScoringFailure::FallbackAfterRetries),
        ],
    };
    acc.record_outcomes(outcomes, &"model@v1".to_string());
    assert_eq!(acc.errors.get("FallbackAfterRetries"), Some(3));
    assert!(acc.pending_scores.is_empty());
}

#[test]
fn record_outcomes_increments_existing_error_counts_rather_than_replacing() {
    let mut acc: TickAccumulator<f32> = TickAccumulator::new();
    acc.errors.set("FallbackAfterRetries", 3);
    let outcomes = ScoreOutcomes::<f32, ScoringFailure> {
        successes: vec![],
        failures: vec![("id1".to_string(), ScoringFailure::FallbackAfterRetries)],
    };
    acc.record_outcomes(outcomes, &"model@v1".to_string());
    assert_eq!(acc.errors.get("FallbackAfterRetries"), Some(4));
}

#[test]
fn merge_errors_into_adds_per_reason_counts_to_existing_totals() {
    let mut acc: TickAccumulator<f32> = TickAccumulator::new();
    acc.errors.set("Completion", 2);
    acc.errors.set("ParseScore", 1);
    let mut totals = ErrorCounts::new();
    totals.set("Completion", 5);
    acc.merge_errors_into(&mut totals);
    assert_eq!(totals.get("Completion"), Some(7));
    assert_eq!(totals.get("ParseScore"), Some(1));
}

#[test]
fn remaining_subtracts_successful_scores_from_unscored_count() {
    let mut acc: TickAccumulator<f32> = TickAccumulator::new();
    let v = "model@v1".to_string();
    for i in 0..3u8 {
        acc.pending_scores.push((format!("id{i}"), 0.5, v.clone()));
    }
    assert_eq!(acc.remaining(10), 7);
}

#[test]
fn absorb_tick_adds_unscored_count_to_running_total() {
    let mut totals = RunningTotals::new();
    totals.unscored = 100;
    let acc: TickAccumulator<f32> = TickAccumulator::new();
    totals.absorb_tick(7, &acc);
    assert_eq!(totals.unscored, 107);
}

#[test]
fn absorb_tick_adds_pending_scores_count_to_running_total() {
    let mut totals = RunningTotals::new();
    totals.scored = 50;
    let mut acc: TickAccumulator<f32> = TickAccumulator::new();
    let v = "model@v1".to_string();
    for i in 0..4u8 {
        acc.pending_scores.push((format!("id{i}"), 0.5, v.clone()));
    }
    totals.absorb_tick(0, &acc);
    assert_eq!(totals.scored, 54);
}

#[test]
fn absorb_tick_merges_per_reason_errors_into_running_total() {
    let mut totals = RunningTotals::new();
    totals.errors.set("Completion", 1);
    let mut acc: TickAccumulator<f32> = TickAccumulator::new();
    acc.errors.set("Completion", 2);
    acc.errors.set("ParseScore", 5);
    totals.absorb_tick(0, &acc);
    assert_eq!(totals.errors.get("Completion"), Some(3));
    assert_eq!(totals.errors.get("ParseScore"), Some(5));
}

#[test]
fn error_counts_add_and_list_each_reason_once() {
    let mut c = ErrorCounts::new();
    c.add("Completion", 2);
    c.add("ParseScore", 1);
    c.add("Completion", 3);
    assert_eq!(c.get("Completion"), Some(5));
    assert_eq!(c.entries().len(), 2);
    assert_eq!(c.get("ImageEncoding"), None);
}

fn errors(pairs: &[(&str, u64)]) -> ErrorCounts {
    let mut c = ErrorCounts::new();
    for (k, v) in pairs {
        c.set(k, *v);
    }
    c
}

#[test]
fn unscored_and_scored_counters_advance_only_on_increase() {
    let mut m = LiveRefineMetrics::new();
    let none = ErrorCounts::new();
    let ticks = [m.emit(5, 3, &none), m.emit(5, 3, &none), m.emit(8, 5, &none)];
    assert_eq!(ticks.iter().map(|e| e.unscored).sum::<u64>(), 8);
    assert_eq!(ticks.iter().map(|e| e.scored).sum::<u64>(), 5);
    assert_eq!((ticks[1].unscored, ticks[1].scored), (0, 0));
}

#[test]
fn error_counter_emits_per_reason_delta() {
    let mut m = LiveRefineMetrics::new();
    let first = m.emit(0, 0, &errors(&[("Completion", 2), ("ParseScore", 1)]));
    let second = m.emit(0, 0, &errors(&[("Completion", 2), ("ParseScore", 1)]));
    let third = m.emit(0, 0, &errors(&[("Completion", 5), ("ParseScore", 1)]));
    let total = |reason: &str| -> u64 {
        [&first, &second, &third]
            .iter()
            .flat_map(|e| e.errors.iter())
            .filter(|(k, _)| k == reason)
            .map(|(_, v)| *v)
            .sum()
    };
    assert_eq!(total("Completion"), 5);
    assert_eq!(total("ParseScore"), 1);
    assert!(second.errors.is_empty());
    assert_eq!(third.errors, vec![("Completion".to_string(), 3)]);
}

#[test]
fn completion_errors_are_transient() {
    assert!(RefineError::Completion("net down".into()).is_transient());
}

#[test]
fn parse_and_encoding_errors_are_not_transient() {
    assert!(!RefineError::ParseScore("garbage".into()).is_transient());
    let img_err = image::ImageError::Limits(image::error::LimitError::from_kind(
        image::error::LimitErrorKind::DimensionError,
    ));
    assert!(!RefineError::ImageEncoding(img_err).is_transient());
}

#[test]
fn failures_are_labelled_by_kind() {
    assert_eq!(RefineError::Completion(String::new()).as_label(), "Completion");
    assert_eq!(RefineError::ParseScore(String::new()).as_label(), "ParseScore");
    assert_eq!(ScoringFailure::FallbackAfterRetries.as_label(), "FallbackAfterRetries");
}

#[test]
fn json_is_cut_from_the_first_open_to_the_last_close_brace() {
    assert_eq!(extract_json("```json\n{\"score\": 0.42}\n```"), "{\"score\": 0.42}");
    assert_eq!(extract_json("0.05"), "0.05");
    assert_eq!(extract_json("note {\"a\": {\"b\": 1}} end"), "{\"a\": {\"b\": 1}}");
    assert_eq!(json_span("x}y{"), (3, 2));
    assert_eq!(json_span("é{1}"), (1, 4));
}

#[test]
fn temperature_is_left_out_for_gpt5_reasoning_models_only() {
    for model in ["gpt-4o", "gpt-4o-mini", "gpt-4.1-mini", "gpt-4.1-nano", "gpt-5-chat-latest", "GPT-5-Chat"] {
        assert!(!rejects_custom_temperature(model), "{model} accepts a temperature");
    }
    for model in ["gpt-5", "gpt-5-mini", "gpt-5-nano", "GPT-5-Mini"] {
        assert!(rejects_custom_temperature(model), "{model} rejects a temperature");
    }
}

#[test]
fn cold_start_always_fetches() {
    let source = PollingBatchSource::new();
    assert!(source.needs_scan("v1"));
    assert_eq!(source.last_discovered_at(), None);
}

#[test]
fn unchanged_version_returns_empty_batch() {
    let mut source = PollingBatchSource::new();
    assert!(source.needs_scan("v1"));
    source.scanned("v1");
    assert!(!source.needs_scan("v1"), "expected early-abort on unchanged version");
}

#[test]
fn changed_version_fetches_again() {
    let mut source = PollingBatchSource::new();
    source.scanned("v1");
    assert!(source.needs_scan("v2"));
    source.scanned("v2");
    assert!(!source.needs_scan("v2"));
}

#[test]
fn straggler_reappears_on_next_fetch_after_commit() {
    let mut source = PollingBatchSource::new();
    source.scanned("v1");
    let mut first = Batch::from_originals(vec![original("re_mid", T_MID), original("re_new", T_NEW)]);
    first.mark_completed(&"re_new".to_string());
    source.commit(first);
    // The next scan starts at the straggler's discovery time, inclusive.
    assert_eq!(source.last_discovered_at(), Some(T_MID));
    assert!(source.needs_scan("v2"));
}

#[test]
fn defaults_start_empty() {
    let totals = RunningTotals::default();
    assert_eq!((totals.unscored, totals.scored), (0, 0));
    assert!(totals.errors.is_empty());
    let acc: TickAccumulator<f32> = TickAccumulator::default();
    assert!(acc.pending_scores.is_empty());
    assert_eq!(acc.remaining(5), 5);
}
