use bobby::order::Order;
use bobby::ranking::{published_order, ranks_before, RankKey};

const HOUR: i64 = 3_600_000_000;
const NOW: i64 = 1_780_000_000_000_000;

fn recent(hours_ago: i64, tie: u64) -> RankKey {
    RankKey { original_at: NOW - hours_ago * HOUR, band: None, score: None, tie }
}

fn quality(band: Option<u64>, score: Option<u64>, tie: u64) -> RankKey {
    RankKey { original_at: NOW - HOUR, band, score, tie }
}

#[test]
fn recency_puts_the_newest_first() {
    let entries = vec![recent(10, 0), recent(1, 1), recent(5, 2)];
    assert_eq!(published_order(&entries, NOW - 48 * HOUR, Order::Recency), vec![1, 2, 0]);
}

#[test]
fn entries_before_the_cutoff_are_dropped() {
    let entries = vec![recent(10, 0), recent(60, 1)];
    assert_eq!(published_order(&entries, NOW - 48 * HOUR, Order::Recency), vec![0]);
    assert!(published_order(&vec![], NOW, Order::Quality).is_empty());
}

#[test]
fn band_outranks_score() {
    // A higher band with a lower score still leads.
    let entries = vec![quality(Some(2), Some(90), 0), quality(Some(3), Some(10), 1)];
    assert_eq!(published_order(&entries, 0, Order::Quality), vec![1, 0]);
}

#[test]
fn within_a_band_the_higher_score_leads() {
    let entries = vec![quality(Some(2), Some(60), 0), quality(Some(2), Some(70), 1)];
    assert_eq!(published_order(&entries, 0, Order::Quality), vec![1, 0]);
}

#[test]
fn missing_band_or_score_ranks_last() {
    let entries = vec![quality(None, Some(99), 0), quality(Some(0), None, 1), quality(Some(0), Some(1), 2)];
    assert_eq!(published_order(&entries, 0, Order::Quality), vec![2, 1, 0]);
}

#[test]
fn ties_break_by_id_order_whatever_the_input_order() {
    let a = quality(Some(3), Some(90), 0);
    let b = quality(Some(3), Some(90), 1);
    let forward = published_order(&vec![a, b], 0, Order::Quality);
    let reversed = published_order(&vec![b, a], 0, Order::Quality);
    assert_eq!(forward, vec![0, 1]);
    assert_eq!(reversed, vec![1, 0]);
    let ra = recent(1, 5);
    let rb = recent(1, 7);
    assert_eq!(published_order(&vec![rb, ra], 0, Order::Recency), vec![1, 0]);
}

#[test]
fn equal_ranks_keep_input_order() {
    let x = quality(Some(1), Some(1), 4);
    assert_eq!(published_order(&vec![x, x, x], 0, Order::Quality), vec![0, 1, 2]);
    assert!(!ranks_before(Order::Quality, &x, &x));
    assert!(ranks_before(Order::Recency, &recent(1, 0), &recent(2, 0)));
}

#[test]
fn quality_then_recency_puts_newer_first_within_a_band() {
    let old_high = RankKey { original_at: NOW - 10 * HOUR, band: Some(3), score: Some(99), tie: 0 };
    let new_high = RankKey { original_at: NOW - HOUR, band: Some(3), score: Some(1), tie: 1 };
    let newest_low = RankKey { original_at: NOW, band: Some(1), score: Some(99), tie: 2 };
    let entries = vec![old_high, newest_low, new_high];
    assert_eq!(published_order(&entries, 0, Order::QualityRecency), vec![2, 0, 1]);
    assert_eq!(published_order(&entries, 0, Order::Quality), vec![0, 2, 1]);
}

fn presented_ties(entries: &Vec<RankKey>, order: Order) -> Vec<u64> {
    published_order(entries, NOW - 48 * HOUR, order).into_iter().map(|i| entries[i].tie).collect()
}

#[test]
fn a_permuted_input_presents_the_same_pairs_even_with_repeated_ties() {
    // The same skeet/image pair (tie 4) appears twice, once with a band and
    // once without; recency ignores the band, so the two rank equal.
    let mut a = recent(2, 4);
    a.band = Some(3);
    let b = recent(2, 4);
    let entries = vec![recent(1, 7), a, recent(5, 1), b, recent(2, 2), recent(70, 9)];
    let mut permuted = entries.clone();
    permuted.reverse();
    permuted.swap(0, 3);
    for order in [Order::Recency, Order::Quality, Order::QualityRecency] {
        assert_eq!(presented_ties(&entries, order), presented_ties(&permuted, order));
    }
    assert_eq!(presented_ties(&entries, Order::Recency), vec![7, 2, 4, 4, 1]);
}
