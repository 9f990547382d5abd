use bobby::catalog::PublishedListCatalog;
use bobby::fallback::{fallback_chain, FallbackScan};
use bobby::limit::{Limit, Unit, UnknownUnit};
use bobby::order::Order;
use bobby::published::{Dimensions, PublishedImage};
use bobby::published_list::PublishedList;
use bobby::publisher::{
    enrich, enrich_all, estimate_processed, existence_items, list_statistics_for, visible_entry_indices, widest_window_seconds,
    ExistenceResults, UrlStatus,
};
use bobby::source::{live_images, skeleton, skeleton_ids, FeedSkeleton};
use bobby::spec::{parse_spec, InvalidSpec};
use bobby::statistics::{ListStatistics, NextMatchPrediction};

#[test]
fn renders_with_original_unit() {
    assert_eq!(Limit::hours(48).to_string(), "48h");
    assert_eq!(Limit::days(7).to_string(), "7d");
    assert_eq!(Limit::days(365).to_string(), "365d");
}

#[test]
fn forty_eight_hours_is_not_normalised_to_days() {
    assert_ne!(Limit::hours(48).to_string(), Limit::days(2).to_string());
    assert_eq!(Limit::hours(48).window(), Limit::days(2).window());
}

#[test]
fn roundtrips_through_display() {
    for limit in [Limit::hours(48), Limit::days(7), Limit::days(365)] {
        let parsed: Limit = limit.to_string().parse().expect("roundtrip");
        assert_eq!(parsed, limit);
    }
}

#[test]
fn window_matches_unit() {
    assert_eq!(Limit::hours(48).window(), chrono::Duration::hours(48));
    assert_eq!(Limit::days(7).window(), chrono::Duration::days(7));
}

#[test]
fn rejects_malformed() {
    for bad in ["", "h", "d", "48", "48m", "0h", "-1h", "hh", "4.5d"] {
        assert!(bad.parse::<Limit>().is_err(), "should reject {bad:?}");
    }
}

#[test]
fn unit_try_from_recognises_known_suffixes() {
    assert_eq!(Unit::from_suffix('h').expect("hours"), Unit::Hours);
    assert_eq!(Unit::from_suffix('d').expect("days"), Unit::Days);
    assert!(Unit::from_suffix('m').is_err());
}

#[test]
fn weeks_and_years_render_and_parse() {
    assert_eq!(Limit::weeks(4).to_string(), "4w");
    assert_eq!(Limit::years(1).to_string(), "1y");
    assert_eq!("4w".parse::<Limit>().expect("weeks"), Limit::weeks(4));
    assert_eq!("1y".parse::<Limit>().expect("years"), Limit::years(1));
    assert_eq!(Limit::years(1).window(), Limit::days(365).window());
    assert_eq!(Limit::weeks(1).window(), Limit::days(7).window());
}

#[test]
fn window_seconds_per_unit() {
    assert_eq!(Limit::hours(2).window_seconds(), 7_200);
    assert_eq!(Limit::days(1).window_seconds(), 86_400);
    assert_eq!(Limit::weeks(1).window_seconds(), 604_800);
    assert_eq!(Limit::years(1).window_seconds(), 31_536_000);
}

#[test]
fn limit_parse_reports_the_input() {
    let err = Limit::parse("48m").expect_err("bad unit");
    assert_eq!(err.0, "48m");
    let ok = Limit::new("12d").expect("valid");
    assert_eq!((ok.count(), ok.unit()), (12, Unit::Days));
}

#[test]
fn unknown_unit_carries_the_suffix() {
    match Unit::from_suffix('x') {
        Err(UnknownUnit(c)) => assert_eq!(c, 'x'),
        Ok(u) => panic!("unexpected unit {u:?}"),
    }
    assert_eq!(Unit::Weeks.suffix(), 'w');
}

#[test]
fn order_names_roundtrip() {
    for order in [Order::Quality, Order::Recency] {
        let parsed: Order = order.as_str().parse().expect("roundtrip");
        assert_eq!(parsed, order);
    }
    assert_eq!(Order::Quality.as_str(), "quality");
    assert_eq!(Order::Recency.as_str(), "recency");
    let err = Order::parse("bogus").expect_err("unknown order");
    assert_eq!(err.0, "bogus");
}

#[test]
fn parses_valid_specs() {
    assert_eq!(parse_spec("quality-48h").expect("valid"), (Order::Quality, Limit::hours(48)));
    assert_eq!(parse_spec("recency-48h").expect("valid"), (Order::Recency, Limit::hours(48)));
    assert_eq!(parse_spec("quality-7d").expect("valid"), (Order::Quality, Limit::days(7)));
}

#[test]
fn rejects_missing_separator() {
    assert!(matches!(parse_spec("quality"), Err(InvalidSpec::Malformed(_))));
}

#[test]
fn rejects_bad_order_or_limit() {
    assert!(matches!(parse_spec("bogus-48h"), Err(InvalidSpec::Order(_))));
    assert!(matches!(parse_spec("quality-99x"), Err(InvalidSpec::Limit(_))));
}

#[test]
fn name_is_version_order_limit() {
    let list = PublishedList::new(Order::Recency, Limit::hours(48));
    assert_eq!(list.name(), "v3-recency-48h");
}

#[test]
fn name_components_parse_back() {
    let order: Order = "recency".parse().expect("order");
    let limit: Limit = "48h".parse().expect("limit");
    assert_eq!(PublishedList::new(order, limit).name(), "v3-recency-48h");
}

#[test]
fn building_key_is_distinct_from_name() {
    let list = PublishedList::new(Order::Recency, Limit::days(7));
    assert_ne!(list.building_key(), list.name());
}

#[test]
fn list_keys_hang_off_the_name() {
    let list = PublishedList::new(Order::Quality, Limit::days(7));
    assert_eq!(list.name(), "v3-quality-7d");
    assert!(list.refreshed_at_key().starts_with("v3-quality-7d"));
    assert!(list.statistics_key().starts_with("v3-quality-7d"));
    assert_ne!(list.refreshed_at_key(), list.statistics_key());
    assert_eq!(list.spec(), (Order::Quality, Limit::days(7)));
}

#[test]
fn list_name_roundtrips_through_from_name() {
    for (order, limit) in [
        (Order::Quality, Limit::hours(48)),
        (Order::Recency, Limit::weeks(4)),
        (Order::Quality, Limit::years(1)),
    ] {
        let list = PublishedList::new(order, limit);
        assert_eq!(PublishedList::from_name(&list.name()).expect("parse"), list);
    }
    assert!(PublishedList::from_name("v2-quality-48h").is_err());
    assert!(PublishedList::from_name("v3-quality").is_err());
    assert!(PublishedList::from_name("v3-bogus-48h").is_err());
}

#[test]
fn key_is_versioned() {
    assert_eq!(PublishedListCatalog::key(), "v3-feed-catalog");
}

#[test]
fn catalog_members_roundtrip_and_skip_strangers() {
    let lists = vec![
        PublishedList::new(Order::Quality, Limit::hours(48)),
        PublishedList::new(Order::Recency, Limit::days(7)),
    ];
    let mut names = PublishedListCatalog::member_names(&lists);
    assert_eq!(names, vec!["v3-quality-48h".to_string(), "v3-recency-7d".to_string()]);
    names.push("v1-old-list".to_string());
    assert_eq!(PublishedListCatalog::lists_from_members(&names), lists);
}

#[test]
fn chain_starts_at_preferred_and_widens() {
    let available = vec![
        (Order::Recency, Limit::hours(48)),
        (Order::Quality, Limit::years(1)),
        (Order::Quality, Limit::hours(48)),
        (Order::Quality, Limit::weeks(4)),
        (Order::Quality, Limit::days(7)),
    ];
    assert_eq!(
        fallback_chain(&available, (Order::Quality, Limit::hours(48))),
        vec![
            (Order::Quality, Limit::hours(48)),
            (Order::Quality, Limit::days(7)),
            (Order::Quality, Limit::weeks(4)),
            (Order::Quality, Limit::years(1)),
        ]
    );
}

#[test]
fn chain_starts_at_next_oldest_when_preferred_missing() {
    let available = vec![(Order::Quality, Limit::days(7)), (Order::Quality, Limit::weeks(4))];
    assert_eq!(
        fallback_chain(&available, (Order::Quality, Limit::hours(48))),
        vec![(Order::Quality, Limit::days(7)), (Order::Quality, Limit::weeks(4))]
    );
}

#[test]
fn chain_excludes_newer_than_preferred_and_other_orders() {
    let available = vec![
        (Order::Quality, Limit::hours(48)),
        (Order::Quality, Limit::weeks(4)),
        (Order::Recency, Limit::years(1)),
    ];
    assert_eq!(
        fallback_chain(&available, (Order::Quality, Limit::weeks(4))),
        vec![(Order::Quality, Limit::weeks(4))]
    );
}

#[test]
fn chain_empty_when_no_same_order_is_wide_enough() {
    let available = vec![(Order::Quality, Limit::hours(48))];
    assert!(fallback_chain(&available, (Order::Quality, Limit::weeks(4))).is_empty());
}

#[test]
fn chain_puts_preferred_ahead_of_equal_windows_and_drops_repeats() {
    let available = vec![
        (Order::Quality, Limit::days(7)),
        (Order::Quality, Limit::weeks(1)),
        (Order::Quality, Limit::days(7)),
        (Order::Quality, Limit::hours(168)),
    ];
    assert_eq!(
        fallback_chain(&available, (Order::Quality, Limit::days(7))),
        vec![
            (Order::Quality, Limit::days(7)),
            (Order::Quality, Limit::weeks(1)),
            (Order::Quality, Limit::hours(168)),
        ]
    );
    let repeated = vec![(Order::Recency, Limit::days(2)), (Order::Recency, Limit::days(2))];
    assert_eq!(
        fallback_chain(&repeated, (Order::Recency, Limit::hours(1))),
        vec![(Order::Recency, Limit::days(2))]
    );
}

#[test]
fn chain_tries_preferred_before_an_earlier_equal_window() {
    let available = vec![(Order::Quality, Limit::days(2)), (Order::Quality, Limit::hours(48))];
    assert_eq!(
        fallback_chain(&available, (Order::Quality, Limit::hours(48))),
        vec![(Order::Quality, Limit::hours(48)), (Order::Quality, Limit::days(2))]
    );
    assert_eq!(
        fallback_chain(&available, (Order::Quality, Limit::days(2))),
        vec![(Order::Quality, Limit::days(2)), (Order::Quality, Limit::hours(48))]
    );
}

fn preferred() -> (Order, Limit) {
    (Order::Quality, Limit::hours(48))
}

fn next() -> (Order, Limit) {
    (Order::Quality, Limit::days(7))
}

fn widest() -> (Order, Limit) {
    (Order::Quality, Limit::weeks(4))
}

/// A distinct refresh time per spec, so the winning list is identifiable.
fn marker(spec: (Order, Limit)) -> i64 {
    (spec.1.window_seconds() / 3600) as i64 * 1_000_000
}

/// Walk the fallback chain over lists of which only `populated` hold items,
/// the way the fallback source does: the first non-empty list wins, else the
/// last empty one.
fn pick(preferred: (Order, Limit), specs: Vec<(Order, Limit)>, populated: &[(Order, Limit)]) -> FeedSkeleton {
    let chain = fallback_chain(&specs, preferred);
    let mut scan = FallbackScan::new();
    for spec in chain {
        let skeet_ids = if populated.contains(&spec) {
            vec!["at://did:example:test/app.bsky.feed.post/rkey".to_string()]
        } else {
            vec![]
        };
        let empty = skeet_ids.is_empty();
        let reading = FeedSkeleton { skeet_ids, refreshed_at: Some(marker(spec)) };
        if let Some(found) = scan.offer(reading, empty) {
            return found;
        }
    }
    scan.finish().unwrap_or(FeedSkeleton { skeet_ids: vec![], refreshed_at: None })
}

#[test]
fn populated_preferred_wins() {
    let skeleton = pick(preferred(), vec![preferred(), next(), widest()], &[preferred(), next()]);
    assert_eq!(skeleton.refreshed_at, Some(marker(preferred())));
}

#[test]
fn empty_preferred_falls_back_to_next_non_empty() {
    let skeleton = pick(preferred(), vec![preferred(), next(), widest()], &[widest()]);
    assert_eq!(skeleton.refreshed_at, Some(marker(widest())));
}

#[test]
fn missing_preferred_starts_at_next_oldest() {
    let skeleton = pick(preferred(), vec![next(), widest()], &[next()]);
    assert_eq!(skeleton.refreshed_at, Some(marker(next())));
}

#[test]
fn all_empty_returns_renderable_empty() {
    let skeleton = pick(preferred(), vec![preferred(), next(), widest()], &[]);
    assert!(skeleton.skeet_ids.is_empty());
    assert_eq!(skeleton.refreshed_at, Some(marker(widest())));
}

#[test]
fn empty_chain_returns_renderable_empty() {
    let skeleton = pick(preferred(), vec![(Order::Recency, Limit::years(1))], &[]);
    assert!(skeleton.skeet_ids.is_empty());
    assert_eq!(skeleton.refreshed_at, None);
}

fn image(skeet: &str, url: &str) -> PublishedImage {
    PublishedImage::unprobed(url.to_string(), format!("v3:{url}"), skeet.to_string())
}

#[test]
fn unprobed_defaults_to_present_with_unknown_dimensions() {
    let p = image("at://s/1", "https://cdn/1");
    assert!(p.skeet_id_exists);
    assert!(p.image_url_exists);
    assert!(p.image_url_dimensions.is_none());
    assert!(p.is_live());
}

#[test]
fn skeleton_dedups_live_skeets_in_published_order() {
    let mut dead = image("at://s/2", "https://cdn/dead");
    dead.image_url_exists = false;
    let published = vec![
        image("at://s/1", "https://cdn/a"),
        dead,
        image("at://s/1", "https://cdn/b"),
        image("at://s/3", "https://cdn/c"),
        image("at://s/2", "https://cdn/d"),
    ];
    assert_eq!(
        skeleton_ids(&published),
        vec!["at://s/1".to_string(), "at://s/3".to_string(), "at://s/2".to_string()]
    );
    let s = skeleton(&published, Some(42));
    assert_eq!(s.skeet_ids.len(), 3);
    assert_eq!(s.refreshed_at, Some(42));
    let live = live_images(published);
    let urls: Vec<&str> = live.iter().map(|p| p.image_url.as_str()).collect();
    assert_eq!(urls, ["https://cdn/a", "https://cdn/b", "https://cdn/c", "https://cdn/d"]);
}

#[test]
fn estimate_processed_inverts_the_save_rate() {
    assert_eq!(estimate_processed(43243), 21_621_500);
    assert_eq!(estimate_processed(0), 0);
    assert_eq!(estimate_processed(1), 500);
}

#[test]
fn estimate_processed_saturates() {
    assert_eq!(estimate_processed(usize::MAX), u64::MAX);
}

#[test]
fn enrich_overwrites_only_what_the_check_concluded() {
    let results = ExistenceResults {
        skeets: vec![("at://s/1".to_string(), false)],
        images: vec![(
            "https://cdn/2".to_string(),
            UrlStatus { exists: true, dimensions: Some(Dimensions { width: 640, height: 480 }) },
        )],
    };
    let mut a = image("at://s/1", "https://cdn/1");
    enrich(&mut a, &results);
    assert!(!a.skeet_id_exists);
    assert!(a.image_url_exists);
    assert_eq!(a.image_url_dimensions, None);

    let mut pairs = vec![image("at://s/9", "https://cdn/2"), image("at://s/8", "https://cdn/8")];
    enrich_all(&mut pairs, &results);
    assert!(pairs[0].skeet_id_exists);
    assert_eq!(pairs[0].image_url_dimensions, Some(Dimensions { width: 640, height: 480 }));
    assert_eq!(pairs[1], image("at://s/8", "https://cdn/8"));
}

#[test]
fn existence_items_cover_every_list_in_order() {
    let lists = vec![
        vec![image("at://s/1", "https://cdn/1"), image("at://s/2", "https://cdn/2")],
        vec![],
        vec![image("at://s/1", "https://cdn/1")],
    ];
    assert_eq!(
        existence_items(&lists),
        vec![
            ("at://s/1".to_string(), "https://cdn/1".to_string()),
            ("at://s/2".to_string(), "https://cdn/2".to_string()),
            ("at://s/1".to_string(), "https://cdn/1".to_string()),
        ]
    );
}

#[test]
fn visible_entries_keep_the_first_eligible_per_skeet() {
    let ids: Vec<String> = ["a", "b", "a", "c", "b", "d"].iter().map(|s| s.to_string()).collect();
    let eligible = vec![false, true, true, true, true, false];
    assert_eq!(visible_entry_indices(&ids, &eligible), vec![1, 2, 3]);
    assert!(visible_entry_indices(&[].to_vec(), &[].to_vec()).is_empty());
}

#[test]
fn list_statistics_carry_their_parts() {
    let stats = ListStatistics::new(10, 20, 500, 3, 2);
    assert_eq!((stats.interval_start, stats.interval_end), (10, 20));
    assert_eq!((stats.examined, stats.found, stats.exists), (500, 3, 2));
    assert_eq!(stats.next_match_prediction, None);
    let p = NextMatchPrediction { lower: 1, middle: 2, upper: 3 };
    let with = stats.with_next_match_prediction(Some(p));
    assert_eq!(with.next_match_prediction, Some(p));
    assert_eq!(with.examined, 500);
}

#[test]
fn list_statistics_count_found_and_live() {
    let mut dead = image("at://s/2", "https://cdn/2");
    dead.skeet_id_exists = false;
    let pairs = vec![image("at://s/1", "https://cdn/1"), dead, image("at://s/3", "https://cdn/3")];
    let stats = list_statistics_for(100, 200, 9_000, &pairs);
    assert_eq!(stats, ListStatistics::new(100, 200, 9_000, 3, 2));
}

#[test]
fn the_fetch_covers_the_widest_window() {
    let specs = vec![
        (Order::Quality, Limit::hours(48)),
        (Order::Recency, Limit::weeks(4)),
        (Order::Quality, Limit::days(7)),
    ];
    assert_eq!(widest_window_seconds(&specs), 4 * 604_800);
    assert_eq!(widest_window_seconds(&vec![]), 0);
}

#[test]
fn transient_failures_are_retried_three_times_with_doubling_waits() {
    let mut budget = bobby::retry::RetryBudget::new();
    assert_eq!(budget.after_failure(true), Some(200));
    assert_eq!(budget.after_failure(true), Some(400));
    assert_eq!(budget.after_failure(true), Some(800));
    assert_eq!(budget.after_failure(true), None, "the fourth failure is final");
    assert_eq!(budget.after_failure(true), None);
}

#[test]
fn a_failure_that_is_not_transient_is_final_at_once() {
    let mut budget = bobby::retry::RetryBudget::new();
    assert_eq!(budget.after_failure(false), None);
    assert_eq!(budget.after_failure(true), Some(200), "a final failure spends nothing");
}
