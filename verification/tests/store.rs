use bobby::catalog::PublishedListCatalog;
use bobby::limit::Limit;
use bobby::order::Order;
use bobby::published_list::PublishedList;
use bobby::source::{RedisFallbackReader, RedisFeedSource};
use bobby::store_commands::StoreCommand;

fn describe(cs: &[StoreCommand]) -> Vec<String> {
    cs.iter()
        .map(|c| match c {
            StoreCommand::Del(k) => format!("DEL {k}"),
            StoreCommand::RPush(k, vs) => format!("RPUSH {k} {}", vs.join(",")),
            StoreCommand::Rename(a, b) => format!("RENAME {a} {b}"),
            StoreCommand::SetText(k, v) => format!("SET {k} {v}"),
            StoreCommand::SAdd(k, vs) => format!("SADD {k} {}", vs.join(",")),
        })
        .collect()
}

#[test]
fn replace_builds_aside_then_swaps_and_stamps_last() {
    let list = PublishedList::new(Order::Recency, Limit::hours(48));
    let cs = list.replace_commands(vec!["a".to_string(), "b".to_string()], "2026-04-20T00:00:00+00:00".to_string());
    assert_eq!(
        describe(&cs),
        vec![
            "DEL v3-recency-48h:building",
            "RPUSH v3-recency-48h:building a,b",
            "RENAME v3-recency-48h:building v3-recency-48h",
            "SET v3-recency-48h:refreshed-at 2026-04-20T00:00:00+00:00",
        ]
    );
}

#[test]
fn empty_replace_clears_the_list() {
    let list = PublishedList::new(Order::Quality, Limit::days(7));
    let cs = list.replace_commands(vec![], "t".to_string());
    assert_eq!(
        describe(&cs),
        vec!["DEL v3-quality-7d:building", "DEL v3-quality-7d", "SET v3-quality-7d:refreshed-at t"]
    );
}

#[test]
fn catalog_write_replaces_the_set() {
    let lists = vec![
        PublishedList::new(Order::Quality, Limit::weeks(4)),
        PublishedList::new(Order::Recency, Limit::hours(48)),
    ];
    assert_eq!(
        describe(&PublishedListCatalog::write_commands(&lists)),
        vec!["DEL v3-feed-catalog", "SADD v3-feed-catalog v3-quality-4w,v3-recency-48h"]
    );
    assert_eq!(describe(&PublishedListCatalog::write_commands(&vec![])), vec!["DEL v3-feed-catalog"]);
}

#[test]
fn sources_carry_their_server_and_list() {
    let source = RedisFeedSource::new("redis://localhost".to_string(), Order::Quality, Limit::days(7));
    assert_eq!(source.url(), "redis://localhost");
    assert_eq!(source.list(), PublishedList::new(Order::Quality, Limit::days(7)));

    let reader = RedisFallbackReader::new("rediss://host".to_string(), (Order::Recency, Limit::hours(48)));
    assert_eq!(reader.url(), "rediss://host");
    assert_eq!(reader.examined_count_reader().url(), "rediss://host");
    assert_eq!(reader.examined_count_reader().list().name(), "v3-recency-48h");
    let other = reader.source_for((Order::Quality, Limit::years(1)));
    assert_eq!(other.list().name(), "v3-quality-1y");
    assert_eq!(other.url(), "rediss://host");
}
