use rss_core::articles::{merge_new, sort_newest_first, ArticleCache, MAX_PER_FEED};
use rss_core::feed::FeedEntry;
use rss_core::time::Timestamp;

fn entry(feed: &str, guid: &str, secs: Option<i64>) -> FeedEntry {
    FeedEntry {
        feed_id: feed.to_string(),
        title: format!("title of {}", guid),
        summary: None,
        url: format!("http://e/{}", guid),
        published_at: secs.map(|s| Timestamp { secs: s, nanos: 0 }),
        guid: Some(guid.to_string()),
        author: None,
        category: None,
        content_html: None,
        image_url: None,
    }
}

fn guids(entries: &[FeedEntry]) -> Vec<String> {
    entries.iter().map(|e| e.guid.clone().unwrap()).collect()
}

fn is_newest_first(entries: &[FeedEntry]) -> bool {
    entries.windows(2).all(|w| {
        let a = w[0].published_at.map(|t| (t.secs, t.nanos));
        let b = w[1].published_at.map(|t| (t.secs, t.nanos));
        a >= b
    })
}

#[test]
fn max_per_feed_is_three_hundred() {
    assert_eq!(MAX_PER_FEED, 300);
}

#[test]
fn sort_puts_newest_first_and_undated_last() {
    let sorted = sort_newest_first(vec![
        entry("f", "old", Some(10)),
        entry("f", "none", None),
        entry("f", "new", Some(30)),
        entry("f", "mid", Some(20)),
    ]);
    assert_eq!(guids(&sorted), vec!["new", "mid", "old", "none"]);
}

#[test]
fn sort_is_stable_for_equal_times() {
    let sorted = sort_newest_first(vec![
        entry("f", "a", Some(5)),
        entry("f", "n1", None),
        entry("f", "b", Some(5)),
        entry("f", "top", Some(9)),
        entry("f", "n2", None),
        entry("f", "c", Some(5)),
    ]);
    assert_eq!(guids(&sorted), vec!["top", "a", "b", "c", "n1", "n2"]);
}

#[test]
fn sort_compares_nanoseconds_within_a_second() {
    let mut early = entry("f", "early", Some(5));
    early.published_at = Some(Timestamp { secs: 5, nanos: 1 });
    let mut late = entry("f", "late", Some(5));
    late.published_at = Some(Timestamp { secs: 5, nanos: 2 });
    let negative = entry("f", "negative", Some(-7));
    let sorted = sort_newest_first(vec![negative, early, late]);
    assert_eq!(guids(&sorted), vec!["late", "early", "negative"]);
}

#[test]
fn sort_of_nothing_is_nothing() {
    assert!(sort_newest_first(Vec::new()).is_empty());
}

#[test]
fn merge_drops_identities_that_are_there() {
    let mut slot = vec![entry("f", "1", Some(1)), entry("f", "2", Some(2))];
    let mut changed = entry("f", "2", Some(99));
    changed.title = "changed".to_string();
    merge_new(
        &mut slot,
        vec![changed, entry("f", "3", Some(3)), entry("f", "3", Some(4)), entry("f", "1", None)],
    );
    assert_eq!(guids(&slot), vec!["1", "2", "3"]);
    assert_eq!(slot[1].title, "title of 2");
    assert_eq!(slot[2].published_at, Some(Timestamp { secs: 3, nanos: 0 }));
}

#[test]
fn upsert_sorts_and_deduplicates() {
    let mut cache = ArticleCache::new();
    cache.upsert("f", vec![entry("f", "1", Some(10)), entry("f", "2", Some(20))]);
    assert_eq!(guids(&cache.list("f")), vec!["2", "1"]);
    cache.upsert("f", vec![entry("f", "2", Some(50)), entry("f", "3", Some(15))]);
    assert_eq!(guids(&cache.list("f")), vec!["2", "3", "1"]);
    assert_eq!(cache.list("f")[0].published_at, Some(Timestamp { secs: 20, nanos: 0 }));
    assert!(cache.list("other").is_empty());
}

#[test]
fn upsert_of_nothing_makes_an_empty_shelf() {
    let mut cache = ArticleCache::new();
    cache.upsert("f", Vec::new());
    assert!(cache.list("f").is_empty());
    let rows = cache.to_rows();
    assert_eq!(rows.len(), 1);
    assert_eq!(rows[0].0, "f");
}

#[test]
fn upsert_never_keeps_more_than_the_limit() {
    let mut cache = ArticleCache::new();
    let first: Vec<FeedEntry> =
        (0..250).map(|i| entry("f", &format!("a{}", i), Some(i as i64))).collect();
    cache.upsert("f", first);
    assert_eq!(cache.list("f").len(), 250);
    let second: Vec<FeedEntry> =
        (0..120).map(|i| entry("f", &format!("b{}", i), Some(1000 + i as i64))).collect();
    cache.upsert("f", second);
    let kept = cache.list("f");
    assert_eq!(kept.len(), MAX_PER_FEED);
    assert!(is_newest_first(&kept));
    assert_eq!(kept[0].guid, Some("b119".to_string()));
    assert_eq!(kept[119].guid, Some("b0".to_string()));
    assert_eq!(kept[120].guid, Some("a249".to_string()));
    assert_eq!(kept[299].guid, Some("a70".to_string()));
    cache.upsert("f", vec![entry("f", "oldest", Some(-5))]);
    let kept = cache.list("f");
    assert_eq!(kept.len(), MAX_PER_FEED);
    assert!(kept.iter().all(|e| e.guid != Some("oldest".to_string())));
}

#[test]
fn upsert_of_an_oversized_batch_is_cut_at_once() {
    let mut cache = ArticleCache::new();
    let batch: Vec<FeedEntry> =
        (0..301).map(|i| entry("f", &format!("g{}", i), Some(i as i64))).collect();
    cache.upsert("f", batch);
    let kept = cache.list("f");
    assert_eq!(kept.len(), 300);
    assert_eq!(kept[0].guid, Some("g300".to_string()));
    assert_eq!(kept[299].guid, Some("g1".to_string()));
}

#[test]
fn list_all_merges_the_feeds_newest_first() {
    let mut cache = ArticleCache::new();
    cache.upsert("f", vec![entry("f", "f1", Some(10)), entry("f", "f3", Some(30))]);
    cache.upsert("g", vec![entry("g", "g2", Some(20)), entry("g", "g0", None)]);
    let all = cache.list_all();
    assert_eq!(guids(&all), vec!["f3", "g2", "f1", "g0"]);
    assert!(ArticleCache::new().list_all().is_empty());
}

#[test]
fn cache_rows_round_trip() {
    let mut cache = ArticleCache::new();
    cache.upsert("f", vec![entry("f", "1", Some(10)), entry("f", "2", Some(20))]);
    cache.upsert("g", vec![entry("g", "3", None)]);
    let rows = cache.to_rows();
    assert_eq!(rows.len(), 2);
    assert_eq!(rows[0].0, "f");
    assert_eq!(guids(&rows[0].1), vec!["2", "1"]);
    assert_eq!(rows[1].0, "g");
    let back = ArticleCache::from_rows(rows);
    assert_eq!(back.list("f"), cache.list("f"));
    assert_eq!(back.list("g"), cache.list("g"));
    assert!(back.list("h").is_empty());
}

#[test]
fn from_rows_takes_shelves_as_they_are_until_the_next_upsert() {
    let mut cache = ArticleCache::from_rows(vec![(
        "f".to_string(),
        vec![entry("f", "old", Some(1)), entry("f", "new", Some(2))],
    )]);
    assert_eq!(guids(&cache.list("f")), vec!["old", "new"]);
    cache.upsert("f", Vec::new());
    assert_eq!(guids(&cache.list("f")), vec!["new", "old"]);
}

#[test]
fn from_rows_takes_the_first_of_two_shelves_of_one_feed() {
    let cache = ArticleCache::from_rows(vec![
        ("f".to_string(), vec![entry("f", "first", Some(1))]),
        ("g".to_string(), vec![entry("g", "other", Some(2))]),
        ("f".to_string(), vec![entry("f", "second", Some(3))]),
    ]);
    assert_eq!(guids(&cache.list("f")), vec!["first"]);
    assert_eq!(guids(&cache.list_all()), vec!["other", "first"]);
    let rows = cache.to_rows();
    assert_eq!(rows.len(), 2);
    assert_eq!(rows[0].0, "f");
    assert_eq!(rows[1].0, "g");
}

#[test]
fn list_all_keeps_shelf_order_among_equal_times() {
    let mut cache = ArticleCache::new();
    cache.upsert("b", vec![entry("b", "b1", Some(5)), entry("b", "b2", None)]);
    cache.upsert("a", vec![entry("a", "a1", Some(5)), entry("a", "a2", None)]);
    cache.upsert("b", vec![entry("b", "b3", Some(5))]);
    assert_eq!(guids(&cache.list_all()), vec!["b1", "b3", "a1", "b2", "a2"]);
}

#[test]
fn forgetting_a_feed_drops_its_shelf_only() {
    let mut cache = ArticleCache::new();
    cache.upsert("f", vec![entry("f", "1", Some(1))]);
    cache.upsert("g", vec![entry("g", "2", Some(2))]);
    cache.upsert("h", vec![entry("h", "3", Some(3))]);
    cache.forget_feed("g");
    assert!(cache.list("g").is_empty());
    assert_eq!(guids(&cache.list_all()), vec!["3", "1"]);
    let feeds: Vec<String> = cache.to_rows().into_iter().map(|r| r.0).collect();
    assert_eq!(feeds, vec!["f", "h"]);
    cache.forget_feed("g");
    cache.forget_feed("f");
    assert_eq!(guids(&cache.list_all()), vec!["3"]);
}
