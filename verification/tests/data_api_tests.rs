use rss_core::articles::ArticleCache;
use rss_core::data::{DataApi, ReadData};
use rss_core::feed::{shared_feed_list, FeedDescriptor, FeedEntry};
use rss_core::marks::MarkTable;
use rss_core::time::Timestamp;

fn empty_api() -> DataApi {
    DataApi::load_from_dir(
        shared_feed_list(Vec::new()),
        Vec::new(),
        ReadData::default(),
        ArticleCache::new(),
    )
}

fn reopened(api: &DataApi) -> DataApi {
    DataApi::load_from_dir(
        shared_feed_list(Vec::new()),
        api.list_feeds(),
        ReadData { read: MarkTable::from_rows(api.read.read.to_rows()) },
        ArticleCache::from_rows(api.articles.to_rows()),
    )
}

fn article(feed: &str, guid: &str, secs: i64) -> FeedEntry {
    FeedEntry {
        feed_id: feed.to_string(),
        title: "A".to_string(),
        summary: None,
        url: format!("http://e/{}", guid),
        published_at: Some(Timestamp { secs, nanos: 0 }),
        guid: Some(guid.to_string()),
        author: None,
        category: None,
        content_html: None,
        image_url: None,
    }
}

#[test]
fn data_api_persists_feeds_and_read_state() {
    let mut api = empty_api();

    let fd = FeedDescriptor {
        id: "f1".into(),
        title: "Feed 1".into(),
        url: "http://example.com/feed".into(),
    };
    api.add_feed(fd.clone());

    let feeds_list = api.list_feeds();
    assert_eq!(feeds_list.len(), 1);

    let mut api2 = reopened(&api);
    let feeds_list2 = api2.list_feeds();
    assert_eq!(feeds_list2.len(), 1);
    assert_eq!(feeds_list2[0].id, "f1");

    let entry = FeedEntry {
        feed_id: "f1".into(),
        title: "A".into(),
        summary: None,
        url: "http://e/1".into(),
        published_at: None,
        guid: Some("guid-1".into()),
        author: None,
        category: None,
        content_html: None,
        image_url: None,
    };
    api2.mark_read(&entry);

    let api3 = reopened(&api2);
    assert!(api3.is_read(&entry));
}

#[test]
fn load_keeps_the_given_feeds_when_nothing_was_stored() {
    let given = shared_feed_list(vec![FeedDescriptor {
        id: "g".into(),
        title: "Given".into(),
        url: "https://g/feed".into(),
    }]);
    let api = DataApi::load_from_dir(given, Vec::new(), ReadData::default(), ArticleCache::new());
    assert_eq!(api.list_feeds().len(), 1);
    assert_eq!(api.list_feeds()[0].id, "g");
}

#[test]
fn load_replaces_the_given_feeds_by_stored_ones() {
    let given = shared_feed_list(vec![FeedDescriptor {
        id: "g".into(),
        title: "Given".into(),
        url: "https://g/feed".into(),
    }]);
    let stored = vec![FeedDescriptor {
        id: "s".into(),
        title: "Stored".into(),
        url: "https://s/feed".into(),
    }];
    let api = DataApi::load_from_dir(given, stored, ReadData::default(), ArticleCache::new());
    assert_eq!(api.list_feeds().len(), 1);
    assert_eq!(api.list_feeds()[0].id, "s");
}

#[test]
fn mark_read_changes_the_marks_once() {
    let mut api = empty_api();
    let e = article("f1", "1", 10);
    assert!(!api.is_read(&e));
    assert!(api.mark_read(&e));
    assert!(api.is_read(&e));
    assert!(!api.mark_read(&e));
    assert!(api.is_read(&e));
    assert!(!api.is_read(&article("f2", "1", 10)));
    assert!(!api.is_read(&article("f1", "2", 10)));
}

#[test]
fn removing_a_feed_forgets_its_read_marks_and_keeps_its_articles() {
    let mut api = empty_api();
    api.add_feed(FeedDescriptor { id: "f1".into(), title: "1".into(), url: "https://1".into() });
    api.add_feed(FeedDescriptor { id: "f2".into(), title: "2".into(), url: "https://2".into() });
    api.upsert_articles("f1", vec![article("f1", "1", 10)]);
    api.mark_read(&article("f1", "1", 10));
    api.mark_read(&article("f2", "9", 10));
    api.remove_feed("f1");
    assert_eq!(api.list_feeds().len(), 1);
    assert_eq!(api.list_feeds()[0].id, "f2");
    assert!(!api.is_read(&article("f1", "1", 10)));
    assert!(api.is_read(&article("f2", "9", 10)));
    assert_eq!(api.list_articles("f1").len(), 1);
}

#[test]
fn upserted_articles_are_listed_per_feed_and_together() {
    let mut api = empty_api();
    api.upsert_articles("f1", vec![article("f1", "a", 10), article("f1", "b", 30)]);
    api.upsert_articles("f2", vec![article("f2", "c", 20)]);
    api.upsert_articles("f1", vec![article("f1", "a", 99)]);
    let f1 = api.list_articles("f1");
    assert_eq!(f1.len(), 2);
    assert_eq!(f1[0].guid, Some("b".to_string()));
    assert_eq!(f1[1].guid, Some("a".to_string()));
    assert!(api.list_articles("none").is_empty());
    let all = api.list_all_articles();
    let order: Vec<String> = all.iter().map(|e| e.guid.clone().unwrap()).collect();
    assert_eq!(order, vec!["b", "c", "a"]);
}

#[test]
fn cached_articles_of_a_feed_can_be_dropped_on_request() {
    let mut api = empty_api();
    api.upsert_articles("f1", vec![article("f1", "a", 10)]);
    api.upsert_articles("f2", vec![article("f2", "b", 20)]);
    api.forget_articles("f1");
    assert!(api.list_articles("f1").is_empty());
    assert_eq!(api.list_articles("f2").len(), 1);
    assert_eq!(api.list_all_articles().len(), 1);
}
