use rss_core::feed::{
    add_feed, list_feeds, remove_feed, shared_feed_list, AtomEntry, DublinCore, FeedDescriptor,
    FeedEntry, RssItem,
};
use rss_core::time::Timestamp;

fn descriptor(id: &str, title: &str, url: &str) -> FeedDescriptor {
    FeedDescriptor { id: id.to_string(), title: title.to_string(), url: url.to_string() }
}

fn empty_item() -> RssItem {
    RssItem {
        title: None,
        link: None,
        description: None,
        author: None,
        categories: Vec::new(),
        enclosure_url: None,
        guid: None,
        pub_date: None,
        content: None,
        dublin_core: None,
    }
}

fn plain_atom_entry() -> AtomEntry {
    AtomEntry {
        title: "Robots".to_string(),
        id: "urn:uuid:1".to_string(),
        updated: Timestamp { secs: 1071340202, nanos: 0 },
        published: None,
        authors: Vec::new(),
        categories: Vec::new(),
        links: Vec::new(),
        summary: None,
        content: None,
    }
}

#[test]
fn rss_item_without_fields_gives_empty_texts() {
    let e = FeedEntry::from_rss_item("f1", &empty_item());
    assert_eq!(e.feed_id, "f1");
    assert_eq!(e.title, "");
    assert_eq!(e.url, "");
    assert_eq!(e.summary, None);
    assert_eq!(e.published_at, None);
    assert_eq!(e.guid, None);
    assert_eq!(e.author, None);
    assert_eq!(e.category, None);
    assert_eq!(e.content_html, None);
    assert_eq!(e.image_url, None);
}

#[test]
fn rss_item_fields_are_carried_over() {
    let mut item = empty_item();
    item.title = Some("Item 1".to_string());
    item.link = Some("http://example.com/1".to_string());
    item.description = Some("First".to_string());
    item.guid = Some("guid-1".to_string());
    item.pub_date = Some("Mon, 21 Oct 2024 07:28:00 GMT".to_string());
    item.content = Some("<p>Body</p>".to_string());
    item.enclosure_url = Some("http://example.com/1.png".to_string());
    let e = FeedEntry::from_rss_item("feed1", &item);
    assert_eq!(e.title, "Item 1");
    assert_eq!(e.url, "http://example.com/1");
    assert_eq!(e.summary, Some("First".to_string()));
    assert_eq!(e.guid, Some("guid-1".to_string()));
    assert_eq!(e.published_at, Some(Timestamp { secs: 1729495680, nanos: 0 }));
    assert_eq!(e.content_html, Some("<p>Body</p>".to_string()));
    assert_eq!(e.image_url, Some("http://example.com/1.png".to_string()));
}

#[test]
fn rss_date_is_read_as_rfc2822_with_its_offset() {
    let mut item = empty_item();
    item.pub_date = Some("Wed, 18 Feb 2015 23:16:09 GMT".to_string());
    assert_eq!(
        FeedEntry::from_rss_item("f", &item).published_at,
        Some(Timestamp { secs: 1424301369, nanos: 0 })
    );
    item.pub_date = Some("Thu, 19 Feb 2015 01:16:09 +0200".to_string());
    assert_eq!(
        FeedEntry::from_rss_item("f", &item).published_at,
        Some(Timestamp { secs: 1424301369, nanos: 0 })
    );
}

#[test]
fn rss_date_that_is_not_rfc2822_is_dropped() {
    let mut item = empty_item();
    item.pub_date = Some("2024-10-21T07:28:00Z".to_string());
    assert_eq!(FeedEntry::from_rss_item("f", &item).published_at, None);
    item.pub_date = Some("yesterday".to_string());
    assert_eq!(FeedEntry::from_rss_item("f", &item).published_at, None);
}

#[test]
fn rss_parts_take_the_given_time() {
    let mut item = empty_item();
    item.pub_date = Some("Mon, 21 Oct 2024 07:28:00 GMT".to_string());
    let at = Some(Timestamp { secs: 9, nanos: 1 });
    assert_eq!(FeedEntry::from_rss_parts("f", &item, at).published_at, at);
    assert_eq!(FeedEntry::from_rss_parts("f", &item, None).published_at, None);
}

#[test]
fn rss_author_prefers_dublin_core_creator() {
    let mut item = empty_item();
    item.author = Some("rss@example.com".to_string());
    assert_eq!(
        FeedEntry::from_rss_item("f", &item).author,
        Some("rss@example.com".to_string())
    );
    item.dublin_core = Some(DublinCore { creators: Vec::new(), subjects: Vec::new() });
    assert_eq!(
        FeedEntry::from_rss_item("f", &item).author,
        Some("rss@example.com".to_string())
    );
    item.dublin_core = Some(DublinCore {
        creators: vec!["Ada".to_string(), "Grace".to_string()],
        subjects: Vec::new(),
    });
    assert_eq!(FeedEntry::from_rss_item("f", &item).author, Some("Ada".to_string()));
}

#[test]
fn rss_category_prefers_category_over_dublin_core_subject() {
    let mut item = empty_item();
    item.dublin_core = Some(DublinCore {
        creators: Vec::new(),
        subjects: vec!["physics".to_string(), "maths".to_string()],
    });
    assert_eq!(FeedEntry::from_rss_item("f", &item).category, Some("physics".to_string()));
    item.categories = vec!["news".to_string(), "tech".to_string()];
    assert_eq!(FeedEntry::from_rss_item("f", &item).category, Some("news".to_string()));
    item.categories = Vec::new();
    item.dublin_core = Some(DublinCore { creators: Vec::new(), subjects: Vec::new() });
    assert_eq!(FeedEntry::from_rss_item("f", &item).category, None);
}

#[test]
fn atom_entry_without_publication_takes_the_update_time() {
    let e = FeedEntry::from_atom_entry("f2", &plain_atom_entry());
    assert_eq!(e.feed_id, "f2");
    assert_eq!(e.title, "Robots");
    assert_eq!(e.guid, Some("urn:uuid:1".to_string()));
    assert_eq!(e.published_at, Some(Timestamp { secs: 1071340202, nanos: 0 }));
    assert_eq!(e.url, "");
    assert_eq!(e.author, None);
    assert_eq!(e.category, None);
    assert_eq!(e.summary, None);
    assert_eq!(e.content_html, None);
    assert_eq!(e.image_url, None);
}

#[test]
fn atom_entry_takes_first_author_category_and_link() {
    let mut entry = plain_atom_entry();
    entry.published = Some(Timestamp { secs: 1071219600, nanos: 7 });
    entry.authors = vec!["John".to_string(), "Jane".to_string()];
    entry.categories = vec!["robots".to_string(), "amok".to_string()];
    entry.links = vec!["http://example.org/a".to_string(), "http://example.org/b".to_string()];
    entry.summary = Some("Some text.".to_string());
    entry.content = Some("<p>Body</p>".to_string());
    let e = FeedEntry::from_atom_entry("f2", &entry);
    assert_eq!(e.published_at, Some(Timestamp { secs: 1071219600, nanos: 7 }));
    assert_eq!(e.author, Some("John".to_string()));
    assert_eq!(e.category, Some("robots".to_string()));
    assert_eq!(e.url, "http://example.org/a");
    assert_eq!(e.summary, Some("Some text.".to_string()));
    assert_eq!(e.content_html, Some("<p>Body</p>".to_string()));
    assert_eq!(e.image_url, None);
    assert_eq!(e.identity(), "guid:urn:uuid:1");
}

#[test]
fn add_feed_appends_a_new_id() {
    let mut store = shared_feed_list(Vec::new());
    add_feed(&mut store, descriptor("a", "A", "https://a/feed"));
    add_feed(&mut store, descriptor("b", "B", "https://b/feed"));
    assert_eq!(
        list_feeds(&store),
        vec![descriptor("a", "A", "https://a/feed"), descriptor("b", "B", "https://b/feed")]
    );
}

#[test]
fn add_feed_replaces_a_feed_of_the_same_id() {
    let mut store = shared_feed_list(vec![
        descriptor("a", "A", "https://a/feed"),
        descriptor("b", "B", "https://b/feed"),
        descriptor("c", "C", "https://c/feed"),
    ]);
    add_feed(&mut store, descriptor("a", "A2", "https://a/feed2"));
    assert_eq!(
        list_feeds(&store),
        vec![
            descriptor("b", "B", "https://b/feed"),
            descriptor("c", "C", "https://c/feed"),
            descriptor("a", "A2", "https://a/feed2"),
        ]
    );
}

#[test]
fn remove_feed_drops_every_feed_of_the_id() {
    let mut store = shared_feed_list(vec![
        descriptor("a", "A", "https://a/feed"),
        descriptor("b", "B", "https://b/feed"),
        descriptor("a", "A again", "https://a/other"),
    ]);
    remove_feed(&mut store, "a");
    assert_eq!(list_feeds(&store), vec![descriptor("b", "B", "https://b/feed")]);
    remove_feed(&mut store, "missing");
    assert_eq!(list_feeds(&store), vec![descriptor("b", "B", "https://b/feed")]);
    remove_feed(&mut store, "b");
    assert!(list_feeds(&store).is_empty());
}

#[test]
fn shared_feed_list_keeps_the_initial_feeds() {
    let store = shared_feed_list(vec![descriptor("x", "T", "http://example.com")]);
    assert_eq!(store.len(), 1);
    assert_eq!(store[0].id, "x");
}
