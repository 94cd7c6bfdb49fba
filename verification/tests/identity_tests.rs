use rss_core::feed::FeedEntry;
use rss_core::time::Timestamp;

fn bare_entry() -> FeedEntry {
    FeedEntry {
        feed_id: "f1".to_string(),
        title: "A title".to_string(),
        summary: None,
        url: String::new(),
        published_at: None,
        guid: None,
        author: None,
        category: None,
        content_html: None,
        image_url: None,
    }
}

#[test]
fn identity_prefers_guid_over_url_and_title() {
    let mut e = bare_entry();
    e.guid = Some("guid-1".to_string());
    e.url = "http://e/1".to_string();
    assert_eq!(e.identity(), "guid:guid-1");
}

#[test]
fn identity_uses_url_when_guid_is_missing() {
    let mut e = bare_entry();
    e.url = "http://e/1".to_string();
    assert_eq!(e.identity(), "url:http://e/1");
}

#[test]
fn identity_falls_back_to_title_and_second() {
    let mut e = bare_entry();
    assert_eq!(e.identity(), "title:A title@0");
    e.published_at = Some(Timestamp { secs: 1729495680, nanos: 5 });
    assert_eq!(e.identity(), "title:A title@1729495680");
    e.published_at = Some(Timestamp { secs: -42, nanos: 0 });
    assert_eq!(e.identity(), "title:A title@-42");
}

#[test]
fn identity_is_recomputed_to_the_same_string() {
    let mut e = bare_entry();
    e.guid = Some("x".to_string());
    let copy = e.clone();
    assert_eq!(e.identity(), e.identity());
    assert_eq!(e.identity(), copy.identity());
}
