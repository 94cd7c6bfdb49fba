use rss_core::discover::recommended_categories;
use rss_core::fetch::check_feed_url;

#[test]
fn there_are_four_categories_of_five_feeds() {
    let cats = recommended_categories();
    let names: Vec<&str> = cats.iter().map(|c| c.name).collect();
    assert_eq!(names, vec!["Technologie", "Programmation", "Science", "Actualités (FR)"]);
    for cat in &cats {
        assert_eq!(cat.feeds.len(), 5);
    }
}

#[test]
fn recommended_feeds_are_listed_in_order() {
    let cats = recommended_categories();
    assert_eq!(cats[0].feeds[0].title, "Ars Technica");
    assert_eq!(cats[0].feeds[0].url, "https://arstechnica.com/feed/");
    assert_eq!(cats[0].feeds[0].desc, "Actualités et analyses high‑tech, science et société.");
    assert_eq!(cats[0].feeds[4].title, "Korben");
    assert_eq!(cats[1].feeds[0].url, "https://blog.rust-lang.org/feed.xml");
    assert_eq!(cats[1].feeds[3].title, "Real Python");
    assert_eq!(cats[2].feeds[2].title, "Nature – Latest");
    assert_eq!(cats[2].feeds[4].url, "https://news.mit.edu/rss/topic/engineering");
    assert_eq!(cats[3].feeds[1].title, "France 24");
    assert_eq!(cats[3].feeds[4].desc, "High-tech, tests et dossiers (FR).");
}

#[test]
fn every_recommended_url_passes_the_scheme_policy() {
    for cat in recommended_categories() {
        for feed in cat.feeds {
            assert_eq!(check_feed_url(feed.url), Ok(()));
        }
    }
}
