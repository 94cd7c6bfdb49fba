use rss_core::articles::ArticleCache;
use rss_core::data::{DataApi, ReadData};
use rss_core::feed::{shared_feed_list, FeedDescriptor};
use rss_core::persist::{after_primary, after_temp, Loaded, LoadStep};

fn load(primary: Loaded<Vec<FeedDescriptor>>, temp: Loaded<Vec<FeedDescriptor>>) -> Vec<FeedDescriptor> {
    match after_primary(primary) {
        LoadStep::Done(value) => value.unwrap_or_default(),
        LoadStep::ReadTemp => after_temp(temp).unwrap_or_default(),
    }
}

#[test]
fn load_uses_tmp_fallback_on_corrupted_json() {
    let fd = FeedDescriptor { id: "x".into(), title: "T".into(), url: "http://example.com".into() };
    let vec = vec![fd.clone()];

    let stored = load(Loaded::Corrupt, Loaded::Parsed(vec));

    let feeds_store = shared_feed_list(Vec::new());
    let api = DataApi::load_from_dir(feeds_store, stored, ReadData::default(), ArticleCache::new());
    let feeds = api.list_feeds();
    assert_eq!(feeds.len(), 1, "should fall back to tmp file when main is corrupted");
    assert_eq!(feeds[0].id, fd.id);
}

#[test]
fn sound_primary_file_counts_whatever_the_temp_file_holds() {
    assert_eq!(after_primary(Loaded::Parsed(7)), LoadStep::Done(Some(7)));
    assert_eq!(load_number(Loaded::Parsed(7), Loaded::Parsed(8)), Some(7));
    assert_eq!(load_number(Loaded::Parsed(7), Loaded::Corrupt), Some(7));
}

#[test]
fn missing_primary_file_gives_the_default_without_a_look_at_the_temp_file() {
    assert_eq!(after_primary(Loaded::<u8>::Missing), LoadStep::Done(None));
    assert_eq!(load_number(Loaded::Missing, Loaded::Parsed(8)), None);
}

#[test]
fn corrupt_primary_file_sends_the_loader_to_the_temp_file() {
    assert_eq!(after_primary(Loaded::<u8>::Corrupt), LoadStep::ReadTemp);
    assert_eq!(after_temp(Loaded::Parsed(8)), Some(8));
    assert_eq!(after_temp(Loaded::<u8>::Corrupt), None);
    assert_eq!(after_temp(Loaded::<u8>::Missing), None);
    assert_eq!(load_number(Loaded::Corrupt, Loaded::Parsed(8)), Some(8));
    assert_eq!(load_number(Loaded::Corrupt, Loaded::Corrupt), None);
    assert_eq!(load_number(Loaded::Corrupt, Loaded::Missing), None);
}

fn load_number(primary: Loaded<u8>, temp: Loaded<u8>) -> Option<u8> {
    match after_primary(primary) {
        LoadStep::Done(value) => value,
        LoadStep::ReadTemp => after_temp(temp),
    }
}
