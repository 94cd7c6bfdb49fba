//! The data of the application in one place: the feed list, the read marks
//! and the article cache, with the operations of the front end.

use vstd::prelude::*;

use crate::articles::{
    newest_first, shelf_of, sorted_newest_first, upserted, ArticleCache, MAX_PER_FEED,
};
use crate::feed::{
    add_feed, list_feeds, remove_feed, without_feed, FeedDescriptor, FeedEntry, FeedList,
};
use crate::marks::{is_marked, with_mark, MarkTable, Marks};

verus! {

/// The identities marked as read, feed by feed.
#[derive(Debug)]
pub struct ReadData {
    pub read: MarkTable,
}

impl View for ReadData {
    type V = Marks;

    open spec fn view(&self) -> Marks {
        self.read@
    }
}

impl Default for ReadData {
    fn default() -> (data: ReadData)
        ensures
            data@ == Map::<Seq<char>, Set<Seq<char>>>::empty(),
    {
        ReadData { read: MarkTable::new() }
    }
}

/// The feed list, the read marks and the article cache.
#[derive(Debug)]
pub struct DataApi {
    pub feeds: FeedList,
    pub read: ReadData,
    pub articles: ArticleCache,
}

impl DataApi {
    /// Puts the data together from what was stored. A stored feed list that
    /// is not empty replaces the list given; an empty one leaves it.
    pub fn load_from_dir(
        feeds: FeedList,
        stored_feeds: Vec<FeedDescriptor>,
        stored_read: ReadData,
        stored_articles: ArticleCache,
    ) -> (api: DataApi)
        ensures
            api.feeds == if stored_feeds.len() > 0 {
                stored_feeds
            } else {
                feeds
            },
            api.read == stored_read,
            api.articles == stored_articles,
    {
        let feeds = if stored_feeds.len() > 0 {
            stored_feeds
        } else {
            feeds
        };
        DataApi { feeds, read: stored_read, articles: stored_articles }
    }

    /// Adds a feed, in place of any feed of the same id.
    pub fn add_feed(&mut self, feed: FeedDescriptor)
        ensures
            final(self).feeds.deep_view() == without_feed(old(self).feeds.deep_view(), feed.id@).push(
                feed@,
            ),
            final(self).read == old(self).read,
            final(self).articles == old(self).articles,
    {
        add_feed(&mut self.feeds, feed);
    }

    /// Removes a feed and forgets which of its articles were read. Its
    /// cached articles stay.
    pub fn remove_feed(&mut self, feed_id: &str)
        ensures
            final(self).feeds.deep_view() == without_feed(old(self).feeds.deep_view(), feed_id@),
            final(self).read@ == old(self).read@.remove(feed_id@),
            final(self).articles == old(self).articles,
    {
        remove_feed(&mut self.feeds, feed_id);
        self.read.read.remove_feed(feed_id);
    }

    /// Drops the cached articles of a feed. Removing a feed does not do
    /// this by itself; callers that want the cache cleared with the feed
    /// call both.
    pub fn forget_articles(&mut self, feed_id: &str)
        ensures
            final(self).articles@ == old(self).articles@.remove(feed_id@),
            old(self).articles.well_kept() ==> final(self).articles.well_kept(),
            final(self).feeds == old(self).feeds,
            final(self).read == old(self).read,
    {
        self.articles.forget_feed(feed_id);
    }

    /// A copy of the feed list.
    pub fn list_feeds(&self) -> (feeds: Vec<FeedDescriptor>)
        ensures
            feeds.deep_view() == self.feeds.deep_view(),
    {
        list_feeds(&self.feeds)
    }

    /// Whether the article is marked as read.
    pub fn is_read(&self, entry: &FeedEntry) -> (read: bool)
        ensures
            read == is_marked(self.read@, entry@.feed_id, entry@.identity()),
    {
        let key = entry.identity();
        self.read.read.contains(entry.feed_id.as_str(), key.as_str())
    }

    /// Marks the article as read. Returns whether it was not marked before,
    /// which is when the read marks have changed and are to be written.
    pub fn mark_read(&mut self, entry: &FeedEntry) -> (changed: bool)
        ensures
            changed == !is_marked(old(self).read@, entry@.feed_id, entry@.identity()),
            final(self).read@ == with_mark(old(self).read@, entry@.feed_id, entry@.identity()),
            !changed ==> final(self).read@ == old(self).read@,
            final(self).feeds == old(self).feeds,
            final(self).articles == old(self).articles,
    {
        let key = entry.identity();
        let changed = self.read.read.insert(entry.feed_id.as_str(), key);
        proof {
            if !changed {
                assert(self.read@ =~= old(self).read@) by {
                    let feed = entry@.feed_id;
                    let id = entry@.identity();
                    assert(old(self).read@.dom().contains(feed));
                    assert(old(self).read@[feed].insert(id) =~= old(self).read@[feed]);
                }
            }
        }
        changed
    }

    /// Merges a batch of articles into a feed's cache: those whose identity
    /// is cached already are dropped, the rest are added, and the list is
    /// sorted newest first and cut to [`MAX_PER_FEED`].
    pub fn upsert_articles(&mut self, feed_id: &str, entries: Vec<FeedEntry>)
        ensures
            final(self).articles@ == old(self).articles@.insert(
                feed_id@,
                upserted(shelf_of(old(self).articles@, feed_id@), entries.deep_view()),
            ),
            final(self).articles.feed_order() == if old(self).articles@.dom().contains(feed_id@) {
                old(self).articles.feed_order()
            } else {
                old(self).articles.feed_order().push(feed_id@)
            },
            final(self).articles@[feed_id@].len() <= MAX_PER_FEED,
            newest_first(final(self).articles@[feed_id@]),
            old(self).articles.well_kept() ==> final(self).articles.well_kept(),
            final(self).feeds == old(self).feeds,
            final(self).read == old(self).read,
    {
        self.articles.upsert(feed_id, entries);
    }

    /// The cached articles of a feed.
    pub fn list_articles(&self, feed_id: &str) -> (entries: Vec<FeedEntry>)
        ensures
            entries.deep_view() == shelf_of(self.articles@, feed_id@),
    {
        self.articles.list(feed_id)
    }

    /// The cached articles of all feeds together, newest first.
    pub fn list_all_articles(&self) -> (entries: Vec<FeedEntry>)
        ensures
            entries.deep_view() == sorted_newest_first(self.articles.all_entries()),
            newest_first(entries.deep_view()),
            entries.deep_view().to_multiset() == self.articles.all_entries().to_multiset(),
            self.articles.in_order(),
    {
        self.articles.list_all()
    }
}

} // verus!
