//! The entry model: feed descriptors, normalized articles and the identity
//! by which articles are deduplicated.

use vstd::prelude::*;

use crate::text::{format_i64, int_decimal, str_eq};
use crate::time::{parse_rfc2822, rfc2822_instant, Timestamp};

verus! {

/// A subscribed feed.
#[derive(Debug, PartialEq, Eq, Hash)]
pub struct FeedDescriptor {
    pub id: String,
    pub title: String,
    pub url: String,
}

/// Mathematical value of a [`FeedDescriptor`].
pub struct FeedDescriptorView {
    pub id: Seq<char>,
    pub title: Seq<char>,
    pub url: Seq<char>,
}

impl View for FeedDescriptor {
    type V = FeedDescriptorView;

    open spec fn view(&self) -> FeedDescriptorView {
        FeedDescriptorView { id: self.id@, title: self.title@, url: self.url@ }
    }
}

impl DeepView for FeedDescriptor {
    type V = FeedDescriptorView;

    open spec fn deep_view(&self) -> FeedDescriptorView {
        self@
    }
}

impl Clone for FeedDescriptor {
    fn clone(&self) -> (copy: Self)
        ensures
            copy@ == self@,
    {
        FeedDescriptor { id: self.id.clone(), title: self.title.clone(), url: self.url.clone() }
    }
}

/// A normalized article.
#[derive(Debug, PartialEq)]
pub struct FeedEntry {
    pub feed_id: String,
    pub title: String,
    pub summary: Option<String>,
    pub url: String,
    pub published_at: Option<Timestamp>,
    pub guid: Option<String>,
    pub author: Option<String>,
    pub category: Option<String>,
    pub content_html: Option<String>,
    pub image_url: Option<String>,
}

/// Mathematical value of a [`FeedEntry`].
pub struct FeedEntryView {
    pub feed_id: Seq<char>,
    pub title: Seq<char>,
    pub summary: Option<Seq<char>>,
    pub url: Seq<char>,
    pub published_at: Option<Timestamp>,
    pub guid: Option<Seq<char>>,
    pub author: Option<Seq<char>>,
    pub category: Option<Seq<char>>,
    pub content_html: Option<Seq<char>>,
    pub image_url: Option<Seq<char>>,
}

impl FeedEntryView {
    /// Seconds of the publication time, zero when there is none.
    pub open spec fn published_secs(self) -> int {
        match self.published_at {
            Some(t) => t.secs as int,
            None => 0,
        }
    }

    /// The deduplication key: the GUID when there is one, else the URL when
    /// it is not empty, else the title with the publication second.
    pub open spec fn identity(self) -> Seq<char> {
        match self.guid {
            Some(g) => "guid:"@ + g,
            None => if self.url.len() > 0 {
                "url:"@ + self.url
            } else {
                "title:"@ + self.title + "@"@ + int_decimal(self.published_secs())
            },
        }
    }
}

impl View for FeedEntry {
    type V = FeedEntryView;

    open spec fn view(&self) -> FeedEntryView {
        FeedEntryView {
            feed_id: self.feed_id@,
            title: self.title@,
            summary: self.summary.deep_view(),
            url: self.url@,
            published_at: self.published_at,
            guid: self.guid.deep_view(),
            author: self.author.deep_view(),
            category: self.category.deep_view(),
            content_html: self.content_html.deep_view(),
            image_url: self.image_url.deep_view(),
        }
    }
}

impl DeepView for FeedEntry {
    type V = FeedEntryView;

    open spec fn deep_view(&self) -> FeedEntryView {
        self@
    }
}

/// Copies an optional string.
pub fn clone_text(text: &Option<String>) -> (copy: Option<String>)
    ensures
        copy.deep_view() == text.deep_view(),
{
    match text {
        Some(s) => Some(s.clone()),
        None => None,
    }
}

impl Clone for FeedEntry {
    fn clone(&self) -> (copy: Self)
        ensures
            copy@ == self@,
    {
        FeedEntry {
            feed_id: self.feed_id.clone(),
            title: self.title.clone(),
            summary: clone_text(&self.summary),
            url: self.url.clone(),
            published_at: self.published_at,
            guid: clone_text(&self.guid),
            author: clone_text(&self.author),
            category: clone_text(&self.category),
            content_html: clone_text(&self.content_html),
            image_url: clone_text(&self.image_url),
        }
    }
}

impl FeedEntry {
    /// Computes the deduplication key of this entry from its current fields.
    pub fn identity(&self) -> (key: String)
        ensures
            key@ == self@.identity(),
    {
        match &self.guid {
            Some(g) => {
                let mut key = String::from_str("guid:");
                key.append(g.as_str());
                key
            },
            None => {
                if !self.url.as_str().is_empty() {
                    let mut key = String::from_str("url:");
                    key.append(self.url.as_str());
                    key
                } else {
                    let secs: i64 = match &self.published_at {
                        Some(t) => t.secs,
                        None => 0,
                    };
                    let mut key = String::from_str("title:");
                    key.append(self.title.as_str());
                    key.append("@");
                    let digits = format_i64(secs);
                    key.append(digits.as_str());
                    key
                }
            },
        }
    }
}

/// The Dublin Core fields of an RSS item that normalization reads.
#[derive(Debug, Clone, PartialEq, Eq)]
pub struct DublinCore {
    pub creators: Vec<String>,
    pub subjects: Vec<String>,
}

/// Mathematical value of a [`DublinCore`].
pub struct DublinCoreView {
    pub creators: Seq<Seq<char>>,
    pub subjects: Seq<Seq<char>>,
}

impl View for DublinCore {
    type V = DublinCoreView;

    open spec fn view(&self) -> DublinCoreView {
        DublinCoreView {
            creators: self.creators.deep_view(),
            subjects: self.subjects.deep_view(),
        }
    }
}

impl DeepView for DublinCore {
    type V = DublinCoreView;

    open spec fn deep_view(&self) -> DublinCoreView {
        self@
    }
}

/// An item of an RSS channel, as plain text fields.
#[derive(Debug, Clone, PartialEq, Eq)]
pub struct RssItem {
    pub title: Option<String>,
    pub link: Option<String>,
    pub description: Option<String>,
    pub author: Option<String>,
    /// The names of the item's categories, in document order.
    pub categories: Vec<String>,
    /// The URL of the enclosure, if the item has one.
    pub enclosure_url: Option<String>,
    /// The value of the GUID, if the item has one.
    pub guid: Option<String>,
    /// The publication date as written in the document.
    pub pub_date: Option<String>,
    /// The value of `content:encoded`.
    pub content: Option<String>,
    pub dublin_core: Option<DublinCore>,
}

/// Mathematical value of an [`RssItem`].
pub struct RssItemView {
    pub title: Option<Seq<char>>,
    pub link: Option<Seq<char>>,
    pub description: Option<Seq<char>>,
    pub author: Option<Seq<char>>,
    pub categories: Seq<Seq<char>>,
    pub enclosure_url: Option<Seq<char>>,
    pub guid: Option<Seq<char>>,
    pub pub_date: Option<Seq<char>>,
    pub content: Option<Seq<char>>,
    pub dublin_core: Option<DublinCoreView>,
}

impl View for RssItem {
    type V = RssItemView;

    open spec fn view(&self) -> RssItemView {
        RssItemView {
            title: self.title.deep_view(),
            link: self.link.deep_view(),
            description: self.description.deep_view(),
            author: self.author.deep_view(),
            categories: self.categories.deep_view(),
            enclosure_url: self.enclosure_url.deep_view(),
            guid: self.guid.deep_view(),
            pub_date: self.pub_date.deep_view(),
            content: self.content.deep_view(),
            dublin_core: self.dublin_core.deep_view(),
        }
    }
}

impl DeepView for RssItem {
    type V = RssItemView;

    open spec fn deep_view(&self) -> RssItemView {
        self@
    }
}

/// An entry of an Atom feed, as plain values.
#[derive(Debug, Clone, PartialEq, Eq)]
pub struct AtomEntry {
    pub title: String,
    pub id: String,
    pub updated: Timestamp,
    pub published: Option<Timestamp>,
    /// The names of the entry's authors, in document order.
    pub authors: Vec<String>,
    /// The terms of the entry's categories, in document order.
    pub categories: Vec<String>,
    /// The targets of the entry's links, in document order.
    pub links: Vec<String>,
    /// The text of the summary, if the entry has one.
    pub summary: Option<String>,
    /// The inline content, if the entry has any.
    pub content: Option<String>,
}

/// Mathematical value of an [`AtomEntry`].
pub struct AtomEntryView {
    pub title: Seq<char>,
    pub id: Seq<char>,
    pub updated: Timestamp,
    pub published: Option<Timestamp>,
    pub authors: Seq<Seq<char>>,
    pub categories: Seq<Seq<char>>,
    pub links: Seq<Seq<char>>,
    pub summary: Option<Seq<char>>,
    pub content: Option<Seq<char>>,
}

impl View for AtomEntry {
    type V = AtomEntryView;

    open spec fn view(&self) -> AtomEntryView {
        AtomEntryView {
            title: self.title@,
            id: self.id@,
            updated: self.updated,
            published: self.published,
            authors: self.authors.deep_view(),
            categories: self.categories.deep_view(),
            links: self.links.deep_view(),
            summary: self.summary.deep_view(),
            content: self.content.deep_view(),
        }
    }
}

impl DeepView for AtomEntry {
    type V = AtomEntryView;

    open spec fn deep_view(&self) -> AtomEntryView {
        self@
    }
}

/// The first text of a list, if it has any.
pub open spec fn first_of(texts: Seq<Seq<char>>) -> Option<Seq<char>> {
    if texts.len() > 0 {
        Some(texts[0])
    } else {
        None
    }
}

/// The text, or the empty text where there is none.
pub open spec fn or_empty(text: Option<Seq<char>>) -> Seq<char> {
    match text {
        Some(t) => t,
        None => Seq::empty(),
    }
}

/// The author of an RSS item: the first Dublin Core creator, else the
/// item's own author field.
pub open spec fn rss_author(item: RssItemView) -> Option<Seq<char>> {
    match item.dublin_core {
        Some(dc) => if dc.creators.len() > 0 {
            Some(dc.creators[0])
        } else {
            item.author
        },
        None => item.author,
    }
}

/// The category of an RSS item: the name of its first category, else the
/// first Dublin Core subject.
pub open spec fn rss_category(item: RssItemView) -> Option<Seq<char>> {
    if item.categories.len() > 0 {
        Some(item.categories[0])
    } else {
        match item.dublin_core {
            Some(dc) => first_of(dc.subjects),
            None => None,
        }
    }
}

/// The article that an RSS item becomes, given the instant that was read
/// from its publication date.
pub open spec fn rss_entry(
    feed_id: Seq<char>,
    item: RssItemView,
    published_at: Option<Timestamp>,
) -> FeedEntryView {
    FeedEntryView {
        feed_id,
        title: or_empty(item.title),
        summary: item.description,
        url: or_empty(item.link),
        published_at,
        guid: item.guid,
        author: rss_author(item),
        category: rss_category(item),
        content_html: item.content,
        image_url: item.enclosure_url,
    }
}

/// The instant of an RSS item's publication date: none without a date, and
/// none for a date that is not RFC 2822.
pub open spec fn rss_published(item: RssItemView) -> Option<Timestamp> {
    match item.pub_date {
        Some(text) => rfc2822_instant(text),
        None => None,
    }
}

/// The article that an Atom entry becomes.
pub open spec fn atom_entry(feed_id: Seq<char>, entry: AtomEntryView) -> FeedEntryView {
    FeedEntryView {
        feed_id,
        title: entry.title,
        summary: entry.summary,
        url: or_empty(first_of(entry.links)),
        published_at: match entry.published {
            Some(at) => Some(at),
            None => Some(entry.updated),
        },
        guid: Some(entry.id),
        author: first_of(entry.authors),
        category: first_of(entry.categories),
        content_html: entry.content,
        image_url: None,
    }
}

/// Copies the first text of a list, if it has any.
pub fn clone_first(texts: &Vec<String>) -> (first: Option<String>)
    ensures
        first.deep_view() == first_of(texts.deep_view()),
{
    if texts.len() > 0 {
        Some(texts[0].clone())
    } else {
        None
    }
}

/// Copies the text, or gives the empty text where there is none.
pub fn clone_or_empty(text: &Option<String>) -> (copy: String)
    ensures
        copy@ == or_empty(text.deep_view()),
{
    match text {
        Some(t) => t.clone(),
        None => String::new(),
    }
}

impl FeedEntry {
    /// Normalizes an RSS item whose publication date has been read already.
    pub fn from_rss_parts(feed_id: &str, item: &RssItem, published_at: Option<Timestamp>) -> (entry:
        FeedEntry)
        ensures
            entry@ == rss_entry(feed_id@, item@, published_at),
    {
        let author = match &item.dublin_core {
            Some(dc) => {
                if dc.creators.len() > 0 {
                    Some(dc.creators[0].clone())
                } else {
                    clone_text(&item.author)
                }
            },
            None => clone_text(&item.author),
        };
        let category = if item.categories.len() > 0 {
            Some(item.categories[0].clone())
        } else {
            match &item.dublin_core {
                Some(dc) => clone_first(&dc.subjects),
                None => None,
            }
        };
        FeedEntry {
            feed_id: feed_id.to_owned(),
            title: clone_or_empty(&item.title),
            summary: clone_text(&item.description),
            url: clone_or_empty(&item.link),
            published_at,
            guid: clone_text(&item.guid),
            author,
            category,
            content_html: clone_text(&item.content),
            image_url: clone_text(&item.enclosure_url),
        }
    }

    /// Normalizes an RSS item. The publication time is what `chrono` reads
    /// from the item's date as RFC 2822, and is missing where the item has
    /// no date or the date does not parse.
    pub fn from_rss_item(feed_id: &str, item: &RssItem) -> (entry: FeedEntry)
        ensures
            entry@ == rss_entry(feed_id@, item@, rss_published(item@)),
    {
        let published_at = match &item.pub_date {
            Some(text) => parse_rfc2822(text.as_str()),
            None => None,
        };
        FeedEntry::from_rss_parts(feed_id, item, published_at)
    }

    /// Normalizes an Atom entry. The publication time falls back to the
    /// time of the last update, and the entry's id is its GUID.
    pub fn from_atom_entry(feed_id: &str, entry: &AtomEntry) -> (out: FeedEntry)
        ensures
            out@ == atom_entry(feed_id@, entry@),
    {
        let published_at = match entry.published {
            Some(at) => Some(at),
            None => Some(entry.updated),
        };
        let url = clone_first(&entry.links);
        FeedEntry {
            feed_id: feed_id.to_owned(),
            title: entry.title.clone(),
            summary: clone_text(&entry.summary),
            url: clone_or_empty(&url),
            published_at,
            guid: Some(entry.id.clone()),
            author: clone_first(&entry.authors),
            category: clone_first(&entry.categories),
            content_html: clone_text(&entry.content),
            image_url: None,
        }
    }
}

/// The list without the feeds of the given id.
pub open spec fn without_feed(feeds: Seq<FeedDescriptorView>, id: Seq<char>) -> Seq<
    FeedDescriptorView,
> {
    feeds.filter(other_id(id))
}

/// The test that a feed has another id than `id`.
pub open spec fn other_id(id: Seq<char>) -> spec_fn(FeedDescriptorView) -> bool {
    |f: FeedDescriptorView| f.id != id
}

/// The list of subscribed feeds.
pub type FeedList = Vec<FeedDescriptor>;

/// Makes the feed list that the stores and the poller share.
pub fn shared_feed_list(initial: Vec<FeedDescriptor>) -> (store: FeedList)
    ensures
        store == initial,
{
    initial
}

/// Adds a feed at the end of the list, in place of any feed of the same id.
pub fn add_feed(store: &mut FeedList, feed: FeedDescriptor)
    ensures
        final(store).deep_view() == without_feed(old(store).deep_view(), feed.id@).push(feed@),
{
    remove_feed(store, feed.id.as_str());
    let ghost kept = store.deep_view();
    store.push(feed);
    assert(store.deep_view() =~= kept.push(feed@));
}

/// Removes the feeds of the given id from the list.
pub fn remove_feed(store: &mut FeedList, feed_id: &str)
    ensures
        final(store).deep_view() == without_feed(old(store).deep_view(), feed_id@),
{
    let ghost before = store.deep_view();
    let ghost keep = other_id(feed_id@);
    let mut i: usize = 0;
    let ghost mut done: int = 0;
    proof {
        assert(before.take(0).filter(keep) =~= Seq::<FeedDescriptorView>::empty());
        assert(before.skip(0) =~= before);
    }
    while i < store.len()
        invariant
            0 <= done <= before.len(),
            i <= store.len(),
            i == before.take(done).filter(keep).len(),
            store.deep_view() == before.take(done).filter(keep) + before.skip(done),
            keep == other_id(feed_id@),
        decreases store.len() - i,
    {
        let ghost held = store.deep_view();
        proof {
            assert(held[i as int] == before[done]);
            assert(store[i as int]@ == held[i as int]);
            assert(before.take(done + 1) =~= before.take(done).push(before[done]));
            before.take(done).lemma_filter_push(before[done], keep);
        }
        if str_eq(store[i].id.as_str(), feed_id) {
            store.remove(i);
            proof {
                assert(store.deep_view() =~= held.remove(i as int));
                assert(store.deep_view() =~= before.take(done + 1).filter(keep) + before.skip(
                    done + 1,
                ));
            }
        } else {
            proof {
                assert(store.deep_view() =~= before.take(done + 1).filter(keep) + before.skip(
                    done + 1,
                ));
            }
            i = i + 1;
        }
        proof {
            done = done + 1;
        }
    }
    proof {
        assert(before.skip(done).len() == 0);
        assert(before.take(done) =~= before);
        assert(store.deep_view() =~= before.filter(keep));
    }
}

/// A copy of the list.
pub fn list_feeds(store: &FeedList) -> (feeds: Vec<FeedDescriptor>)
    ensures
        feeds.deep_view() == store.deep_view(),
{
    let mut out: Vec<FeedDescriptor> = Vec::new();
    let mut i: usize = 0;
    while i < store.len()
        invariant
            i <= store.len(),
            out.len() == i,
            forall|j: int| 0 <= j < i ==> out[j]@ == store[j]@,
        decreases store.len() - i,
    {
        out.push(store[i].clone());
        i = i + 1;
    }
    assert(out.deep_view() =~= store.deep_view());
    out
}

/// After a feed was added, the list holds it last and holds no other feed
/// of its id; the other feeds are those that were there, in their order.
pub proof fn lemma_added_feed_is_unique(feeds: Seq<FeedDescriptorView>, feed: FeedDescriptorView)
    ensures
        ({
            let after = without_feed(feeds, feed.id).push(feed);
            &&& after.last() == feed
            &&& forall|i: int| 0 <= i < after.len() - 1 ==> (#[trigger] after[i]).id != feed.id
            &&& forall|f: FeedDescriptorView|
                f.id != feed.id ==> (after.contains(f) <==> feeds.contains(f))
        }),
{
    let kept = without_feed(feeds, feed.id);
    let after = kept.push(feed);
    assert forall|i: int| 0 <= i < after.len() - 1 implies (#[trigger] after[i]).id != feed.id by {
        assert(after[i] == kept[i]);
        feeds.lemma_filter_pred(other_id(feed.id), i);
    }
    assert forall|f: FeedDescriptorView| f.id != feed.id implies (after.contains(f)
        <==> feeds.contains(f)) by {
        if after.contains(f) {
            let i = choose|i: int| 0 <= i < after.len() && after[i] == f;
            assert(i < kept.len());
            assert(kept[i] == f);
            assert(kept.contains(f));
            feeds.lemma_filter_contains_rev(other_id(feed.id), f);
        }
        if feeds.contains(f) {
            let i = choose|i: int| 0 <= i < feeds.len() && feeds[i] == f;
            feeds.lemma_filter_contains(other_id(feed.id), i);
            assert(kept.contains(f));
            let k = choose|k: int| 0 <= k < kept.len() && kept[k] == f;
            assert(after[k] == f);
        }
    }
}

/// No two feeds of the list share an id.
pub open spec fn unique_ids(feeds: Seq<FeedDescriptorView>) -> bool {
    forall|i: int, j: int| 0 <= i < j < feeds.len() ==> feeds[i].id != feeds[j].id
}

proof fn lemma_without_keeps_unique(feeds: Seq<FeedDescriptorView>, id: Seq<char>)
    requires
        unique_ids(feeds),
    ensures
        unique_ids(without_feed(feeds, id)),
    decreases feeds.len(),
{
    reveal(Seq::filter);
    let keep = other_id(id);
    if feeds.len() > 0 {
        let head = feeds.drop_last();
        assert forall|i: int, j: int| 0 <= i < j < head.len() implies head[i].id != head[j].id by {
            assert(head[i] == feeds[i]);
            assert(head[j] == feeds[j]);
        }
        lemma_without_keeps_unique(head, id);
        let kept = head.filter(keep);
        if keep(feeds.last()) {
            let out = kept.push(feeds.last());
            assert forall|i: int, j: int| 0 <= i < j < out.len() implies out[i].id != out[j].id by {
                if j == kept.len() {
                    assert(kept.contains(kept[i]));
                    head.lemma_filter_contains_rev(keep, kept[i]);
                    let k = choose|k: int| 0 <= k < head.len() && head[k] == kept[i];
                    assert(feeds[k] == kept[i]);
                    assert(feeds[k].id != feeds[feeds.len() - 1].id);
                } else {
                    assert(out[i] == kept[i]);
                    assert(out[j] == kept[j]);
                }
            }
        }
    }
}

/// A list without repeated ids stays so when a feed is added or removed.
pub proof fn lemma_ids_stay_unique(feeds: Seq<FeedDescriptorView>, feed: FeedDescriptorView)
    requires
        unique_ids(feeds),
    ensures
        unique_ids(without_feed(feeds, feed.id)),
        unique_ids(without_feed(feeds, feed.id).push(feed)),
{
    lemma_without_keeps_unique(feeds, feed.id);
    lemma_added_feed_is_unique(feeds, feed);
    let kept = without_feed(feeds, feed.id);
    let after = kept.push(feed);
    assert forall|i: int, j: int| 0 <= i < j < after.len() implies after[i].id != after[j].id by {
        if j < kept.len() {
            assert(after[i] == kept[i]);
            assert(after[j] == kept[j]);
        }
    }
}

/// Two entries whose GUID, URL, title and publication second agree have the
/// same identity, whatever their other fields hold.
pub proof fn lemma_identity_deterministic(a: FeedEntryView, b: FeedEntryView)
    requires
        a.guid == b.guid,
        a.url == b.url,
        a.title == b.title,
        a.published_secs() == b.published_secs(),
    ensures
        a.identity() == b.identity(),
{
}

/// The identity follows strict precedence: a GUID decides alone; without one
/// a non-empty URL decides alone; only without both do title and publication
/// second count.
pub proof fn lemma_identity_precedence(e: FeedEntryView)
    ensures
        e.guid is Some ==> e.identity() == "guid:"@ + e.guid->0,
        e.guid is None && e.url.len() > 0 ==> e.identity() == "url:"@ + e.url,
        e.guid is None && e.url.len() == 0 ==> e.identity() == "title:"@ + e.title + "@"@
            + int_decimal(e.published_secs()),
{
}

/// Identities built from different rungs of the precedence never coincide,
/// and on the GUID and URL rungs the identity determines the field it was
/// built from.
pub proof fn lemma_identity_rungs_apart(a: FeedEntryView, b: FeedEntryView)
    requires
        a.identity() == b.identity(),
    ensures
        a.guid is Some <==> b.guid is Some,
        a.guid is Some ==> a.guid == b.guid,
        a.guid is None ==> (a.url.len() > 0 <==> b.url.len() > 0),
        a.guid is None && a.url.len() > 0 ==> a.url == b.url,
{
    reveal_strlit("guid:");
    reveal_strlit("url:");
    reveal_strlit("title:");
    let ia = a.identity();
    let ib = b.identity();
    assert(ia[0] == ib[0]);
    assert(ia.len() == ib.len());
    if a.guid is Some {
        assert(ia[0] == 'g');
        assert(b.guid is Some);
        let ga = a.guid->0;
        let gb = b.guid->0;
        assert(ga.len() == gb.len());
        assert forall|i: int| 0 <= i < ga.len() implies ga[i] == gb[i] by {
            assert(ia[i + 5] == ga[i]);
            assert(ib[i + 5] == gb[i]);
        }
        assert(ga =~= gb);
    } else if a.url.len() > 0 {
        assert(ia[0] == 'u');
        assert(b.guid is None);
        assert(b.url.len() > 0);
        assert(a.url.len() == b.url.len());
        assert forall|i: int| 0 <= i < a.url.len() implies a.url[i] == b.url[i] by {
            assert(ia[i + 4] == a.url[i]);
            assert(ib[i + 4] == b.url[i]);
        }
        assert(a.url =~= b.url);
    } else {
        assert(ia[0] == 't');
    }
}

} // verus!
