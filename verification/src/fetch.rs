//! The decisions of fetching a feed: which URLs may be fetched, how much of
//! a response is accepted, and how the bytes of a document become articles.

use vstd::prelude::*;

use crate::error::{PollError, PollErrorView};
use crate::feed::{
    atom_entry, rss_entry, rss_published, AtomEntry, AtomEntryView, DublinCore, FeedEntry,
    FeedEntryView, RssItem, RssItemView,
};
use crate::text::str_eq;
use crate::time::{utc_now, Timestamp};

verus! {

/// The parts of a URL that the scheme policy reads.
#[derive(Debug, Clone, PartialEq, Eq)]
pub struct UrlParts {
    pub scheme: String,
    pub host: Option<String>,
}

/// What the `url` crate makes of a text: the scheme and the host of the
/// parsed URL, or the text of the parse error.
pub uninterp spec fn url_parse(text: Seq<char>) -> Result<(Seq<char>, Option<Seq<char>>), Seq<char>>;

/// Parses a URL with `url::Url::parse` and hands out the scheme and the
/// host as the parsed URL serializes them (`Url::scheme`, `Url::host_str`),
/// or the error's display text.
#[verifier::external_body]
fn parse_url(text: &str) -> (parsed: Result<UrlParts, String>)
    ensures
        match parsed {
            Ok(parts) => url_parse(text@) == Ok::<(Seq<char>, Option<Seq<char>>), Seq<char>>(
                (parts.scheme@, parts.host.deep_view()),
            ),
            Err(message) => url_parse(text@) == Err::<(Seq<char>, Option<Seq<char>>), Seq<char>>(
                message@,
            ),
        },
{
    match url::Url::parse(text) {
        Ok(u) => Ok(UrlParts { scheme: u.scheme().to_owned(), host: u.host_str().map(str::to_owned) }),
        Err(e) => Err(e.to_string()),
    }
}

/// The hosts that count as this machine. The IPv6 loopback address is
/// accepted bare and in the brackets in which a URL writes it.
pub open spec fn is_loopback_host(host: Option<Seq<char>>) -> bool {
    host == Some("localhost"@) || host == Some("127.0.0.1"@) || host == Some("::1"@) || host
        == Some("[::1]"@)
}

/// The scheme policy: `https` for every host, `http` for this machine only.
pub open spec fn scheme_accepted(scheme: Seq<char>, host: Option<Seq<char>>) -> bool {
    scheme == "https"@ || (scheme == "http"@ && is_loopback_host(host))
}

/// What the policy says of a parsed or unparsable URL.
pub open spec fn url_verdict(parsed: Result<(Seq<char>, Option<Seq<char>>), Seq<char>>) -> Result<
    (),
    PollErrorView,
> {
    match parsed {
        Err(message) => Err(PollErrorView::InvalidUrl(message)),
        Ok((scheme, host)) => if scheme_accepted(scheme, host) {
            Ok(())
        } else {
            Err(PollErrorView::UnsupportedScheme)
        },
    }
}

/// The view of a check's result.
pub open spec fn verdict_view(r: Result<(), PollError>) -> Result<(), PollErrorView> {
    match r {
        Ok(()) => Ok(()),
        Err(e) => Err(e@),
    }
}

fn is_loopback(host: &Option<String>) -> (yes: bool)
    ensures
        yes == is_loopback_host(host.deep_view()),
{
    match host {
        Some(h) => str_eq(h.as_str(), "localhost") || str_eq(h.as_str(), "127.0.0.1") || str_eq(
            h.as_str(),
            "::1",
        ) || str_eq(h.as_str(), "[::1]"),
        None => false,
    }
}

/// Applies the scheme policy to the parts of a URL.
pub fn check_scheme(parts: &UrlParts) -> (verdict: Result<(), PollError>)
    ensures
        verdict_view(verdict) == url_verdict(
            Ok::<(Seq<char>, Option<Seq<char>>), Seq<char>>(
                (parts.scheme@, parts.host.deep_view()),
            ),
        ),
{
    if str_eq(parts.scheme.as_str(), "https") {
        Ok(())
    } else if str_eq(parts.scheme.as_str(), "http") && is_loopback(&parts.host) {
        Ok(())
    } else {
        Err(PollError::UnsupportedScheme)
    }
}

/// Decides whether a feed URL may be fetched: it must parse, and its scheme
/// must be accepted for its host.
pub fn check_feed_url(url: &str) -> (verdict: Result<(), PollError>)
    ensures
        verdict_view(verdict) == url_verdict(url_parse(url@)),
{
    match parse_url(url) {
        Ok(parts) => check_scheme(&parts),
        Err(message) => Err(PollError::InvalidUrl(message)),
    }
}

/// The most bytes of a feed document that are accepted: 10 MiB.
pub const MAX_FEED_BYTES: usize = 10 * 1024 * 1024;

/// Checks the length that a response declares, before its body is read.
pub fn check_content_length(declared: Option<u64>) -> (verdict: Result<(), PollError>)
    ensures
        verdict_view(verdict) == match declared {
            Some(len) => if len > MAX_FEED_BYTES {
                Err(PollErrorView::TooLarge(len))
            } else {
                Ok(())
            },
            None => Ok(()),
        },
{
    match declared {
        Some(len) => {
            if len > MAX_FEED_BYTES as u64 {
                Err(PollError::TooLarge(len))
            } else {
                Ok(())
            }
        },
        None => Ok(()),
    }
}

#[verifier::external_type_specification]
#[verifier::external_body]
pub struct ExBytesMut(bytes::BytesMut);

/// The bytes that a `bytes::BytesMut` holds, in order.
pub uninterp spec fn buffered(buf: bytes::BytesMut) -> Seq<u8>;

/// `BytesMut::new`: a buffer that holds nothing.
#[verifier::external_body]
fn buffer_new() -> (buf: bytes::BytesMut)
    ensures
        buffered(buf) == Seq::<u8>::empty(),
{
    bytes::BytesMut::new()
}

/// `BytesMut::len`: the number of bytes held.
#[verifier::external_body]
fn buffer_len(buf: &bytes::BytesMut) -> (n: usize)
    ensures
        n == buffered(*buf).len(),
{
    buf.len()
}

/// `BytesMut::extend_from_slice`: the bytes of `chunk` are appended. The
/// method panics if the new length overflows `usize`.
#[verifier::external_body]
fn buffer_extend(buf: &mut bytes::BytesMut, chunk: &[u8])
    requires
        buffered(*old(buf)).len() + chunk@.len() <= usize::MAX,
    ensures
        buffered(*final(buf)) == buffered(*old(buf)) + chunk@,
{
    buf.extend_from_slice(chunk)
}

/// `BytesMut::freeze` and `Bytes::to_vec`: the bytes held, as a vector.
#[verifier::external_body]
fn buffer_into_vec(buf: bytes::BytesMut) -> (bytes: Vec<u8>)
    ensures
        bytes@ == buffered(buf),
{
    buf.freeze().to_vec()
}

/// The number of bytes reported when `extra` more bytes would come on top
/// of `held`: their sum, as far as a `u64` can hold it.
pub open spec fn observed_size(held: int, extra: int) -> u64 {
    if held + extra > u64::MAX {
        u64::MAX
    } else {
        (held + extra) as u64
    }
}

/// The body of a response while it is read chunk by chunk. It never holds
/// more than [`MAX_FEED_BYTES`].
pub struct BodyBuffer {
    buf: bytes::BytesMut,
}

impl View for BodyBuffer {
    type V = Seq<u8>;

    closed spec fn view(&self) -> Seq<u8> {
        buffered(self.buf)
    }
}

impl BodyBuffer {
    #[verifier::type_invariant]
    closed spec fn within_limit(&self) -> bool {
        buffered(self.buf).len() <= MAX_FEED_BYTES
    }

    /// An empty body.
    pub fn new() -> (body: BodyBuffer)
        ensures
            body@ == Seq::<u8>::empty(),
    {
        BodyBuffer { buf: buffer_new() }
    }

    /// The number of bytes read so far.
    pub fn len(&self) -> (n: usize)
        ensures
            n == self@.len(),
            n <= MAX_FEED_BYTES,
    {
        proof {
            use_type_invariant(self);
        }
        buffer_len(&self.buf)
    }

    /// Takes the next chunk if the body stays within [`MAX_FEED_BYTES`].
    /// Otherwise the body is left as it was and the error carries the
    /// number of bytes seen, the refused chunk included.
    pub fn push_chunk(&mut self, chunk: &[u8]) -> (taken: Result<(), PollError>)
        ensures
            old(self)@.len() + chunk@.len() <= MAX_FEED_BYTES ==> taken is Ok && final(self)@
                == old(self)@ + chunk@,
            old(self)@.len() + chunk@.len() > MAX_FEED_BYTES ==> final(self)@ == old(self)@
                && verdict_view(taken) == Err::<(), PollErrorView>(
                PollErrorView::TooLarge(observed_size(old(self)@.len() as int, chunk@.len() as int)),
            ),
            final(self)@.len() <= MAX_FEED_BYTES,
    {
        proof {
            use_type_invariant(&*self);
        }
        let held: usize = buffer_len(&self.buf);
        match (held as u64).checked_add(chunk.len() as u64) {
            Some(total) => {
                if total > MAX_FEED_BYTES as u64 {
                    Err(PollError::TooLarge(total))
                } else {
                    let mut buf = buffer_new();
                    std::mem::swap(&mut buf, &mut self.buf);
                    buffer_extend(&mut buf, chunk);
                    self.buf = buf;
                    Ok(())
                }
            },
            None => Err(PollError::TooLarge(u64::MAX)),
        }
    }

    /// Ends reading and hands out the bytes.
    pub fn finish(self) -> (bytes: Vec<u8>)
        ensures
            bytes@ == self@,
            bytes.len() <= MAX_FEED_BYTES,
    {
        proof {
            use_type_invariant(&self);
        }
        buffer_into_vec(self.buf)
    }
}

#[verifier::external_type_specification]
#[verifier::external_body]
pub struct ExRssChannel(rss::Channel);

#[verifier::external_type_specification]
#[verifier::external_body]
pub struct ExAtomFeed(atom_syndication::Feed);

/// What the `rss` crate makes of a document: the items of the channel it
/// reads, or the display text of its error.
pub uninterp spec fn rss_parse(bytes: Seq<u8>) -> Result<Seq<RssItemView>, Seq<char>>;

/// The items that an `rss::Channel` holds, in order.
pub uninterp spec fn rss_items(channel: rss::Channel) -> Seq<RssItemView>;

/// What the `atom_syndication` crate makes of a document: the entries of
/// the feed it reads, or nothing where it reports an error.
pub uninterp spec fn atom_parse(bytes: Seq<u8>) -> Option<Seq<AtomEntryView>>;

/// The entries that an `atom_syndication::Feed` holds, in order.
pub uninterp spec fn atom_entries(feed: atom_syndication::Feed) -> Seq<AtomEntryView>;

/// Reads a document with `rss::Channel::read_from`. On success the channel
/// holds the items that the parser made of the bytes; on failure the text
/// is the error's display text.
#[verifier::external_body]
fn rss_read(bytes: &[u8]) -> (read: Result<rss::Channel, String>)
    ensures
        match read {
            Ok(channel) => rss_parse(bytes@) == Ok::<Seq<RssItemView>, Seq<char>>(
                rss_items(channel),
            ),
            Err(message) => rss_parse(bytes@) == Err::<Seq<RssItemView>, Seq<char>>(message@),
        },
{
    rss::Channel::read_from(bytes).map_err(|e| e.to_string())
}

/// The number of items of a channel (`Channel::items`).
#[verifier::external_body]
fn rss_item_count(channel: &rss::Channel) -> (n: usize)
    ensures
        n == rss_items(*channel).len(),
{
    channel.items().len()
}

/// The item at an index of a channel (`Channel::items`), field by field as
/// plain text.
#[verifier::external_body]
fn rss_item_at(channel: &rss::Channel, i: usize) -> (item: RssItem)
    requires
        i < rss_items(*channel).len(),
    ensures
        item@ == rss_items(*channel)[i as int],
{
    let it = &channel.items()[i];
    RssItem {
        title: it.title.clone(),
        link: it.link.clone(),
        description: it.description.clone(),
        author: it.author.clone(),
        categories: it.categories.iter().map(|c| c.name.clone()).collect(),
        enclosure_url: it.enclosure.as_ref().map(|e| e.url.clone()),
        guid: it.guid.as_ref().map(|g| g.value.clone()),
        pub_date: it.pub_date.clone(),
        content: it.content.clone(),
        dublin_core: it.dublin_core_ext.as_ref().map(|d| DublinCore { creators: d.creators.clone(), subjects: d.subjects.clone() }),
    }
}

/// Reads a document with `atom_syndication::Feed::read_from`. On success
/// the feed holds the entries that the parser made of the bytes.
#[verifier::external_body]
fn atom_read(bytes: &[u8]) -> (read: Option<atom_syndication::Feed>)
    ensures
        match read {
            Some(feed) => atom_parse(bytes@) == Some(atom_entries(feed)),
            None => atom_parse(bytes@) is None,
        },
{
    atom_syndication::Feed::read_from(bytes).ok()
}

/// The number of entries of a feed (`Feed::entries`).
#[verifier::external_body]
fn atom_entry_count(feed: &atom_syndication::Feed) -> (n: usize)
    ensures
        n == atom_entries(*feed).len(),
{
    feed.entries().len()
}

/// The texts of the entry at an index of a feed (`Feed::entries`): title,
/// id, summary and inline content.
#[verifier::external_body]
fn atom_entry_texts(feed: &atom_syndication::Feed, i: usize) -> (texts: (
    String,
    String,
    Option<String>,
    Option<String>,
))
    requires
        i < atom_entries(*feed).len(),
    ensures
        texts.0@ == atom_entries(*feed)[i as int].title,
        texts.1@ == atom_entries(*feed)[i as int].id,
        texts.2.deep_view() == atom_entries(*feed)[i as int].summary,
        texts.3.deep_view() == atom_entries(*feed)[i as int].content,
{
    let e = &feed.entries()[i];
    (
        e.title.value.clone(),
        e.id.clone(),
        e.summary.as_ref().map(|s| s.value.clone()),
        e.content.as_ref().and_then(|c| c.value.clone()),
    )
}

/// The times of the entry at an index of a feed (`Feed::entries`): last
/// update and publication, in seconds and nanoseconds since the Unix epoch
/// (`DateTime::timestamp`, `DateTime::timestamp_subsec_nanos`).
#[verifier::external_body]
fn atom_entry_times(feed: &atom_syndication::Feed, i: usize) -> (times: (
    Timestamp,
    Option<Timestamp>,
))
    requires
        i < atom_entries(*feed).len(),
    ensures
        times.0 == atom_entries(*feed)[i as int].updated,
        times.1 == atom_entries(*feed)[i as int].published,
{
    let e = &feed.entries()[i];
    (
        Timestamp { secs: e.updated.timestamp(), nanos: e.updated.timestamp_subsec_nanos() },
        e.published.map(|p| Timestamp { secs: p.timestamp(), nanos: p.timestamp_subsec_nanos() }),
    )
}

/// The lists of the entry at an index of a feed (`Feed::entries`): the
/// names of its authors, the terms of its categories and the targets of its
/// links, each in document order.
#[verifier::external_body]
fn atom_entry_lists(feed: &atom_syndication::Feed, i: usize) -> (lists: (
    Vec<String>,
    Vec<String>,
    Vec<String>,
))
    requires
        i < atom_entries(*feed).len(),
    ensures
        lists.0.deep_view() == atom_entries(*feed)[i as int].authors,
        lists.1.deep_view() == atom_entries(*feed)[i as int].categories,
        lists.2.deep_view() == atom_entries(*feed)[i as int].links,
{
    let e = &feed.entries()[i];
    (
        e.authors.iter().map(|p| p.name.clone()).collect(),
        e.categories.iter().map(|c| c.term.clone()).collect(),
        e.links.iter().map(|l| l.href.clone()).collect(),
    )
}

fn atom_entry_at(feed: &atom_syndication::Feed, i: usize) -> (entry: AtomEntry)
    requires
        i < atom_entries(*feed).len(),
    ensures
        entry@ == atom_entries(*feed)[i as int],
{
    let (title, id, summary, content) = atom_entry_texts(feed, i);
    let (updated, published) = atom_entry_times(feed, i);
    let (authors, categories, links) = atom_entry_lists(feed, i);
    AtomEntry { title, id, updated, published, authors, categories, links, summary, content }
}

/// An article with the publication time filled in where it is missing.
pub open spec fn dated(e: FeedEntryView, now: Timestamp) -> FeedEntryView {
    if e.published_at is None {
        FeedEntryView { published_at: Some(now), ..e }
    } else {
        e
    }
}

/// The articles of an RSS channel's items: each item normalized, and dated
/// `now` where it has no readable date.
pub open spec fn rss_articles(feed_id: Seq<char>, items: Seq<RssItemView>, now: Timestamp) -> Seq<
    FeedEntryView,
> {
    Seq::new(items.len(), |i: int| dated(rss_entry(feed_id, items[i], rss_published(items[i])), now))
}

/// The articles of an Atom feed's entries.
pub open spec fn atom_articles(feed_id: Seq<char>, entries: Seq<AtomEntryView>, now: Timestamp) -> Seq<
    FeedEntryView,
> {
    Seq::new(entries.len(), |i: int| dated(atom_entry(feed_id, entries[i]), now))
}

/// What a document yields, given what the two parsers made of it: the RSS
/// reading where there is one, else the Atom reading, else the RSS parser's
/// error.
pub open spec fn feed_outcome(
    feed_id: Seq<char>,
    rss: Result<Seq<RssItemView>, Seq<char>>,
    atom: Option<Seq<AtomEntryView>>,
    now: Timestamp,
) -> Result<Seq<FeedEntryView>, PollErrorView> {
    match rss {
        Ok(items) => Ok(rss_articles(feed_id, items, now)),
        Err(message) => match atom {
            Some(entries) => Ok(atom_articles(feed_id, entries, now)),
            None => Err(PollErrorView::Parse(message)),
        },
    }
}

/// The view of a fetch result.
pub open spec fn outcome_view(r: Result<Vec<FeedEntry>, PollError>) -> Result<
    Seq<FeedEntryView>,
    PollErrorView,
> {
    match r {
        Ok(entries) => Ok(entries.deep_view()),
        Err(e) => Err(e@),
    }
}

fn date_entry(entry: FeedEntry, now: Timestamp) -> (out: FeedEntry)
    ensures
        out@ == dated(entry@, now),
{
    let mut entry = entry;
    if entry.published_at.is_none() {
        entry.published_at = Some(now);
    }
    entry
}

/// Normalizes the items of an RSS channel.
pub fn entries_from_rss(feed_id: &str, items: &Vec<RssItem>, now: Timestamp) -> (entries: Vec<
    FeedEntry,
>)
    ensures
        entries.deep_view() == rss_articles(feed_id@, items.deep_view(), now),
{
    let mut out: Vec<FeedEntry> = Vec::new();
    let mut i: usize = 0;
    while i < items.len()
        invariant
            i <= items.len(),
            out.len() == i,
            forall|j: int|
                0 <= j < i ==> out[j]@ == dated(
                    rss_entry(feed_id@, items[j]@, rss_published(items[j]@)),
                    now,
                ),
        decreases items.len() - i,
    {
        let entry = FeedEntry::from_rss_item(feed_id, &items[i]);
        out.push(date_entry(entry, now));
        i = i + 1;
    }
    assert(out.deep_view() =~= rss_articles(feed_id@, items.deep_view(), now));
    out
}

/// Normalizes the entries of an Atom feed.
pub fn entries_from_atom(feed_id: &str, entries: &Vec<AtomEntry>, now: Timestamp) -> (out: Vec<
    FeedEntry,
>)
    ensures
        out.deep_view() == atom_articles(feed_id@, entries.deep_view(), now),
{
    let mut out: Vec<FeedEntry> = Vec::new();
    let mut i: usize = 0;
    while i < entries.len()
        invariant
            i <= entries.len(),
            out.len() == i,
            forall|j: int| 0 <= j < i ==> out[j]@ == dated(atom_entry(feed_id@, entries[j]@), now),
        decreases entries.len() - i,
    {
        let entry = FeedEntry::from_atom_entry(feed_id, &entries[i]);
        out.push(date_entry(entry, now));
        i = i + 1;
    }
    assert(out.deep_view() =~= atom_articles(feed_id@, entries.deep_view(), now));
    out
}

/// Turns the readings of the two parsers into the result of a fetch. The
/// Atom reading counts only where the RSS parser failed, and where both
/// failed the error is the RSS parser's.
pub fn resolve_feed(
    feed_id: &str,
    rss: Result<Vec<RssItem>, String>,
    atom: Option<Vec<AtomEntry>>,
    now: Timestamp,
) -> (result: Result<Vec<FeedEntry>, PollError>)
    ensures
        outcome_view(result) == feed_outcome(
            feed_id@,
            match rss {
                Ok(items) => Ok(items.deep_view()),
                Err(message) => Err(message@),
            },
            atom.deep_view(),
            now,
        ),
{
    match rss {
        Ok(items) => Ok(entries_from_rss(feed_id, &items, now)),
        Err(message) => match atom {
            Some(entries) => Ok(entries_from_atom(feed_id, &entries, now)),
            None => Err(PollError::Parse(message)),
        },
    }
}

/// Reads a document as RSS.
pub fn read_rss(bytes: &[u8]) -> (read: Result<Vec<RssItem>, String>)
    ensures
        match read {
            Ok(items) => rss_parse(bytes@) == Ok::<Seq<RssItemView>, Seq<char>>(items.deep_view()),
            Err(message) => rss_parse(bytes@) == Err::<Seq<RssItemView>, Seq<char>>(message@),
        },
{
    match rss_read(bytes) {
        Ok(channel) => {
            let n = rss_item_count(&channel);
            let mut items: Vec<RssItem> = Vec::new();
            let mut i: usize = 0;
            while i < n
                invariant
                    i <= n,
                    n == rss_items(channel).len(),
                    items.len() == i,
                    forall|j: int| 0 <= j < i ==> items[j]@ == rss_items(channel)[j],
                decreases n - i,
            {
                items.push(rss_item_at(&channel, i));
                i = i + 1;
            }
            assert(items.deep_view() =~= rss_items(channel));
            Ok(items)
        },
        Err(message) => Err(message),
    }
}

/// Reads a document as Atom.
pub fn read_atom(bytes: &[u8]) -> (read: Option<Vec<AtomEntry>>)
    ensures
        read.deep_view() == atom_parse(bytes@),
{
    match atom_read(bytes) {
        Some(feed) => {
            let n = atom_entry_count(&feed);
            let mut entries: Vec<AtomEntry> = Vec::new();
            let mut i: usize = 0;
            while i < n
                invariant
                    i <= n,
                    n == atom_entries(feed).len(),
                    entries.len() == i,
                    forall|j: int| 0 <= j < i ==> entries[j]@ == atom_entries(feed)[j],
                decreases n - i,
            {
                entries.push(atom_entry_at(&feed, i));
                i = i + 1;
            }
            assert(entries.deep_view() =~= atom_entries(feed));
            Some(entries)
        },
        None => None,
    }
}

/// Parses a feed document fetched at the instant `now`: as RSS first, then
/// as Atom; where neither parser accepts it, the error is the RSS parser's.
pub fn parse_feed_at(feed_id: &str, bytes: &[u8], now: Timestamp) -> (result: Result<
    Vec<FeedEntry>,
    PollError,
>)
    ensures
        outcome_view(result) == feed_outcome(feed_id@, rss_parse(bytes@), atom_parse(bytes@), now),
{
    let rss = read_rss(bytes);
    let atom = if rss.is_err() {
        read_atom(bytes)
    } else {
        None
    };
    resolve_feed(feed_id, rss, atom, now)
}

/// Parses a feed document that was just fetched; entries without a date
/// are dated by the system clock.
pub fn parse_feed(feed_id: &str, bytes: &[u8]) -> (result: Result<Vec<FeedEntry>, PollError>)
    ensures
        exists|now: Timestamp|
            outcome_view(result) == #[trigger] feed_outcome(
                feed_id@,
                rss_parse(bytes@),
                atom_parse(bytes@),
                now,
            ),
{
    let now = utc_now();
    parse_feed_at(feed_id, bytes, now)
}

} // verus!
