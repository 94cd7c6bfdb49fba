//! The seen store: which article identities were ever observed, per feed.

use vstd::prelude::*;

use crate::feed::{FeedEntry, FeedEntryView};
use crate::marks::{is_marked, with_mark, MarkTable, Marks};
use crate::persist::{
    after_primary, after_temp, recovered, write_target, Files, LoadStep, Loaded, WriteTarget,
};

verus! {

/// The identities ever observed, feed by feed.
#[derive(Debug)]
pub struct SeenData {
    pub seen: MarkTable,
}

impl View for SeenData {
    type V = Marks;

    open spec fn view(&self) -> Marks {
        self.seen@
    }
}

impl Default for SeenData {
    fn default() -> (data: SeenData)
        ensures
            data@ == Map::<Seq<char>, Set<Seq<char>>>::empty(),
    {
        SeenData { seen: MarkTable::new() }
    }
}

/// Whether the store has not yet observed `e`.
pub open spec fn is_new(seen: Marks, e: FeedEntryView) -> bool {
    !is_marked(seen, e.feed_id, e.identity())
}

/// The store after it has observed `e`.
pub open spec fn observed(seen: Marks, e: FeedEntryView) -> Marks {
    if is_new(seen, e) {
        with_mark(seen, e.feed_id, e.identity())
    } else {
        seen
    }
}

/// The seen store with the place it is kept at, if it is kept anywhere.
#[derive(Debug)]
pub struct SeenStore {
    inner: SeenData,
    path: Option<String>,
}

impl View for SeenStore {
    type V = Marks;

    closed spec fn view(&self) -> Marks {
        self.inner@
    }
}

impl SeenStore {
    /// Where the store is kept; `None` for a store that lives in memory only.
    pub closed spec fn backing(&self) -> Option<Seq<char>> {
        self.path.deep_view()
    }

    /// An empty store that lives in memory only.
    pub fn in_memory() -> (store: SeenStore)
        ensures
            store@ == Map::<Seq<char>, Set<Seq<char>>>::empty(),
            store.backing() is None,
    {
        SeenStore { inner: SeenData::default(), path: None }
    }

    /// A store kept at `path`, starting from what the two files there gave:
    /// the readings of the store's file and of the temporary file beside
    /// it. The store's file counts where it parses; where it does not, the
    /// temporary file is the rescue; where neither gives a value, and where
    /// the store's file is missing, the store starts empty.
    pub fn load_from(path: String, primary: Loaded<SeenData>, temp: Loaded<SeenData>) -> (store:
        SeenStore)
        ensures
            store.backing() == Some(path@),
            store@ == match recovered(Files { primary, temp }) {
                Some(data) => data@,
                None => Map::<Seq<char>, Set<Seq<char>>>::empty(),
            },
    {
        let stored = match after_primary(primary) {
            LoadStep::Done(value) => value,
            LoadStep::ReadTemp => after_temp(temp),
        };
        let inner = match stored {
            Some(data) => data,
            None => SeenData::default(),
        };
        SeenStore { inner, path: Some(path) }
    }

    /// Records the entry's identity for its feed if it is not yet recorded.
    /// Returns whether it was new; an entry seen before changes nothing.
    pub fn is_new_and_mark(&mut self, entry: &FeedEntry) -> (fresh: bool)
        ensures
            fresh == is_new(old(self)@, entry@),
            final(self)@ == observed(old(self)@, entry@),
            final(self).backing() == old(self).backing(),
    {
        let key = entry.identity();
        if self.inner.seen.contains(entry.feed_id.as_str(), key.as_str()) {
            false
        } else {
            self.inner.seen.insert(entry.feed_id.as_str(), key);
            true
        }
    }

    /// Forgets everything observed for a feed, as when the feed is removed
    /// for good; its articles count as new again.
    pub fn forget_feed(&mut self, feed_id: &str)
        ensures
            final(self)@ == old(self)@.remove(feed_id@),
            final(self).backing() == old(self).backing(),
    {
        self.inner.seen.remove_feed(feed_id);
    }

    /// Where to write the store after a call of
    /// [`is_new_and_mark`](Self::is_new_and_mark) that returned `marked`:
    /// to the backing path, by way of the temporary file beside it, if the
    /// call recorded something; nowhere otherwise, and nowhere for a store
    /// in memory. The write takes the steps of
    /// [`next_persist_action`](crate::persist::next_persist_action).
    pub fn persist_target(&self, marked: bool) -> (target: Option<WriteTarget>)
        ensures
            target is Some <==> marked && self.backing() is Some,
            target is Some ==> Some(target->0.path@) == self.backing() && target->0.temp_path@
                == target->0.path@ + ".tmp"@,
    {
        if marked {
            match &self.path {
                Some(path) => Some(write_target(path.as_str())),
                None => None,
            }
        } else {
            None
        }
    }

    /// The data of the store.
    pub fn data(&self) -> (data: &SeenData)
        ensures
            data@ == self@,
    {
        &self.inner
    }
}

} // verus!
