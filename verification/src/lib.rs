//! Core of a feed reader: the entry model with its deduplication identity,
//! the seen, read and article stores, the fetch pipeline's decisions, and the
//! poller's retry and scheduling rules. Everything here is synchronous and
//! touches neither files nor the network; callers hand in the bytes they
//! fetched and the outcomes of their attempts, and carry out the writes and
//! waits that the library decides on.

pub mod articles;
pub mod config;
pub mod data;
pub mod discover;
pub mod error;
pub mod feed;
pub mod fetch;
pub mod lists;
pub mod marks;
pub mod persist;
pub mod poller;
pub mod storage;
pub mod sync;
pub mod text;
pub mod time;

pub use config::{load_poll_config, FeedConfig, ThemeConfig};
pub use data::DataApi;
pub use discover::recommended_categories;
pub use error::PollError;
pub use feed::{
    add_feed, list_feeds, remove_feed, shared_feed_list, FeedDescriptor, FeedEntry, FeedList,
};
pub use poller::{poll_once, Event, PollConfig};
pub use storage::{SeenData, SeenStore};
pub use sync::UpdateEvent;
pub use time::{TimeSpan, Timestamp};
