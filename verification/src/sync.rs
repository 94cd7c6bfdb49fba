//! Notices of change for listeners that keep their own copy of the data.

use vstd::prelude::*;

verus! {

/// What changed in the data, by the number of the feed concerned.
#[derive(Debug, Clone, Copy, PartialEq, Eq, Structural)]
pub enum UpdateEvent {
    /// A feed of this number was added.
    FeedAdded(i64),
    /// The articles of the feed of this number changed.
    ArticlesUpdated(i64),
}

} // verus!
