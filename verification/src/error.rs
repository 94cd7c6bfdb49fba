//! Failures of fetching and polling.

use vstd::prelude::*;

use crate::text::{format_u64, nat_decimal};

verus! {

/// Why a feed could not be fetched, or why the poller failed.
#[derive(Debug, Clone, PartialEq, Eq)]
pub enum PollError {
    /// The connection failed or timed out; the text says how.
    Network(String),
    /// The document is neither RSS nor Atom; the text is the RSS parser's.
    Parse(String),
    /// The background task ended abnormally.
    Task(String),
    /// The receiver of new-article events is gone.
    UpdateChannelClosed,
    /// The URL's scheme is not accepted for its host.
    UnsupportedScheme,
    /// The URL does not parse; the text says why.
    InvalidUrl(String),
    /// The document exceeds the size limit; the number is the bytes seen.
    TooLarge(u64),
}

/// Mathematical value of a [`PollError`].
pub enum PollErrorView {
    Network(Seq<char>),
    Parse(Seq<char>),
    Task(Seq<char>),
    UpdateChannelClosed,
    UnsupportedScheme,
    InvalidUrl(Seq<char>),
    TooLarge(u64),
}

impl View for PollError {
    type V = PollErrorView;

    open spec fn view(&self) -> PollErrorView {
        match self {
            PollError::Network(m) => PollErrorView::Network(m@),
            PollError::Parse(m) => PollErrorView::Parse(m@),
            PollError::Task(m) => PollErrorView::Task(m@),
            PollError::UpdateChannelClosed => PollErrorView::UpdateChannelClosed,
            PollError::UnsupportedScheme => PollErrorView::UnsupportedScheme,
            PollError::InvalidUrl(m) => PollErrorView::InvalidUrl(m@),
            PollError::TooLarge(n) => PollErrorView::TooLarge(*n),
        }
    }
}

impl DeepView for PollError {
    type V = PollErrorView;

    open spec fn deep_view(&self) -> PollErrorView {
        self@
    }
}

impl PollErrorView {
    /// The text shown for the error.
    pub open spec fn message(self) -> Seq<char> {
        match self {
            PollErrorView::Network(m) => "network error: "@ + m,
            PollErrorView::Parse(m) => "feed parsing error: "@ + m,
            PollErrorView::Task(m) => "poller task failed: "@ + m,
            PollErrorView::UpdateChannelClosed => "update channel closed unexpectedly"@,
            PollErrorView::UnsupportedScheme => "unsupported URL scheme (https required)"@,
            PollErrorView::InvalidUrl(m) => "invalid feed url: "@ + m,
            PollErrorView::TooLarge(n) => "feed too large: "@ + nat_decimal(n as nat) + " bytes"@,
        }
    }
}

impl PollError {
    /// The text shown for the error.
    pub fn message(&self) -> (text: String)
        ensures
            text@ == self@.message(),
    {
        match self {
            PollError::Network(m) => {
                let mut text = String::from_str("network error: ");
                text.append(m.as_str());
                text
            },
            PollError::Parse(m) => {
                let mut text = String::from_str("feed parsing error: ");
                text.append(m.as_str());
                text
            },
            PollError::Task(m) => {
                let mut text = String::from_str("poller task failed: ");
                text.append(m.as_str());
                text
            },
            PollError::UpdateChannelClosed => String::from_str(
                "update channel closed unexpectedly",
            ),
            PollError::UnsupportedScheme => String::from_str(
                "unsupported URL scheme (https required)",
            ),
            PollError::InvalidUrl(m) => {
                let mut text = String::from_str("invalid feed url: ");
                text.append(m.as_str());
                text
            },
            PollError::TooLarge(n) => {
                let mut text = String::from_str("feed too large: ");
                let digits = format_u64(*n);
                text.append(digits.as_str());
                text.append(" bytes");
                text
            },
        }
    }
}

} // verus!
