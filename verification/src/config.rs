//! Settings of the application that the core reads: the theme's colours and
//! the feed settings from which the poller's configuration is made.

use vstd::prelude::*;

use crate::poller::PollConfig;
use crate::time::TimeSpan;

verus! {

/// An opaque colour of three 8-bit channels.
#[derive(Debug, Clone, Copy, PartialEq, Eq, Structural)]
pub struct Rgb {
    pub r: u8,
    pub g: u8,
    pub b: u8,
}

/// The colour that three channel values in the order red, green, blue name.
pub open spec fn rgb_of(channels: [u8; 3]) -> Rgb {
    Rgb { r: channels[0], g: channels[1], b: channels[2] }
}

fn rgb(channels: &[u8; 3]) -> (colour: Rgb)
    ensures
        colour == rgb_of(*channels),
{
    Rgb { r: channels[0], g: channels[1], b: channels[2] }
}

/// The colours of the user interface, each as red, green, blue.
#[derive(Debug, Clone, Copy, PartialEq, Eq)]
pub struct ThemeConfig {
    pub background_color: [u8; 3],
    pub panel_color: [u8; 3],
    pub accent_color: [u8; 3],
    pub text_color: [u8; 3],
    pub secondary_text_color: [u8; 3],
    pub border_color: [u8; 3],
}

impl Default for ThemeConfig {
    /// The dark theme.
    fn default() -> (theme: ThemeConfig)
        ensures
            rgb_of(theme.background_color) == (Rgb { r: 30, g: 30, b: 30 }),
            rgb_of(theme.panel_color) == (Rgb { r: 37, g: 37, b: 38 }),
            rgb_of(theme.accent_color) == (Rgb { r: 0, g: 122, b: 204 }),
            rgb_of(theme.text_color) == (Rgb { r: 204, g: 204, b: 204 }),
            rgb_of(theme.secondary_text_color) == (Rgb { r: 150, g: 150, b: 150 }),
            rgb_of(theme.border_color) == (Rgb { r: 60, g: 60, b: 60 }),
    {
        ThemeConfig {
            background_color: [30, 30, 30],
            panel_color: [37, 37, 38],
            accent_color: [0, 122, 204],
            text_color: [204, 204, 204],
            secondary_text_color: [150, 150, 150],
            border_color: [60, 60, 60],
        }
    }
}

impl ThemeConfig {
    /// The colour of the window background.
    pub fn background_color32(&self) -> (colour: Rgb)
        ensures
            colour == rgb_of(self.background_color),
    {
        rgb(&self.background_color)
    }

    /// The colour of panels.
    pub fn panel_color32(&self) -> (colour: Rgb)
        ensures
            colour == rgb_of(self.panel_color),
    {
        rgb(&self.panel_color)
    }

    /// The colour of accents.
    pub fn accent_color32(&self) -> (colour: Rgb)
        ensures
            colour == rgb_of(self.accent_color),
    {
        rgb(&self.accent_color)
    }

    /// The colour of text.
    pub fn text_color32(&self) -> (colour: Rgb)
        ensures
            colour == rgb_of(self.text_color),
    {
        rgb(&self.text_color)
    }

    /// The colour of secondary text.
    pub fn secondary_text_color32(&self) -> (colour: Rgb)
        ensures
            colour == rgb_of(self.secondary_text_color),
    {
        rgb(&self.secondary_text_color)
    }

    /// The colour of borders.
    pub fn border_color32(&self) -> (colour: Rgb)
        ensures
            colour == rgb_of(self.border_color),
    {
        rgb(&self.border_color)
    }
}

/// The feed settings of the application.
#[derive(Debug, Clone, Copy, PartialEq, Eq, Structural)]
pub struct FeedConfig {
    pub update_interval_minutes: u64,
    pub max_articles_per_feed: usize,
    pub request_timeout_seconds: u64,
    pub retry_attempts: u8,
}

impl Default for FeedConfig {
    fn default() -> (feeds: FeedConfig)
        ensures
            feeds == (FeedConfig {
                update_interval_minutes: 30,
                max_articles_per_feed: 100,
                request_timeout_seconds: 10,
                retry_attempts: 3,
            }),
    {
        FeedConfig {
            update_interval_minutes: 30,
            max_articles_per_feed: 100,
            request_timeout_seconds: 10,
            retry_attempts: 3,
        }
    }
}

/// A setting, raised to one where it is zero.
pub open spec fn at_least_one(n: int) -> int {
    if n < 1 {
        1
    } else {
        n
    }
}

/// Makes the poller's configuration from the application's feed settings:
/// the interval in minutes, the timeout in seconds and the number of
/// retries, none less than one; the first backoff is half a second.
pub fn load_poll_config(feeds: &FeedConfig) -> (cfg: PollConfig)
    requires
        at_least_one(feeds.update_interval_minutes as int) * 60 <= u64::MAX,
    ensures
        cfg == (PollConfig {
            interval: TimeSpan {
                secs: (at_least_one(feeds.update_interval_minutes as int) * 60) as u64,
                nanos: 0,
            },
            request_timeout: TimeSpan {
                secs: at_least_one(feeds.request_timeout_seconds as int) as u64,
                nanos: 0,
            },
            max_retries: at_least_one(feeds.retry_attempts as int) as usize,
            retry_backoff_ms: 500,
        }),
{
    let minutes: u64 = if feeds.update_interval_minutes < 1 {
        1
    } else {
        feeds.update_interval_minutes
    };
    let timeout: u64 = if feeds.request_timeout_seconds < 1 {
        1
    } else {
        feeds.request_timeout_seconds
    };
    let retries: u8 = if feeds.retry_attempts < 1 {
        1
    } else {
        feeds.retry_attempts
    };
    PollConfig {
        interval: TimeSpan::from_secs(minutes * 60),
        request_timeout: TimeSpan::from_secs(timeout),
        max_retries: retries as usize,
        retry_backoff_ms: 500,
    }
}

/// Tests whether [`load_poll_config`] can take these settings: whether the
/// interval in seconds fits a `u64`.
pub fn interval_fits(feeds: &FeedConfig) -> (fits: bool)
    ensures
        fits == (at_least_one(feeds.update_interval_minutes as int) * 60 <= u64::MAX),
{
    feeds.update_interval_minutes <= u64::MAX / 60
}

} // verus!
