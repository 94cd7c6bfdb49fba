use rss_core::config::{interval_fits, load_poll_config, FeedConfig, Rgb, ThemeConfig};
use rss_core::poller::PollConfig;
use rss_core::sync::UpdateEvent;
use rss_core::time::TimeSpan;

#[test]
fn default_theme_is_the_dark_theme() {
    let theme = ThemeConfig::default();
    assert_eq!(theme.background_color, [30, 30, 30]);
    assert_eq!(theme.panel_color, [37, 37, 38]);
    assert_eq!(theme.accent_color, [0, 122, 204]);
    assert_eq!(theme.text_color, [204, 204, 204]);
    assert_eq!(theme.secondary_text_color, [150, 150, 150]);
    assert_eq!(theme.border_color, [60, 60, 60]);
}

#[test]
fn theme_colours_come_out_channel_by_channel() {
    let theme = ThemeConfig {
        background_color: [1, 2, 3],
        panel_color: [4, 5, 6],
        accent_color: [7, 8, 9],
        text_color: [10, 11, 12],
        secondary_text_color: [13, 14, 15],
        border_color: [16, 17, 255],
    };
    assert_eq!(theme.background_color32(), Rgb { r: 1, g: 2, b: 3 });
    assert_eq!(theme.panel_color32(), Rgb { r: 4, g: 5, b: 6 });
    assert_eq!(theme.accent_color32(), Rgb { r: 7, g: 8, b: 9 });
    assert_eq!(theme.text_color32(), Rgb { r: 10, g: 11, b: 12 });
    assert_eq!(theme.secondary_text_color32(), Rgb { r: 13, g: 14, b: 15 });
    assert_eq!(theme.border_color32(), Rgb { r: 16, g: 17, b: 255 });
}

#[test]
fn default_feed_settings() {
    assert_eq!(
        FeedConfig::default(),
        FeedConfig {
            update_interval_minutes: 30,
            max_articles_per_feed: 100,
            request_timeout_seconds: 10,
            retry_attempts: 3,
        }
    );
}

#[test]
fn poll_config_is_made_from_the_feed_settings() {
    let cfg = load_poll_config(&FeedConfig::default());
    assert_eq!(
        cfg,
        PollConfig {
            interval: TimeSpan { secs: 1800, nanos: 0 },
            request_timeout: TimeSpan { secs: 10, nanos: 0 },
            max_retries: 3,
            retry_backoff_ms: 500,
        }
    );
}

#[test]
fn poll_config_raises_zero_settings_to_one() {
    let cfg = load_poll_config(&FeedConfig {
        update_interval_minutes: 0,
        max_articles_per_feed: 0,
        request_timeout_seconds: 0,
        retry_attempts: 0,
    });
    assert_eq!(cfg.interval, TimeSpan { secs: 60, nanos: 0 });
    assert_eq!(cfg.request_timeout, TimeSpan { secs: 1, nanos: 0 });
    assert_eq!(cfg.max_retries, 1);
    assert_eq!(cfg.retry_backoff_ms, 500);
}

#[test]
fn poll_config_takes_the_largest_settings_that_fit() {
    let widest = FeedConfig {
        update_interval_minutes: u64::MAX / 60,
        max_articles_per_feed: 1,
        request_timeout_seconds: u64::MAX,
        retry_attempts: 255,
    };
    assert!(interval_fits(&widest));
    let cfg = load_poll_config(&widest);
    assert_eq!(cfg.interval.secs, (u64::MAX / 60) * 60);
    assert_eq!(cfg.request_timeout.secs, u64::MAX);
    assert_eq!(cfg.max_retries, 255);
    let too_wide = FeedConfig { update_interval_minutes: u64::MAX / 60 + 1, ..widest };
    assert!(!interval_fits(&too_wide));
}

#[test]
fn update_events_carry_the_feed_number() {
    assert_eq!(UpdateEvent::FeedAdded(3), UpdateEvent::FeedAdded(3));
    assert_ne!(UpdateEvent::FeedAdded(3), UpdateEvent::ArticlesUpdated(3));
}
