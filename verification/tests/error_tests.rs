use rss_core::error::PollError;

#[test]
fn messages_name_the_failure() {
    assert_eq!(
        PollError::Network("connection refused".to_string()).message(),
        "network error: connection refused"
    );
    assert_eq!(
        PollError::Parse("the input did not begin with an rss tag".to_string()).message(),
        "feed parsing error: the input did not begin with an rss tag"
    );
    assert_eq!(
        PollError::Task("task 7 panicked".to_string()).message(),
        "poller task failed: task 7 panicked"
    );
    assert_eq!(
        PollError::UpdateChannelClosed.message(),
        "update channel closed unexpectedly"
    );
    assert_eq!(
        PollError::UnsupportedScheme.message(),
        "unsupported URL scheme (https required)"
    );
    assert_eq!(
        PollError::InvalidUrl("relative URL without a base".to_string()).message(),
        "invalid feed url: relative URL without a base"
    );
    assert_eq!(
        PollError::TooLarge(11534336).message(),
        "feed too large: 11534336 bytes"
    );
    assert_eq!(PollError::TooLarge(0).message(), "feed too large: 0 bytes");
}
