//! Instants and spans of time as plain integers.

use vstd::prelude::*;

verus! {

/// An instant on the UTC time line: whole seconds since the Unix epoch and
/// the nanoseconds past that second.
#[derive(Debug, Clone, Copy, PartialEq, Eq, Structural)]
pub struct Timestamp {
    pub secs: i64,
    pub nanos: u32,
}

impl Timestamp {
    /// Chronological order: `self` is strictly earlier than `other`.
    pub open spec fn earlier_than(self, other: Timestamp) -> bool {
        self.secs < other.secs || (self.secs == other.secs && self.nanos < other.nanos)
    }

    /// Whether `self` is strictly earlier than `other`.
    pub fn is_earlier_than(&self, other: &Timestamp) -> (b: bool)
        ensures
            b == self.earlier_than(*other),
    {
        self.secs < other.secs || (self.secs == other.secs && self.nanos < other.nanos)
    }
}

/// The instant that an RFC 2822 date names, as `chrono` reads it; `None`
/// where it reads none.
pub uninterp spec fn rfc2822_instant(text: Seq<char>) -> Option<Timestamp>;

/// Reads an RFC 2822 date with `chrono::DateTime::parse_from_rfc2822`. The
/// result is the parsed instant, in seconds and nanoseconds since the Unix
/// epoch, or `None` where the parser reports an error.
#[verifier::external_body]
pub(crate) fn parse_rfc2822(text: &str) -> (at: Option<Timestamp>)
    ensures
        at == rfc2822_instant(text@),
{
    let parsed = chrono::DateTime::parse_from_rfc2822(text).ok()?;
    Some(Timestamp { secs: parsed.timestamp(), nanos: parsed.timestamp_subsec_nanos() })
}

/// Reads the system clock with `chrono::Utc::now`, which takes the clock
/// to stand at or after the Unix epoch. Nothing is promised of the instant
/// that comes back.
#[verifier::external_body]
pub(crate) fn utc_now() -> Timestamp {
    let now = chrono::Utc::now();
    Timestamp { secs: now.timestamp(), nanos: now.timestamp_subsec_nanos() }
}

/// Publication times compare with a missing time as the earliest of all.
pub open spec fn published_earlier(a: Option<Timestamp>, b: Option<Timestamp>) -> bool {
    match (a, b) {
        (None, None) => false,
        (None, Some(_)) => true,
        (Some(_), None) => false,
        (Some(x), Some(y)) => x.earlier_than(y),
    }
}

/// Whether publication time `a` sorts strictly before `b` in chronological
/// order, a missing time being the earliest.
pub fn is_published_earlier(a: &Option<Timestamp>, b: &Option<Timestamp>) -> (r: bool)
    ensures
        r == published_earlier(*a, *b),
{
    match (a, b) {
        (None, None) => false,
        (None, Some(_)) => true,
        (Some(_), None) => false,
        (Some(x), Some(y)) => x.is_earlier_than(y),
    }
}

/// A length of time: whole seconds and the nanoseconds past them.
#[derive(Debug, Clone, Copy, PartialEq, Eq, Structural)]
pub struct TimeSpan {
    pub secs: u64,
    pub nanos: u32,
}

impl TimeSpan {
    /// The span's length in nanoseconds.
    pub open spec fn total_nanos(self) -> int {
        self.secs * 1_000_000_000 + self.nanos
    }

    /// A span of whole seconds.
    pub fn from_secs(secs: u64) -> (span: TimeSpan)
        ensures
            span == (TimeSpan { secs, nanos: 0 }),
            span.total_nanos() == secs * 1_000_000_000,
    {
        TimeSpan { secs, nanos: 0 }
    }

    /// A span of whole milliseconds.
    pub fn from_millis(millis: u64) -> (span: TimeSpan)
        ensures
            span.secs == millis / 1000,
            span.nanos == (millis % 1000) * 1_000_000,
            span.nanos < 1_000_000_000,
            span.total_nanos() == millis * 1_000_000,
    {
        let secs: u64 = millis / 1000;
        let nanos: u32 = ((millis % 1000) as u32) * 1_000_000;
        TimeSpan { secs, nanos }
    }
}

} // verus!
