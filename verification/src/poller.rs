//! The poller's rules: its configuration, the retry schedule, the filter
//! that turns fetched articles into new-article events, and the states of
//! the scheduling loop.

use vstd::arithmetic::mul::*;
use vstd::arithmetic::power2::*;
use vstd::prelude::*;

use crate::error::{PollError, PollErrorView};
use crate::feed::{FeedDescriptor, FeedDescriptorView, FeedEntry, FeedEntryView};
use crate::fetch::outcome_view;
use crate::lists::reversed;
use crate::marks::{is_marked, Marks};
use crate::storage::{is_new, observed, SeenStore};
use crate::time::TimeSpan;

verus! {

/// How the poller runs.
#[derive(Debug, Clone, Copy, PartialEq, Eq, Structural)]
pub struct PollConfig {
    /// The time between two polling cycles.
    pub interval: TimeSpan,
    /// The time allowed for one request.
    pub request_timeout: TimeSpan,
    /// How many times a failed fetch is tried again.
    pub max_retries: usize,
    /// The wait before the first retry, in milliseconds; it doubles with
    /// every further retry.
    pub retry_backoff_ms: u64,
}

/// The settings of a configuration file, each of which may be absent.
/// Times are in milliseconds.
#[derive(Debug, Clone, Copy, PartialEq, Eq, Structural)]
pub struct RawPollConfig {
    pub interval: Option<u64>,
    pub request_timeout: Option<u64>,
    pub max_retries: Option<usize>,
    pub retry_backoff_ms: Option<u64>,
}

/// The configuration used where nothing else is set: a cycle every five
/// minutes, fifteen seconds per request, three retries, half a second of
/// first backoff.
pub open spec fn default_poll_config() -> PollConfig {
    PollConfig {
        interval: TimeSpan { secs: 300, nanos: 0 },
        request_timeout: TimeSpan { secs: 15, nanos: 0 },
        max_retries: 3,
        retry_backoff_ms: 500,
    }
}

/// A span of whole milliseconds.
pub open spec fn millis_span(millis: u64) -> TimeSpan {
    TimeSpan { secs: millis / 1000, nanos: ((millis % 1000) * 1_000_000) as u32 }
}

/// The wait before the retry that follows the failed attempt of the given
/// number, counted from one: the base, doubled with each attempt.
pub open spec fn backoff_for(base: u64, attempt: nat) -> nat {
    base as nat * pow2((attempt - 1) as nat)
}

impl Default for PollConfig {
    fn default() -> (cfg: PollConfig)
        ensures
            cfg == default_poll_config(),
    {
        PollConfig {
            interval: TimeSpan::from_secs(300),
            request_timeout: TimeSpan::from_secs(15),
            max_retries: 3,
            retry_backoff_ms: 500,
        }
    }
}

impl PollConfig {
    /// The configuration that a file's settings give: each setting that is
    /// present counts, each absent one takes its default. `None` stands for
    /// a file that is missing or does not parse, and gives the defaults.
    pub fn from_file(settings: Option<RawPollConfig>) -> (cfg: PollConfig)
        ensures
            cfg == match settings {
                None => default_poll_config(),
                Some(raw) => PollConfig {
                    interval: match raw.interval {
                        Some(ms) => millis_span(ms),
                        None => default_poll_config().interval,
                    },
                    request_timeout: match raw.request_timeout {
                        Some(ms) => millis_span(ms),
                        None => default_poll_config().request_timeout,
                    },
                    max_retries: match raw.max_retries {
                        Some(n) => n,
                        None => default_poll_config().max_retries,
                    },
                    retry_backoff_ms: match raw.retry_backoff_ms {
                        Some(ms) => ms,
                        None => default_poll_config().retry_backoff_ms,
                    },
                },
            },
    {
        let defaults = PollConfig::default();
        match settings {
            None => defaults,
            Some(raw) => PollConfig {
                interval: match raw.interval {
                    Some(ms) => TimeSpan::from_millis(ms),
                    None => defaults.interval,
                },
                request_timeout: match raw.request_timeout {
                    Some(ms) => TimeSpan::from_millis(ms),
                    None => defaults.request_timeout,
                },
                max_retries: match raw.max_retries {
                    Some(n) => n,
                    None => defaults.max_retries,
                },
                retry_backoff_ms: match raw.retry_backoff_ms {
                    Some(ms) => ms,
                    None => defaults.retry_backoff_ms,
                },
            },
        }
    }

    /// The wait that would follow one more failure, after `failures`
    /// attempts have failed, is a number of milliseconds that a `u64` can
    /// hold. Where the retries are used up there is no such wait.
    pub open spec fn wait_fits_after(self, failures: nat) -> bool {
        failures < self.max_retries ==> backoff_for(self.retry_backoff_ms, failures + 1)
            <= u64::MAX
    }

    /// Tests whether the wait that would follow one more failure fits a
    /// `u64`.
    pub fn wait_fits(&self, failures: usize) -> (fits: bool)
        ensures
            fits == self.wait_fits_after(failures as nat),
    {
        if failures >= self.max_retries {
            true
        } else {
            backoff_checked(self.retry_backoff_ms, failures + 1).is_some()
        }
    }

    /// Every wait of the retry schedule is a number of milliseconds that a
    /// `u64` can hold.
    pub open spec fn backoffs_fit(self) -> bool {
        forall|attempt: nat|
            1 <= attempt <= self.max_retries ==> #[trigger] backoff_for(
                self.retry_backoff_ms,
                attempt,
            ) <= u64::MAX
    }

    /// Tests whether every wait of the retry schedule fits a `u64`.
    pub fn check_backoffs(&self) -> (fit: bool)
        ensures
            fit == self.backoffs_fit(),
    {
        if self.max_retries == 0 {
            return true;
        }
        let fit = backoff_checked(self.retry_backoff_ms, self.max_retries).is_some();
        proof {
            if fit {
                assert forall|a: nat| 1 <= a <= self.max_retries implies #[trigger] backoff_for(
                    self.retry_backoff_ms,
                    a,
                ) <= u64::MAX by {
                    lemma_backoff_grows(self.retry_backoff_ms, a, self.max_retries as nat);
                }
            } else {
                assert(backoff_for(self.retry_backoff_ms, self.max_retries as nat) > u64::MAX);
            }
        }
        fit
    }
}

/// Later attempts never wait less than earlier ones.
pub proof fn lemma_backoff_grows(base: u64, earlier: nat, later: nat)
    requires
        1 <= earlier <= later,
    ensures
        backoff_for(base, earlier) <= backoff_for(base, later),
{
    if earlier < later {
        lemma_pow2_strictly_increases((earlier - 1) as nat, (later - 1) as nat);
    }
    lemma_mul_inequality(
        pow2((earlier - 1) as nat) as int,
        pow2((later - 1) as nat) as int,
        base as int,
    );
    lemma_mul_is_commutative(base as int, pow2((earlier - 1) as nat) as int);
    lemma_mul_is_commutative(base as int, pow2((later - 1) as nat) as int);
}

/// Computes the wait that follows the failed attempt of the given number,
/// or finds that a `u64` cannot hold it.
pub fn backoff_checked(base: u64, attempt: usize) -> (wait: Option<u64>)
    requires
        attempt >= 1,
    ensures
        match wait {
            Some(ms) => ms == backoff_for(base, attempt as nat),
            None => backoff_for(base, attempt as nat) > u64::MAX,
        },
{
    if base == 0 {
        proof {
            lemma_mul_basics(pow2((attempt - 1) as nat) as int);
        }
        return Some(0);
    }
    let mut wait: u64 = base;
    let mut k: usize = 1;
    proof {
        lemma2_to64();
        lemma_mul_basics(base as int);
    }
    while k < attempt
        invariant
            1 <= k <= attempt,
            base >= 1,
            wait == backoff_for(base, k as nat),
        decreases attempt - k,
    {
        proof {
            lemma_pow2_unfold(k as nat);
            lemma_mul_is_associative(base as int, 2, pow2((k - 1) as nat) as int);
            lemma_mul_is_commutative(base as int, 2);
            lemma_mul_is_associative(2, base as int, pow2((k - 1) as nat) as int);
            assert(backoff_for(base, (k + 1) as nat) == 2 * wait);
        }
        match wait.checked_mul(2) {
            Some(next) => {
                wait = next;
                k = k + 1;
            },
            None => {
                proof {
                    lemma_backoff_grows(base, (k + 1) as nat, attempt as nat);
                }
                return None;
            },
        }
    }
    Some(wait)
}

/// Computes the wait that follows the failed attempt of the given number.
pub fn backoff_ms(base: u64, attempt: usize) -> (wait: u64)
    requires
        attempt >= 1,
        backoff_for(base, attempt as nat) <= u64::MAX,
    ensures
        wait == backoff_for(base, attempt as nat),
{
    let wait = backoff_checked(base, attempt);
    assert(wait is Some);
    wait.unwrap()
}

/// What follows an attempt to fetch a feed.
#[derive(Debug)]
pub enum RetryStep {
    /// The fetch is over, with this result.
    Done(Result<Vec<FeedEntry>, PollError>),
    /// The fetch is to be tried again after the wait; `failures` attempts
    /// have failed so far.
    Retry { failures: usize, backoff_ms: u64 },
}

/// Mathematical value of a [`RetryStep`].
pub enum RetryStepView {
    Done(Result<Seq<FeedEntryView>, PollErrorView>),
    Retry { failures: nat, backoff_ms: nat },
}

impl View for RetryStep {
    type V = RetryStepView;

    open spec fn view(&self) -> RetryStepView {
        match self {
            RetryStep::Done(result) => RetryStepView::Done(outcome_view(*result)),
            RetryStep::Retry { failures, backoff_ms } => RetryStepView::Retry {
                failures: *failures as nat,
                backoff_ms: *backoff_ms as nat,
            },
        }
    }
}

/// The retry rule: a success ends the fetch; a failure ends it with that
/// error once more attempts have failed than there are retries, and
/// otherwise calls for another attempt after the attempt's backoff.
pub open spec fn retry_step(
    cfg: PollConfig,
    failures: nat,
    outcome: Result<Seq<FeedEntryView>, PollErrorView>,
) -> RetryStepView {
    match outcome {
        Ok(entries) => RetryStepView::Done(Ok(entries)),
        Err(e) => if failures + 1 > cfg.max_retries {
            RetryStepView::Done(Err(e))
        } else {
            RetryStepView::Retry {
                failures: failures + 1,
                backoff_ms: backoff_for(cfg.retry_backoff_ms, failures + 1),
            }
        },
    }
}

/// Decides what follows an attempt, given how many attempts had failed
/// before it and how it ended. Where the attempt failed and a retry is
/// due, the wait before that retry must fit a `u64`.
pub fn after_attempt(
    cfg: &PollConfig,
    failures: usize,
    outcome: Result<Vec<FeedEntry>, PollError>,
) -> (step: RetryStep)
    requires
        outcome is Err ==> cfg.wait_fits_after(failures as nat),
    ensures
        step@ == retry_step(*cfg, failures as nat, outcome_view(outcome)),
{
    match outcome {
        Ok(entries) => RetryStep::Done(Ok(entries)),
        Err(e) => {
            if failures >= cfg.max_retries {
                RetryStep::Done(Err(e))
            } else {
                let failed: usize = failures + 1;
                RetryStep::Retry { failures: failed, backoff_ms: backoff_ms(cfg.retry_backoff_ms, failed) }
            }
        },
    }
}

/// Where a run of attempts ends: with the result of the fetch and the
/// number of attempts that were made. `None` while the outcomes given do
/// not yet settle the fetch.
pub open spec fn settled(
    cfg: PollConfig,
    outcomes: Seq<Result<Seq<FeedEntryView>, PollErrorView>>,
    failures: nat,
) -> Option<(Result<Seq<FeedEntryView>, PollErrorView>, nat)>
    decreases outcomes.len(),
{
    if outcomes.len() == 0 {
        None
    } else {
        match retry_step(cfg, failures, outcomes[0]) {
            RetryStepView::Done(result) => Some((result, failures + 1)),
            RetryStepView::Retry { failures: failed, backoff_ms } => settled(
                cfg,
                outcomes.drop_first(),
                failed,
            ),
        }
    }
}

/// The waits of a run of attempts, in order: one after each failed attempt
/// that is followed by a retry. There is none before the first attempt,
/// none after a success and none after the failure that ends the fetch.
pub open spec fn waits(
    cfg: PollConfig,
    outcomes: Seq<Result<Seq<FeedEntryView>, PollErrorView>>,
    failures: nat,
) -> Seq<nat>
    decreases outcomes.len(),
{
    if outcomes.len() == 0 {
        Seq::empty()
    } else {
        match retry_step(cfg, failures, outcomes[0]) {
            RetryStepView::Done(_) => Seq::empty(),
            RetryStepView::Retry { failures: failed, backoff_ms } => seq![backoff_ms] + waits(
                cfg,
                outcomes.drop_first(),
                failed,
            ),
        }
    }
}

/// The waits double from the base, without jitter: in a run whose first
/// `k` attempts fail, the wait after failed attempt `i` is the base times
/// two to the power `i - 1`, for every failed attempt within the retries
/// allowed; a success, and the failure that uses up the retries, is
/// followed by no wait.
pub proof fn lemma_waits_double(
    cfg: PollConfig,
    outcomes: Seq<Result<Seq<FeedEntryView>, PollErrorView>>,
    failures: nat,
    k: nat,
)
    requires
        k <= outcomes.len(),
        forall|i: int| 0 <= i < k ==> outcomes[i] is Err,
        k < outcomes.len() ==> outcomes[k as int] is Ok,
        failures <= cfg.max_retries,
    ensures
        waits(cfg, outcomes, failures).len() == if failures + k <= cfg.max_retries {
            k
        } else {
            (cfg.max_retries - failures) as nat
        },
        forall|i: int|
            0 <= i < waits(cfg, outcomes, failures).len() ==> waits(cfg, outcomes, failures)[i]
                == backoff_for(cfg.retry_backoff_ms, (failures + i + 1) as nat),
    decreases outcomes.len(),
{
    if outcomes.len() > 0 && k > 0 {
        assert(outcomes[0] is Err);
        if failures + 1 <= cfg.max_retries {
            let rest = outcomes.drop_first();
            assert forall|i: int| 0 <= i < k - 1 implies rest[i] is Err by {
                assert(rest[i] == outcomes[i + 1]);
            }
            if k - 1 < rest.len() {
                assert(rest[k - 1] == outcomes[k as int]);
            }
            lemma_waits_double(cfg, rest, failures + 1, (k - 1) as nat);
            let tail = waits(cfg, rest, failures + 1);
            let all = waits(cfg, outcomes, failures);
            assert(all == seq![backoff_for(cfg.retry_backoff_ms, failures + 1)] + tail);
            assert forall|i: int| 0 <= i < all.len() implies all[i] == backoff_for(
                cfg.retry_backoff_ms,
                (failures + i + 1) as nat,
            ) by {
                if i > 0 {
                    assert(all[i] == tail[i - 1]);
                }
            }
        }
    } else if outcomes.len() > 0 {
        assert(outcomes[0] is Ok);
    }
}

/// A fetch whose first attempts fail and whose next attempt succeeds, the
/// failures being no more than the retries allowed, ends with that success.
pub proof fn lemma_retry_reaches_success(
    cfg: PollConfig,
    outcomes: Seq<Result<Seq<FeedEntryView>, PollErrorView>>,
    failures: nat,
)
    requires
        outcomes.len() >= 1,
        failures + outcomes.len() - 1 <= cfg.max_retries,
        forall|i: int| 0 <= i < outcomes.len() - 1 ==> outcomes[i] is Err,
        outcomes.last() is Ok,
    ensures
        settled(cfg, outcomes, failures) == Some((outcomes.last(), failures + outcomes.len())),
    decreases outcomes.len(),
{
    if outcomes.len() > 1 {
        let rest = outcomes.drop_first();
        assert(outcomes[0] is Err);
        assert forall|i: int| 0 <= i < rest.len() - 1 implies rest[i] is Err by {
            assert(rest[i] == outcomes[i + 1]);
        }
        assert(rest.last() == outcomes.last());
        lemma_retry_reaches_success(cfg, rest, failures + 1);
    }
}

/// A fetch whose every attempt fails ends with the error of the attempt
/// that exhausts the retries: counted from a fresh start, the last of
/// exactly `max_retries + 1` attempts.
pub proof fn lemma_retry_gives_up(
    cfg: PollConfig,
    outcomes: Seq<Result<Seq<FeedEntryView>, PollErrorView>>,
    failures: nat,
)
    requires
        failures <= cfg.max_retries,
        outcomes.len() >= cfg.max_retries + 1 - failures,
        forall|i: int| 0 <= i < outcomes.len() ==> outcomes[i] is Err,
    ensures
        settled(cfg, outcomes, failures) == Some(
            (outcomes[cfg.max_retries - failures], (cfg.max_retries + 1) as nat),
        ),
    decreases outcomes.len(),
{
    assert(outcomes[0] is Err);
    if failures < cfg.max_retries {
        let rest = outcomes.drop_first();
        assert forall|i: int| 0 <= i < rest.len() implies rest[i] is Err by {
            assert(rest[i] == outcomes[i + 1]);
        }
        lemma_retry_gives_up(cfg, rest, failures + 1);
        assert(rest[cfg.max_retries - failures - 1] == outcomes[cfg.max_retries - failures]);
    }
}

/// The articles of a batch that the store has not observed, in order, each
/// identity once: an article is new if neither the store nor an earlier
/// article of the batch has its identity for its feed.
pub open spec fn sifted(entries: Seq<FeedEntryView>, seen: Marks) -> Seq<FeedEntryView>
    decreases entries.len(),
{
    if entries.len() == 0 {
        Seq::empty()
    } else {
        let rest = sifted(entries.drop_first(), observed(seen, entries[0]));
        if is_new(seen, entries[0]) {
            seq![entries[0]] + rest
        } else {
            rest
        }
    }
}

/// The store after it has observed every article of a batch.
pub open spec fn seen_after(entries: Seq<FeedEntryView>, seen: Marks) -> Marks
    decreases entries.len(),
{
    if entries.len() == 0 {
        seen
    } else {
        seen_after(entries.drop_first(), observed(seen, entries[0]))
    }
}

/// Passes a batch of fetched articles through the seen store: the new ones
/// come back, in order, and all are recorded.
pub fn sift_new(entries: Vec<FeedEntry>, seen: &mut SeenStore) -> (fresh: Vec<FeedEntry>)
    ensures
        fresh.deep_view() == sifted(entries.deep_view(), old(seen)@),
        final(seen)@ == seen_after(entries.deep_view(), old(seen)@),
        final(seen).backing() == old(seen).backing(),
{
    let ghost batch = entries.deep_view();
    let ghost start = seen@;
    let ghost total = entries.len() as int;
    let mut pending = reversed(entries);
    let mut fresh: Vec<FeedEntry> = Vec::new();
    proof {
        assert(batch.skip(0) =~= batch);
        assert(fresh.deep_view() =~= Seq::<FeedEntryView>::empty());
        assert(Seq::<FeedEntryView>::empty() + sifted(batch, start) =~= sifted(batch, start));
    }
    while pending.len() > 0
        invariant
            pending.len() <= total,
            total == batch.len(),
            forall|j: int|
                0 <= j < pending.len() ==> (#[trigger] pending[j])@ == batch[total - 1 - j],
            sifted(batch, start) == fresh.deep_view() + sifted(
                batch.skip(total - pending.len()),
                seen@,
            ),
            seen_after(batch, start) == seen_after(batch.skip(total - pending.len()), seen@),
            seen.backing() == old(seen).backing(),
        decreases pending.len(),
    {
        let ghost n = pending.len() as int;
        let ghost rest = batch.skip(total - n);
        let ghost held = fresh.deep_view();
        let ghost marks = seen@;
        let e = pending.pop().unwrap();
        proof {
            assert(e@ == batch[total - n]);
            assert(rest[0] == e@);
            assert(rest.drop_first() =~= batch.skip(total - n + 1));
        }
        if seen.is_new_and_mark(&e) {
            fresh.push(e);
            proof {
                assert(fresh.deep_view() =~= held.push(e@));
                assert(held + (seq![e@] + sifted(rest.drop_first(), observed(marks, e@)))
                    =~= held.push(e@) + sifted(rest.drop_first(), observed(marks, e@)));
            }
        }
    }
    proof {
        assert(batch.skip(total).len() == 0);
        assert(fresh.deep_view() + Seq::<FeedEntryView>::empty() =~= fresh.deep_view());
    }
    fresh
}

/// The announcement that a feed has new articles.
#[derive(Debug, Clone, PartialEq)]
pub enum Event {
    /// The feed of the given id has these new articles.
    NewArticles(String, Vec<FeedEntry>),
}

/// Mathematical value of an [`Event`].
pub enum EventView {
    NewArticles(Seq<char>, Seq<FeedEntryView>),
}

impl View for Event {
    type V = EventView;

    open spec fn view(&self) -> EventView {
        match self {
            Event::NewArticles(feed_id, entries) => EventView::NewArticles(
                feed_id@,
                entries.deep_view(),
            ),
        }
    }
}

impl DeepView for Event {
    type V = EventView;

    open spec fn deep_view(&self) -> EventView {
        self@
    }
}

/// A feed together with how fetching it ended.
#[derive(Debug)]
pub struct Fetched {
    pub feed: FeedDescriptor,
    pub result: Result<Vec<FeedEntry>, PollError>,
}

/// Mathematical value of a [`Fetched`].
pub struct FetchedView {
    pub feed: FeedDescriptorView,
    pub result: Result<Seq<FeedEntryView>, PollErrorView>,
}

impl View for Fetched {
    type V = FetchedView;

    open spec fn view(&self) -> FetchedView {
        FetchedView { feed: self.feed@, result: outcome_view(self.result) }
    }
}

impl DeepView for Fetched {
    type V = FetchedView;

    open spec fn deep_view(&self) -> FetchedView {
        self@
    }
}

/// The event that a fetched feed gives rise to: one with its new articles
/// if it has any, none if it has none or could not be fetched.
pub open spec fn feed_event(fetched: FetchedView, seen: Marks) -> Option<EventView> {
    match fetched.result {
        Ok(entries) => if sifted(entries, seen).len() > 0 {
            Some(EventView::NewArticles(fetched.feed.id, sifted(entries, seen)))
        } else {
            None
        },
        Err(_) => None,
    }
}

/// The store after a fetched feed has passed: a failed fetch leaves it as
/// it was.
pub open spec fn feed_seen(fetched: FetchedView, seen: Marks) -> Marks {
    match fetched.result {
        Ok(entries) => seen_after(entries, seen),
        Err(_) => seen,
    }
}

/// The events of one pass over fetched feeds, in the order of the feeds.
pub open spec fn poll_events(outcomes: Seq<FetchedView>, seen: Marks) -> Seq<EventView>
    decreases outcomes.len(),
{
    if outcomes.len() == 0 {
        Seq::empty()
    } else {
        let rest = poll_events(outcomes.drop_first(), feed_seen(outcomes[0], seen));
        match feed_event(outcomes[0], seen) {
            Some(event) => seq![event] + rest,
            None => rest,
        }
    }
}

/// The store after one pass over fetched feeds.
pub open spec fn poll_seen(outcomes: Seq<FetchedView>, seen: Marks) -> Marks
    decreases outcomes.len(),
{
    if outcomes.len() == 0 {
        seen
    } else {
        poll_seen(outcomes.drop_first(), feed_seen(outcomes[0], seen))
    }
}

/// The event that announces the new articles of a feed: none where there
/// is no new article.
pub fn announce(feed_id: String, fresh: Vec<FeedEntry>) -> (event: Option<Event>)
    ensures
        event.deep_view() == if fresh.len() > 0 {
            Some(EventView::NewArticles(feed_id@, fresh.deep_view()))
        } else {
            None
        },
{
    if fresh.len() > 0 {
        Some(Event::NewArticles(feed_id, fresh))
    } else {
        None
    }
}

/// Handles one fetched feed: its articles pass through the seen store, and
/// if any is new, the event that announces them comes back. A feed that
/// could not be fetched is skipped.
pub fn process_fetched(fetched: Fetched, seen: &mut SeenStore) -> (event: Option<Event>)
    ensures
        event.deep_view() == feed_event(fetched@, old(seen)@),
        final(seen)@ == feed_seen(fetched@, old(seen)@),
        final(seen).backing() == old(seen).backing(),
{
    let Fetched { feed, result } = fetched;
    match result {
        Ok(entries) => {
            let fresh = sift_new(entries, seen);
            announce(feed.id, fresh)
        },
        Err(_) => None,
    }
}

/// One pass over the feeds that were fetched: each in turn is filtered
/// through the seen store, and the events of those with new articles come
/// back in order.
pub fn poll_once(fetched: Vec<Fetched>, seen: &mut SeenStore) -> (events: Vec<Event>)
    ensures
        events.deep_view() == poll_events(fetched.deep_view(), old(seen)@),
        final(seen)@ == poll_seen(fetched.deep_view(), old(seen)@),
        final(seen).backing() == old(seen).backing(),
{
    let ghost all = fetched.deep_view();
    let ghost start = seen@;
    let ghost total = fetched.len() as int;
    let mut pending = reversed(fetched);
    let mut events: Vec<Event> = Vec::new();
    proof {
        assert(all.skip(0) =~= all);
        assert(events.deep_view() =~= Seq::<EventView>::empty());
        assert(Seq::<EventView>::empty() + poll_events(all, start) =~= poll_events(all, start));
    }
    while pending.len() > 0
        invariant
            pending.len() <= total,
            total == all.len(),
            forall|j: int| 0 <= j < pending.len() ==> (#[trigger] pending[j])@ == all[total - 1 - j],
            poll_events(all, start) == events.deep_view() + poll_events(
                all.skip(total - pending.len()),
                seen@,
            ),
            poll_seen(all, start) == poll_seen(all.skip(total - pending.len()), seen@),
            seen.backing() == old(seen).backing(),
        decreases pending.len(),
    {
        let ghost n = pending.len() as int;
        let ghost rest = all.skip(total - n);
        let ghost held = events.deep_view();
        let ghost marks = seen@;
        let next = pending.pop().unwrap();
        proof {
            assert(next@ == all[total - n]);
            assert(rest[0] == next@);
            assert(rest.drop_first() =~= all.skip(total - n + 1));
        }
        match process_fetched(next, seen) {
            Some(event) => {
                events.push(event);
                proof {
                    assert(events.deep_view() =~= held.push(event@));
                    assert(held + (seq![event@] + poll_events(
                        rest.drop_first(),
                        feed_seen(rest[0], marks),
                    )) =~= held.push(event@) + poll_events(
                        rest.drop_first(),
                        feed_seen(rest[0], marks),
                    ));
                }
            },
            None => {},
        }
    }
    proof {
        assert(all.skip(total).len() == 0);
        assert(events.deep_view() + Seq::<EventView>::empty() =~= events.deep_view());
    }
    events
}

/// Every mark of `small` is a mark of `big`.
pub open spec fn covers(big: Marks, small: Marks) -> bool {
    forall|feed: Seq<char>, key: Seq<char>|
        is_marked(small, feed, key) ==> is_marked(big, feed, key)
}

/// The store has observed every article of the batch.
pub open spec fn all_observed(entries: Seq<FeedEntryView>, seen: Marks) -> bool {
    forall|i: int| 0 <= i < entries.len() ==> !is_new(seen, #[trigger] entries[i])
}

/// Observing forgets nothing.
pub proof fn lemma_seen_only_grows(entries: Seq<FeedEntryView>, seen: Marks)
    ensures
        covers(seen_after(entries, seen), seen),
    decreases entries.len(),
{
    if entries.len() > 0 {
        lemma_seen_only_grows(entries.drop_first(), observed(seen, entries[0]));
    }
}

/// After a batch has passed, the store has observed all of it.
pub proof fn lemma_batch_is_observed(entries: Seq<FeedEntryView>, seen: Marks)
    ensures
        all_observed(entries, seen_after(entries, seen)),
    decreases entries.len(),
{
    if entries.len() > 0 {
        let rest = entries.drop_first();
        let next = observed(seen, entries[0]);
        lemma_batch_is_observed(rest, next);
        lemma_seen_only_grows(rest, next);
        let after = seen_after(entries, seen);
        assert forall|i: int| 0 <= i < entries.len() implies !is_new(after, #[trigger] entries[i]) by {
            if i == 0 {
                assert(is_marked(next, entries[0].feed_id, entries[0].identity()));
            } else {
                assert(rest[i - 1] == entries[i]);
            }
        }
    }
}

/// A batch that the store has observed already yields nothing new and
/// leaves the store as it is.
pub proof fn lemma_observed_batch_is_quiet(entries: Seq<FeedEntryView>, seen: Marks)
    requires
        all_observed(entries, seen),
    ensures
        sifted(entries, seen) == Seq::<FeedEntryView>::empty(),
        seen_after(entries, seen) == seen,
    decreases entries.len(),
{
    if entries.len() > 0 {
        let rest = entries.drop_first();
        assert(!is_new(seen, entries[0]));
        assert forall|i: int| 0 <= i < rest.len() implies !is_new(seen, #[trigger] rest[i]) by {
            assert(rest[i] == entries[i + 1]);
        }
        lemma_observed_batch_is_quiet(rest, seen);
    }
}

/// A batch of which the store has observed nothing, and in which no
/// identity occurs twice for one feed, is new as a whole.
pub proof fn lemma_unseen_batch_is_new(entries: Seq<FeedEntryView>, seen: Marks)
    requires
        forall|i: int| 0 <= i < entries.len() ==> is_new(seen, #[trigger] entries[i]),
        forall|i: int, j: int|
            0 <= i < j < entries.len() ==> !(entries[i].feed_id == entries[j].feed_id
                && entries[i].identity() == entries[j].identity()),
    ensures
        sifted(entries, seen) == entries,
    decreases entries.len(),
{
    if entries.len() == 0 {
        assert(sifted(entries, seen) =~= entries);
    } else {
        let rest = entries.drop_first();
        let next = observed(seen, entries[0]);
        assert forall|i: int| 0 <= i < rest.len() implies is_new(next, #[trigger] rest[i]) by {
            assert(rest[i] == entries[i + 1]);
            assert(is_new(seen, entries[i + 1]));
            assert(!(entries[0].feed_id == entries[i + 1].feed_id && entries[0].identity()
                == entries[i + 1].identity()));
        }
        assert forall|i: int, j: int| 0 <= i < j < rest.len() implies !(rest[i].feed_id
            == rest[j].feed_id && rest[i].identity() == rest[j].identity()) by {
            assert(rest[i] == entries[i + 1]);
            assert(rest[j] == entries[j + 1]);
        }
        lemma_unseen_batch_is_new(rest, next);
        assert(seq![entries[0]] + rest =~= entries);
    }
}

proof fn lemma_observed_carries(entries: Seq<FeedEntryView>, small: Marks, big: Marks)
    requires
        all_observed(entries, small),
        covers(big, small),
    ensures
        all_observed(entries, big),
{
    assert forall|i: int| 0 <= i < entries.len() implies !is_new(big, #[trigger] entries[i]) by {
        assert(!is_new(small, entries[i]));
    }
}

/// The store has observed every article of every fetched feed.
pub open spec fn all_polled(outcomes: Seq<FetchedView>, seen: Marks) -> bool {
    forall|i: int|
        0 <= i < outcomes.len() ==> match (#[trigger] outcomes[i]).result {
            Ok(entries) => all_observed(entries, seen),
            Err(_) => true,
        }
}

proof fn lemma_poll_only_grows(outcomes: Seq<FetchedView>, seen: Marks)
    ensures
        covers(poll_seen(outcomes, seen), seen),
    decreases outcomes.len(),
{
    if outcomes.len() > 0 {
        let next = feed_seen(outcomes[0], seen);
        if let Ok(entries) = outcomes[0].result {
            lemma_seen_only_grows(entries, seen);
        }
        lemma_poll_only_grows(outcomes.drop_first(), next);
    }
}

proof fn lemma_poll_is_observed(outcomes: Seq<FetchedView>, seen: Marks)
    ensures
        all_polled(outcomes, poll_seen(outcomes, seen)),
    decreases outcomes.len(),
{
    if outcomes.len() > 0 {
        let rest = outcomes.drop_first();
        let next = feed_seen(outcomes[0], seen);
        lemma_poll_is_observed(rest, next);
        lemma_poll_only_grows(rest, next);
        let after = poll_seen(outcomes, seen);
        assert forall|i: int| 0 <= i < outcomes.len() implies match (#[trigger] outcomes[i]).result {
            Ok(entries) => all_observed(entries, after),
            Err(_) => true,
        } by {
            if i == 0 {
                if let Ok(entries) = outcomes[0].result {
                    lemma_batch_is_observed(entries, seen);
                    lemma_observed_carries(entries, next, after);
                }
            } else {
                assert(rest[i - 1] == outcomes[i]);
            }
        }
    }
}

proof fn lemma_polled_is_quiet(outcomes: Seq<FetchedView>, seen: Marks)
    requires
        all_polled(outcomes, seen),
    ensures
        poll_events(outcomes, seen) == Seq::<EventView>::empty(),
        poll_seen(outcomes, seen) == seen,
    decreases outcomes.len(),
{
    if outcomes.len() > 0 {
        let rest = outcomes.drop_first();
        assert(outcomes[0] == outcomes[0]);
        if let Ok(entries) = outcomes[0].result {
            lemma_observed_batch_is_quiet(entries, seen);
        }
        assert forall|i: int| 0 <= i < rest.len() implies match (#[trigger] rest[i]).result {
            Ok(entries) => all_observed(entries, seen),
            Err(_) => true,
        } by {
            assert(rest[i] == outcomes[i + 1]);
        }
        lemma_polled_is_quiet(rest, seen);
    }
}

/// Polling is idempotent: a second pass over the same fetched feeds, on
/// the store that the first pass left, yields no event and changes nothing.
pub proof fn lemma_second_poll_is_quiet(outcomes: Seq<FetchedView>, seen: Marks)
    ensures
        poll_events(outcomes, poll_seen(outcomes, seen)) == Seq::<EventView>::empty(),
        poll_seen(outcomes, poll_seen(outcomes, seen)) == poll_seen(outcomes, seen),
{
    lemma_poll_is_observed(outcomes, seen);
    lemma_polled_is_quiet(outcomes, poll_seen(outcomes, seen));
}

/// A first pass over one feed whose articles are all unseen and of
/// different identities announces all of them in one event; with no
/// article there is no event.
pub proof fn lemma_first_poll_announces_all(fetched: FetchedView, seen: Marks)
    requires
        fetched.result is Ok,
        forall|i: int|
            0 <= i < fetched.result->Ok_0.len() ==> is_new(
                seen,
                #[trigger] fetched.result->Ok_0[i],
            ),
        forall|i: int, j: int|
            0 <= i < j < fetched.result->Ok_0.len() ==> !(fetched.result->Ok_0[i].feed_id
                == fetched.result->Ok_0[j].feed_id && fetched.result->Ok_0[i].identity()
                == fetched.result->Ok_0[j].identity()),
    ensures
        poll_events(seq![fetched], seen) == if fetched.result->Ok_0.len() > 0 {
            seq![EventView::NewArticles(fetched.feed.id, fetched.result->Ok_0)]
        } else {
            Seq::<EventView>::empty()
        },
{
    let entries = fetched.result->Ok_0;
    lemma_unseen_batch_is_new(entries, seen);
    let one = seq![fetched];
    assert(one.drop_first() =~= Seq::<FetchedView>::empty());
    assert(poll_events(one.drop_first(), feed_seen(fetched, seen)) =~= Seq::<EventView>::empty());
    assert(one[0] == fetched);
    if entries.len() > 0 {
        assert(poll_events(one, seen) =~= seq![EventView::NewArticles(fetched.feed.id, entries)]);
    } else {
        assert(poll_events(one, seen) =~= Seq::<EventView>::empty());
    }
}

/// Where the scheduling loop stands.
#[derive(Debug, Clone, Copy, PartialEq, Eq, Structural)]
pub enum PollerState {
    /// Waiting for the next tick or for the stop signal.
    Idle,
    /// A cycle over the feeds is under way.
    Fetching,
    /// A cycle is under way and the stop signal has arrived; the loop ends
    /// when the cycle does.
    Stopping,
    /// The loop has ended.
    Stopped,
}

/// What the scheduling loop is told.
#[derive(Debug, Clone, Copy, PartialEq, Eq, Structural)]
pub enum PollerSignal {
    /// The interval has elapsed.
    Tick,
    /// The cycle over the feeds is finished.
    CycleDone,
    /// The poller is asked to stop.
    Stop,
}

/// What the scheduling loop is to do next.
#[derive(Debug, Clone, Copy, PartialEq, Eq, Structural)]
pub enum PollerAction {
    /// Wait for the next signal.
    Wait,
    /// Take a snapshot of the feed list and fetch every feed in turn.
    StartCycle,
    /// Leave the loop.
    Exit,
}

/// The transitions of the scheduling loop. A tick starts a cycle only from
/// the idle state; ticks that arrive during a cycle are dropped. The stop
/// signal ends an idle loop at once and a busy one when its cycle is done.
/// A stopped loop stays stopped.
pub open spec fn poller_next(state: PollerState, signal: PollerSignal) -> (PollerState, PollerAction) {
    match (state, signal) {
        (PollerState::Idle, PollerSignal::Tick) => (PollerState::Fetching, PollerAction::StartCycle),
        (PollerState::Idle, PollerSignal::Stop) => (PollerState::Stopped, PollerAction::Exit),
        (PollerState::Idle, PollerSignal::CycleDone) => (PollerState::Idle, PollerAction::Wait),
        (PollerState::Fetching, PollerSignal::Tick) => (PollerState::Fetching, PollerAction::Wait),
        (PollerState::Fetching, PollerSignal::Stop) => (PollerState::Stopping, PollerAction::Wait),
        (PollerState::Fetching, PollerSignal::CycleDone) => (PollerState::Idle, PollerAction::Wait),
        (PollerState::Stopping, PollerSignal::CycleDone) => (
            PollerState::Stopped,
            PollerAction::Exit,
        ),
        (PollerState::Stopping, _) => (PollerState::Stopping, PollerAction::Wait),
        (PollerState::Stopped, _) => (PollerState::Stopped, PollerAction::Exit),
    }
}

/// Advances the scheduling loop by one signal.
pub fn poller_step(state: PollerState, signal: PollerSignal) -> (next: (PollerState, PollerAction))
    ensures
        next == poller_next(state, signal),
{
    match (state, signal) {
        (PollerState::Idle, PollerSignal::Tick) => (PollerState::Fetching, PollerAction::StartCycle),
        (PollerState::Idle, PollerSignal::Stop) => (PollerState::Stopped, PollerAction::Exit),
        (PollerState::Idle, PollerSignal::CycleDone) => (PollerState::Idle, PollerAction::Wait),
        (PollerState::Fetching, PollerSignal::Tick) => (PollerState::Fetching, PollerAction::Wait),
        (PollerState::Fetching, PollerSignal::Stop) => (PollerState::Stopping, PollerAction::Wait),
        (PollerState::Fetching, PollerSignal::CycleDone) => (PollerState::Idle, PollerAction::Wait),
        (PollerState::Stopping, PollerSignal::CycleDone) => (
            PollerState::Stopped,
            PollerAction::Exit,
        ),
        (PollerState::Stopping, _) => (PollerState::Stopping, PollerAction::Wait),
        (PollerState::Stopped, _) => (PollerState::Stopped, PollerAction::Exit),
    }
}

/// The state that a run of signals leads to.
pub open spec fn poller_run(state: PollerState, signals: Seq<PollerSignal>) -> PollerState
    decreases signals.len(),
{
    if signals.len() == 0 {
        state
    } else {
        poller_run(poller_next(state, signals[0]).0, signals.drop_first())
    }
}

/// Once the stop signal has been given, no cycle starts any more, whatever
/// signals follow, and the loop is stopped as soon as it is not busy.
pub proof fn lemma_no_cycle_after_stop(state: PollerState, signals: Seq<PollerSignal>, i: int)
    requires
        state == PollerState::Stopping || state == PollerState::Stopped,
        0 <= i < signals.len(),
    ensures
        poller_next(poller_run(state, signals.take(i)), signals[i]).1 != PollerAction::StartCycle,
        poller_run(state, signals.take(i)) == PollerState::Stopping || poller_run(
            state,
            signals.take(i),
        ) == PollerState::Stopped,
    decreases i,
{
    let head = signals.take(i);
    if i == 0 {
        assert(head.len() == 0);
    } else {
        let next = poller_next(state, signals[0]).0;
        assert(head[0] == signals[0]);
        assert(head.drop_first() =~= signals.drop_first().take(i - 1));
        lemma_no_cycle_after_stop(next, signals.drop_first(), i - 1);
        assert(signals.drop_first()[i - 1] == signals[i]);
    }
}

} // verus!
