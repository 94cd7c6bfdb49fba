//! The article cache: per feed, the most recent articles, newest first,
//! without two of the same identity, and never more than a fixed number.

use vstd::hash_set::StringHashSet;
use vstd::prelude::*;
use vstd::seq_lib::*;

use crate::feed::{FeedEntry, FeedEntryView};
use crate::lists::reversed;
use crate::text::str_eq;
use crate::time::{is_published_earlier, published_earlier};

verus! {

/// How many articles the cache keeps per feed.
pub const MAX_PER_FEED: usize = 300;

/// What the cache holds: for each feed with a row, its articles in order.
pub type Shelves = Map<Seq<char>, Seq<FeedEntryView>>;

/// The articles cached for `feed`, none when the feed has no row.
pub open spec fn shelf_of(shelves: Shelves, feed: Seq<char>) -> Seq<FeedEntryView> {
    if shelves.dom().contains(feed) {
        shelves[feed]
    } else {
        Seq::empty()
    }
}

/// No article in the list was published strictly before one that follows it.
pub open spec fn newest_first(s: Seq<FeedEntryView>) -> bool {
    forall|i: int, j: int|
        0 <= i < j < s.len() ==> !published_earlier(
            #[trigger] s[i].published_at,
            #[trigger] s[j].published_at,
        )
}

/// How many articles at the head of `s` are strictly newer than `e`.
pub open spec fn place_index(e: FeedEntryView, s: Seq<FeedEntryView>) -> int
    decreases s.len(),
{
    if s.len() == 0 {
        0
    } else if published_earlier(e.published_at, s[0].published_at) {
        1 + place_index(e, s.drop_first())
    } else {
        0
    }
}

/// `s` with `e` put behind its leading articles that are strictly newer.
pub open spec fn placed(e: FeedEntryView, s: Seq<FeedEntryView>) -> Seq<FeedEntryView> {
    s.insert(place_index(e, s), e)
}

/// The stable sort by publication time, newest first: articles of equal
/// time keep the order they had, and articles without a time come last.
pub open spec fn sorted_newest_first(s: Seq<FeedEntryView>) -> Seq<FeedEntryView>
    decreases s.len(),
{
    if s.len() == 0 {
        Seq::empty()
    } else {
        placed(s[0], sorted_newest_first(s.drop_first()))
    }
}

/// The identities that occur in a list of articles.
pub open spec fn identity_set(s: Seq<FeedEntryView>) -> Set<Seq<char>> {
    Set::new(|k: Seq<char>| exists|i: int| 0 <= i < s.len() && #[trigger] s[i].identity() == k)
}

/// No two articles of the list share an identity.
pub open spec fn distinct_identities(s: Seq<FeedEntryView>) -> bool {
    forall|i: int, j: int|
        0 <= i < j < s.len() ==> #[trigger] s[i].identity() != #[trigger] s[j].identity()
}

/// `existing` followed by those of `incoming`, in order, whose identity
/// occurs neither in `existing` nor earlier in `incoming`.
pub open spec fn merged(existing: Seq<FeedEntryView>, incoming: Seq<FeedEntryView>) -> Seq<
    FeedEntryView,
>
    decreases incoming.len(),
{
    if incoming.len() == 0 {
        existing
    } else if identity_set(existing).contains(incoming[0].identity()) {
        merged(existing, incoming.drop_first())
    } else {
        merged(existing.push(incoming[0]), incoming.drop_first())
    }
}

/// The first `limit` articles, or all where there are fewer.
pub open spec fn capped(s: Seq<FeedEntryView>, limit: int) -> Seq<FeedEntryView> {
    if s.len() > limit {
        s.take(limit)
    } else {
        s
    }
}

/// A feed's list after a batch has been merged in, sorted and cut.
pub open spec fn upserted(existing: Seq<FeedEntryView>, incoming: Seq<FeedEntryView>) -> Seq<
    FeedEntryView,
> {
    capped(sorted_newest_first(merged(existing, incoming)), MAX_PER_FEED as int)
}

proof fn lemma_place_index_bounds(e: FeedEntryView, s: Seq<FeedEntryView>)
    ensures
        0 <= place_index(e, s) <= s.len(),
        forall|j: int|
            0 <= j < place_index(e, s) ==> published_earlier(
                e.published_at,
                #[trigger] s[j].published_at,
            ),
        place_index(e, s) < s.len() ==> !published_earlier(
            e.published_at,
            s[place_index(e, s)].published_at,
        ),
    decreases s.len(),
{
    if s.len() > 0 && published_earlier(e.published_at, s[0].published_at) {
        let rest = s.drop_first();
        lemma_place_index_bounds(e, rest);
        assert forall|j: int| 0 <= j < place_index(e, s) implies published_earlier(
            e.published_at,
            #[trigger] s[j].published_at,
        ) by {
            if j > 0 {
                assert(s[j] == rest[j - 1]);
            }
        }
        if place_index(e, s) < s.len() {
            assert(s[place_index(e, s)] == rest[place_index(e, rest)]);
        }
    }
}

proof fn lemma_place_index_is(e: FeedEntryView, s: Seq<FeedEntryView>, p: int)
    requires
        0 <= p <= s.len(),
        forall|j: int| 0 <= j < p ==> published_earlier(e.published_at, s[j].published_at),
        p < s.len() ==> !published_earlier(e.published_at, s[p].published_at),
    ensures
        place_index(e, s) == p,
    decreases s.len(),
{
    if s.len() > 0 && p > 0 {
        let rest = s.drop_first();
        assert forall|j: int| 0 <= j < p - 1 implies published_earlier(
            e.published_at,
            rest[j].published_at,
        ) by {
            assert(rest[j] == s[j + 1]);
        }
        if p - 1 < rest.len() {
            assert(rest[p - 1] == s[p]);
        }
        lemma_place_index_is(e, rest, p - 1);
    }
}

proof fn lemma_placed_newest_first(e: FeedEntryView, s: Seq<FeedEntryView>)
    requires
        newest_first(s),
    ensures
        newest_first(placed(e, s)),
{
    lemma_place_index_bounds(e, s);
    let p = place_index(e, s);
    let out = placed(e, s);
    assert forall|i: int, j: int| 0 <= i < j < out.len() implies !published_earlier(
        #[trigger] out[i].published_at,
        #[trigger] out[j].published_at,
    ) by {
        if i == p {
            assert(out[j] == s[j - 1]);
            if p < j - 1 {
                assert(!published_earlier(s[p].published_at, s[j - 1].published_at));
            }
        } else if j == p {
            assert(out[i] == s[i]);
        } else {
            let si = if i < p {
                i
            } else {
                i - 1
            };
            let sj = if j < p {
                j
            } else {
                j - 1
            };
            assert(out[i] == s[si]);
            assert(out[j] == s[sj]);
        }
    }
}

/// The sorted list is in newest-first order.
pub proof fn lemma_sorted_is_newest_first(s: Seq<FeedEntryView>)
    ensures
        newest_first(sorted_newest_first(s)),
    decreases s.len(),
{
    if s.len() > 0 {
        lemma_sorted_is_newest_first(s.drop_first());
        lemma_placed_newest_first(s[0], sorted_newest_first(s.drop_first()));
    }
}

/// Sorting rearranges: the sorted list holds the same articles, each as
/// often as before.
pub proof fn lemma_sorted_permutes(s: Seq<FeedEntryView>)
    ensures
        sorted_newest_first(s).len() == s.len(),
        sorted_newest_first(s).to_multiset() == s.to_multiset(),
    decreases s.len(),
{
    broadcast use group_to_multiset_ensures;

    if s.len() == 0 {
        assert(sorted_newest_first(s) =~= s);
    } else {
        let rest = s.drop_first();
        let inner = sorted_newest_first(rest);
        lemma_sorted_permutes(rest);
        lemma_place_index_bounds(s[0], inner);
        to_multiset_insert(inner, place_index(s[0], inner), s[0]);
        assert(s =~= rest.insert(0, s[0]));
        to_multiset_insert(rest, 0, s[0]);
    }
}

/// A list that is already newest first is left as it is by sorting.
pub proof fn lemma_sorted_fixes_newest_first(s: Seq<FeedEntryView>)
    requires
        newest_first(s),
    ensures
        sorted_newest_first(s) == s,
    decreases s.len(),
{
    if s.len() == 0 {
        assert(sorted_newest_first(s) =~= s);
    } else {
        let rest = s.drop_first();
        assert(newest_first(rest)) by {
            assert forall|i: int, j: int| 0 <= i < j < rest.len() implies !published_earlier(
                #[trigger] rest[i].published_at,
                #[trigger] rest[j].published_at,
            ) by {
                assert(rest[i] == s[i + 1]);
                assert(rest[j] == s[j + 1]);
            }
        }
        lemma_sorted_fixes_newest_first(rest);
        if rest.len() > 0 {
            assert(rest[0] == s[1]);
            assert(!published_earlier(s[0].published_at, s[1].published_at));
        }
        lemma_place_index_is(s[0], rest, 0);
        assert(rest.insert(0, s[0]) =~= s);
    }
}

proof fn lemma_identity_set_push(s: Seq<FeedEntryView>, e: FeedEntryView)
    ensures
        identity_set(s.push(e)) == identity_set(s).insert(e.identity()),
{
    let after = s.push(e);
    assert forall|k: Seq<char>| identity_set(after).contains(k) == identity_set(s).insert(
        e.identity(),
    ).contains(k) by {
        if identity_set(after).contains(k) {
            let i = choose|i: int| 0 <= i < after.len() && #[trigger] after[i].identity() == k;
            if i < s.len() {
                assert(s[i].identity() == k);
            }
        }
        if identity_set(s).contains(k) {
            let i = choose|i: int| 0 <= i < s.len() && #[trigger] s[i].identity() == k;
            assert(after[i].identity() == k);
        }
        if k == e.identity() {
            assert(after[s.len() as int].identity() == k);
        }
    }
    assert(identity_set(after) =~= identity_set(s).insert(e.identity()));
}

/// Merging keeps what was there at the front and adds no identity twice.
pub proof fn lemma_merged_keeps_distinct(existing: Seq<FeedEntryView>, incoming: Seq<FeedEntryView>)
    requires
        distinct_identities(existing),
    ensures
        distinct_identities(merged(existing, incoming)),
        existing.len() <= merged(existing, incoming).len() <= existing.len() + incoming.len(),
        merged(existing, incoming).take(existing.len() as int) == existing,
    decreases incoming.len(),
{
    if incoming.len() == 0 {
        assert(existing.take(existing.len() as int) =~= existing);
    } else if identity_set(existing).contains(incoming[0].identity()) {
        lemma_merged_keeps_distinct(existing, incoming.drop_first());
    } else {
        let grown = existing.push(incoming[0]);
        assert(distinct_identities(grown)) by {
            assert forall|i: int, j: int| 0 <= i < j < grown.len() implies #[trigger] grown[i].identity()
                != #[trigger] grown[j].identity() by {
                if j == existing.len() {
                    assert(grown[i] == existing[i]);
                    if existing[i].identity() == incoming[0].identity() {
                        assert(identity_set(existing).contains(incoming[0].identity()));
                    }
                } else {
                    assert(grown[i] == existing[i]);
                    assert(grown[j] == existing[j]);
                }
            }
        }
        lemma_merged_keeps_distinct(grown, incoming.drop_first());
        let all = merged(existing, incoming);
        assert(all.take(existing.len() as int) =~= all.take(grown.len() as int).take(
            existing.len() as int,
        ));
        assert(grown.take(existing.len() as int) =~= existing);
    }
}

proof fn lemma_distinct_by_multiset(a: Seq<FeedEntryView>, b: Seq<FeedEntryView>)
    requires
        a.to_multiset() == b.to_multiset(),
        distinct_identities(a),
    ensures
        distinct_identities(b),
{
    broadcast use group_to_multiset_ensures;

    to_multiset_len(a);
    to_multiset_len(b);
    assert(a.len() == b.len());
    assert(a.no_duplicates()) by {
        assert forall|i: int, j: int| 0 <= i < a.len() && 0 <= j < a.len() && i != j implies a[i]
            != a[j] by {
            if i < j {
                assert(a[i].identity() != a[j].identity());
            } else {
                assert(a[j].identity() != a[i].identity());
            }
        }
    }
    a.lemma_multiset_has_no_duplicates();
    b.lemma_multiset_has_no_duplicates_conv();
    assert forall|i: int, j: int| 0 <= i < j < b.len() implies #[trigger] b[i].identity()
        != #[trigger] b[j].identity() by {
        assert(b[i] != b[j]);
        assert(b.to_multiset().count(b[i]) > 0);
        assert(b.to_multiset().count(b[j]) > 0);
        assert(a.to_multiset().count(b[i]) > 0);
        assert(a.to_multiset().count(b[j]) > 0);
        assert(a.contains(b[i]));
        assert(a.contains(b[j]));
        let x = choose|x: int| 0 <= x < a.len() && a[x] == b[i];
        let y = choose|y: int| 0 <= y < a.len() && a[y] == b[j];
        assert(x != y);
        if x < y {
            assert(a[x].identity() != a[y].identity());
        } else {
            assert(a[y].identity() != a[x].identity());
        }
    }
}

/// Whatever was cached and whatever comes in, the list after an upsert is
/// newest first and within the limit; if no identity occurred twice before,
/// none does after.
pub proof fn lemma_upserted_bounded_sorted(
    existing: Seq<FeedEntryView>,
    incoming: Seq<FeedEntryView>,
)
    ensures
        upserted(existing, incoming).len() <= MAX_PER_FEED,
        newest_first(upserted(existing, incoming)),
        distinct_identities(existing) ==> distinct_identities(upserted(existing, incoming)),
{
    let all = merged(existing, incoming);
    let sorted = sorted_newest_first(all);
    lemma_sorted_is_newest_first(all);
    lemma_sorted_permutes(all);
    let out = upserted(existing, incoming);
    assert(newest_first(out)) by {
        assert forall|i: int, j: int| 0 <= i < j < out.len() implies !published_earlier(
            #[trigger] out[i].published_at,
            #[trigger] out[j].published_at,
        ) by {
            assert(out[i] == sorted[i]);
            assert(out[j] == sorted[j]);
        }
    }
    if distinct_identities(existing) {
        lemma_merged_keeps_distinct(existing, incoming);
        lemma_distinct_by_multiset(all, sorted);
        assert forall|i: int, j: int| 0 <= i < j < out.len() implies #[trigger] out[i].identity()
            != #[trigger] out[j].identity() by {
            assert(out[i] == sorted[i]);
            assert(out[j] == sorted[j]);
        }
    }
}

/// Sorts articles by publication time, newest first, keeping the order of
/// articles whose times are equal.
pub fn sort_newest_first(entries: Vec<FeedEntry>) -> (sorted: Vec<FeedEntry>)
    ensures
        sorted.deep_view() == sorted_newest_first(entries.deep_view()),
        newest_first(sorted.deep_view()),
        sorted.len() == entries.len(),
{
    let ghost given = entries.deep_view();
    let mut pending = entries;
    let mut out: Vec<FeedEntry> = Vec::new();
    proof {
        assert(given.skip(given.len() as int) =~= Seq::<FeedEntryView>::empty());
        assert(out.deep_view() =~= Seq::<FeedEntryView>::empty());
    }
    while pending.len() > 0
        invariant
            pending.len() <= given.len(),
            pending.deep_view() == given.take(pending.len() as int),
            out.deep_view() == sorted_newest_first(given.skip(pending.len() as int)),
        decreases pending.len(),
    {
        let ghost n = pending.len() as int;
        let ghost before = pending.deep_view();
        let ghost done = out.deep_view();
        let e = pending.pop().unwrap();
        proof {
            assert(e@ == before[n - 1]);
            assert(pending.deep_view() =~= given.take(n - 1));
            assert(given.skip(n - 1).drop_first() =~= given.skip(n));
            assert(given.skip(n - 1)[0] == e@);
        }
        let mut p: usize = 0;
        while p < out.len() && is_published_earlier(&e.published_at, &out[p].published_at)
            invariant
                p <= out.len(),
                out.deep_view() == done,
                forall|j: int|
                    0 <= j < p ==> published_earlier(e@.published_at, done[j].published_at),
            decreases out.len() - p,
        {
            assert(out[p as int]@ == done[p as int]);
            p = p + 1;
        }
        proof {
            if p < out.len() {
                assert(out[p as int]@ == done[p as int]);
            }
            lemma_place_index_is(e@, done, p as int);
        }
        out.insert(p, e);
        proof {
            assert(out.deep_view() =~= done.insert(p as int, e@));
        }
    }
    proof {
        assert(given.skip(0) =~= given);
        lemma_sorted_is_newest_first(given);
        lemma_sorted_permutes(given);
    }
    out
}

/// Appends to `slot` the articles of `incoming` whose identity is not yet
/// in `slot`, first come first kept.
pub fn merge_new(slot: &mut Vec<FeedEntry>, incoming: Vec<FeedEntry>)
    ensures
        final(slot).deep_view() == merged(old(slot).deep_view(), incoming.deep_view()),
{
    let ghost start = slot.deep_view();
    let ghost batch = incoming.deep_view();
    let mut index = StringHashSet::new();
    let mut i: usize = 0;
    proof {
        assert(identity_set(start.take(0)) =~= Set::<Seq<char>>::empty());
    }
    while i < slot.len()
        invariant
            i <= slot.len(),
            slot.deep_view() == start,
            index@ == identity_set(start.take(i as int)),
        decreases slot.len() - i,
    {
        let key = slot[i].identity();
        proof {
            assert(slot[i as int]@ == start[i as int]);
            assert(start.take(i + 1) =~= start.take(i as int).push(start[i as int]));
            lemma_identity_set_push(start.take(i as int), start[i as int]);
        }
        index.insert(key);
        i = i + 1;
    }
    proof {
        assert(start.take(slot.len() as int) =~= start);
    }
    let ghost total = incoming.len() as int;
    let mut pending = reversed(incoming);
    proof {
        assert(batch.skip(0) =~= batch);
    }
    while pending.len() > 0
        invariant
            pending.len() <= total,
            total == batch.len(),
            forall|j: int|
                0 <= j < pending.len() ==> (#[trigger] pending[j])@ == batch[total - 1 - j],
            index@ == identity_set(slot.deep_view()),
            merged(start, batch) == merged(slot.deep_view(), batch.skip(total - pending.len())),
        decreases pending.len(),
    {
        let ghost n = pending.len() as int;
        let ghost rest = batch.skip(total - n);
        let ghost held = slot.deep_view();
        let e = pending.pop().unwrap();
        proof {
            assert(e@ == batch[total - n]);
            assert(rest[0] == e@);
            assert(rest.drop_first() =~= batch.skip(total - n + 1));
        }
        let key = e.identity();
        if index.insert(key) {
            slot.push(e);
            proof {
                assert(slot.deep_view() =~= held.push(e@));
                lemma_identity_set_push(held, e@);
            }
        } else {
            proof {
                assert(index@ =~= identity_set(held));
            }
        }
    }
    proof {
        assert(batch.skip(total).len() == 0);
    }
}

/// One feed's shelf in the cache.
#[derive(Debug)]
pub struct CacheRow {
    feed_id: String,
    entries: Vec<FeedEntry>,
}

/// What a list of rows stands for. Where two rows name the same feed, the
/// first one counts.
pub closed spec fn rows_shelves(rows: Seq<CacheRow>) -> Shelves
    decreases rows.len(),
{
    if rows.len() == 0 {
        Map::empty()
    } else {
        rows_shelves(rows.drop_first()).insert(rows[0].feed_id@, rows[0].entries.deep_view())
    }
}

spec fn rows_entries(rows: Seq<CacheRow>) -> Seq<FeedEntryView>
    decreases rows.len(),
{
    if rows.len() == 0 {
        Seq::empty()
    } else {
        rows_entries(rows.drop_last()) + rows.last().entries.deep_view()
    }
}

spec fn rows_order(rows: Seq<CacheRow>) -> Seq<Seq<char>> {
    Seq::new(rows.len(), |i: int| rows[i].feed_id@)
}

spec fn rows_distinct(rows: Seq<CacheRow>) -> bool {
    forall|i: int, j: int| 0 <= i < j < rows.len() ==> rows[i].feed_id@ != rows[j].feed_id@
}

/// The shelves of the feeds of `order`, one after the other.
pub open spec fn shelves_in_order(order: Seq<Seq<char>>, shelves: Shelves) -> Seq<FeedEntryView>
    decreases order.len(),
{
    if order.len() == 0 {
        Seq::empty()
    } else {
        shelves_in_order(order.drop_last(), shelves) + shelf_of(shelves, order.last())
    }
}

/// What a list of exported shelves stands for: where two shelves name the
/// same feed, the first one counts.
pub open spec fn listed_shelves(rows: Seq<(String, Vec<FeedEntry>)>) -> Shelves
    decreases rows.len(),
{
    if rows.len() == 0 {
        Map::empty()
    } else {
        listed_shelves(rows.drop_first()).insert(rows[0].0@, rows[0].1.deep_view())
    }
}

/// The feeds of a list of exported shelves, each once, in the order in
/// which they first occur.
pub open spec fn listed_order(rows: Seq<(String, Vec<FeedEntry>)>) -> Seq<Seq<char>>
    decreases rows.len(),
{
    if rows.len() == 0 {
        Seq::empty()
    } else {
        let before = listed_order(rows.drop_last());
        if before.contains(rows.last().0@) {
            before
        } else {
            before.push(rows.last().0@)
        }
    }
}

/// The shelves after a run of upserts, each given as the feed and the batch.
pub open spec fn after_upserts(
    shelves: Shelves,
    batches: Seq<(Seq<char>, Seq<FeedEntryView>)>,
) -> Shelves
    decreases batches.len(),
{
    if batches.len() == 0 {
        shelves
    } else {
        let before = after_upserts(shelves, batches.drop_last());
        let (feed, entries) = batches.last();
        before.insert(feed, upserted(shelf_of(before, feed), entries))
    }
}

/// The cache bound: after any run of upserts, the shelf of a feed that an
/// upsert touched, or that was within the limit and newest first at the
/// start, is within the limit and newest first.
pub proof fn lemma_cache_bound_holds(
    shelves: Shelves,
    batches: Seq<(Seq<char>, Seq<FeedEntryView>)>,
    feed: Seq<char>,
)
    requires
        (exists|i: int| 0 <= i < batches.len() && (#[trigger] batches[i]).0 == feed) || (
        shelf_of(shelves, feed).len() <= MAX_PER_FEED && newest_first(shelf_of(shelves, feed))),
    ensures
        shelf_of(after_upserts(shelves, batches), feed).len() <= MAX_PER_FEED,
        newest_first(shelf_of(after_upserts(shelves, batches), feed)),
    decreases batches.len(),
{
    if batches.len() > 0 {
        let head = batches.drop_last();
        let before = after_upserts(shelves, head);
        let (target, entries) = batches.last();
        if target == feed {
            lemma_upserted_bounded_sorted(shelf_of(before, feed), entries);
        } else {
            if exists|i: int| 0 <= i < batches.len() && (#[trigger] batches[i]).0 == feed {
                let i = choose|i: int| 0 <= i < batches.len() && (#[trigger] batches[i]).0 == feed;
                assert(head[i] == batches[i]);
            }
            lemma_cache_bound_holds(shelves, head, feed);
        }
    }
}

proof fn lemma_rows_absent(rows: Seq<CacheRow>, feed: Seq<char>)
    requires
        forall|j: int| 0 <= j < rows.len() ==> rows[j].feed_id@ != feed,
    ensures
        !rows_shelves(rows).dom().contains(feed),
    decreases rows.len(),
{
    if rows.len() > 0 {
        let rest = rows.drop_first();
        assert forall|j: int| 0 <= j < rest.len() implies rest[j].feed_id@ != feed by {
            assert(rest[j] == rows[j + 1]);
        }
        lemma_rows_absent(rest, feed);
    }
}

proof fn lemma_rows_lookup(rows: Seq<CacheRow>, feed: Seq<char>, i: int)
    requires
        0 <= i < rows.len(),
        rows[i].feed_id@ == feed,
        forall|j: int| 0 <= j < i ==> rows[j].feed_id@ != feed,
    ensures
        rows_shelves(rows).dom().contains(feed),
        rows_shelves(rows)[feed] == rows[i].entries.deep_view(),
    decreases rows.len(),
{
    if i > 0 {
        let rest = rows.drop_first();
        assert(rest[i - 1] == rows[i]);
        assert forall|j: int| 0 <= j < i - 1 implies rest[j].feed_id@ != feed by {
            assert(rest[j] == rows[j + 1]);
        }
        lemma_rows_lookup(rest, feed, i - 1);
    }
}

proof fn lemma_rows_update(rows: Seq<CacheRow>, i: int, row: CacheRow)
    requires
        0 <= i < rows.len(),
        rows[i].feed_id@ == row.feed_id@,
        forall|j: int| 0 <= j < i ==> rows[j].feed_id@ != row.feed_id@,
    ensures
        rows_shelves(rows.update(i, row)) == rows_shelves(rows).insert(
            row.feed_id@,
            row.entries.deep_view(),
        ),
    decreases rows.len(),
{
    let after = rows.update(i, row);
    let rest = rows.drop_first();
    if i == 0 {
        assert(after.drop_first() =~= rest);
        assert(rows_shelves(after) =~= rows_shelves(rows).insert(
            row.feed_id@,
            row.entries.deep_view(),
        ));
    } else {
        assert(rest[i - 1] == rows[i]);
        assert forall|j: int| 0 <= j < i - 1 implies rest[j].feed_id@ != row.feed_id@ by {
            assert(rest[j] == rows[j + 1]);
        }
        lemma_rows_update(rest, i - 1, row);
        assert(after.drop_first() =~= rest.update(i - 1, row));
        assert(after[0] == rows[0]);
        assert(rows_shelves(after) =~= rows_shelves(rows).insert(
            row.feed_id@,
            row.entries.deep_view(),
        ));
    }
}

proof fn lemma_rows_push(rows: Seq<CacheRow>, row: CacheRow)
    requires
        forall|j: int| 0 <= j < rows.len() ==> rows[j].feed_id@ != row.feed_id@,
    ensures
        rows_shelves(rows.push(row)) == rows_shelves(rows).insert(
            row.feed_id@,
            row.entries.deep_view(),
        ),
    decreases rows.len(),
{
    let after = rows.push(row);
    if rows.len() == 0 {
        assert(after.drop_first() =~= rows);
        assert(rows_shelves(after) =~= rows_shelves(rows).insert(
            row.feed_id@,
            row.entries.deep_view(),
        ));
    } else {
        let rest = rows.drop_first();
        assert forall|j: int| 0 <= j < rest.len() implies rest[j].feed_id@ != row.feed_id@ by {
            assert(rest[j] == rows[j + 1]);
        }
        lemma_rows_push(rest, row);
        assert(after.drop_first() =~= rest.push(row));
        assert(after[0] == rows[0]);
        assert(rows_shelves(after) =~= rows_shelves(rows).insert(
            row.feed_id@,
            row.entries.deep_view(),
        ));
    }
}

proof fn lemma_rows_remove(rows: Seq<CacheRow>, i: int)
    requires
        0 <= i < rows.len(),
        rows_distinct(rows),
    ensures
        rows_shelves(rows.remove(i)) == rows_shelves(rows).remove(rows[i].feed_id@),
        rows_distinct(rows.remove(i)),
    decreases rows.len(),
{
    let after = rows.remove(i);
    let rest = rows.drop_first();
    assert(rows_distinct(after)) by {
        assert forall|a: int, b: int| 0 <= a < b < after.len() implies after[a].feed_id@
            != after[b].feed_id@ by {
            let ra = if a < i {
                a
            } else {
                a + 1
            };
            let rb = if b < i {
                b
            } else {
                b + 1
            };
            assert(after[a] == rows[ra]);
            assert(after[b] == rows[rb]);
        }
    }
    if i == 0 {
        assert(after =~= rest);
        assert forall|j: int| 0 <= j < rest.len() implies rest[j].feed_id@ != rows[0].feed_id@ by {
            assert(rest[j] == rows[j + 1]);
        }
        lemma_rows_absent(rest, rows[0].feed_id@);
        assert(rows_shelves(after) =~= rows_shelves(rows).remove(rows[0].feed_id@));
    } else {
        assert(rows_distinct(rest)) by {
            assert forall|a: int, b: int| 0 <= a < b < rest.len() implies rest[a].feed_id@
                != rest[b].feed_id@ by {
                assert(rest[a] == rows[a + 1]);
                assert(rest[b] == rows[b + 1]);
            }
        }
        assert(rest[i - 1] == rows[i]);
        lemma_rows_remove(rest, i - 1);
        assert(after.drop_first() =~= rest.remove(i - 1));
        assert(after[0] == rows[0]);
        assert(rows[0].feed_id@ != rows[i].feed_id@);
        assert(rows_shelves(after) =~= rows_shelves(rows).remove(rows[i].feed_id@));
    }
}

proof fn lemma_rows_listed(rows: Seq<CacheRow>, listed: Seq<(String, Vec<FeedEntry>)>)
    requires
        rows.len() == listed.len(),
        forall|j: int|
            0 <= j < rows.len() ==> rows[j].feed_id@ == listed[j].0@
                && rows[j].entries.deep_view() == listed[j].1.deep_view(),
    ensures
        rows_shelves(rows) == listed_shelves(listed),
    decreases rows.len(),
{
    if rows.len() > 0 {
        let rest = rows.drop_first();
        let listed_rest = listed.drop_first();
        assert forall|j: int| 0 <= j < rest.len() implies rest[j].feed_id@ == listed_rest[j].0@
            && rest[j].entries.deep_view() == listed_rest[j].1.deep_view() by {
            assert(rest[j] == rows[j + 1]);
            assert(listed_rest[j] == listed[j + 1]);
        }
        lemma_rows_listed(rest, listed_rest);
    }
}

proof fn lemma_listed_push(listed: Seq<(String, Vec<FeedEntry>)>, pair: (String, Vec<FeedEntry>))
    ensures
        listed_shelves(listed.push(pair)) == if listed_shelves(listed).dom().contains(pair.0@) {
            listed_shelves(listed)
        } else {
            listed_shelves(listed).insert(pair.0@, pair.1.deep_view())
        },
    decreases listed.len(),
{
    let after = listed.push(pair);
    if listed.len() == 0 {
        assert(after.drop_first() =~= listed);
        assert(listed_shelves(after) =~= listed_shelves(listed).insert(
            pair.0@,
            pair.1.deep_view(),
        ));
    } else {
        let rest = listed.drop_first();
        lemma_listed_push(rest, pair);
        assert(after.drop_first() =~= rest.push(pair));
        assert(after[0] == listed[0]);
        if listed_shelves(listed).dom().contains(pair.0@) {
            assert(listed_shelves(after) =~= listed_shelves(listed));
        } else {
            assert(listed_shelves(after) =~= listed_shelves(listed).insert(
                pair.0@,
                pair.1.deep_view(),
            ));
        }
    }
}

proof fn lemma_rows_dom(rows: Seq<CacheRow>)
    ensures
        rows_shelves(rows).dom() == rows_order(rows).to_set(),
    decreases rows.len(),
{
    let order = rows_order(rows);
    if rows.len() == 0 {
        assert(rows_shelves(rows).dom() =~= order.to_set());
    } else {
        let rest = rows.drop_first();
        lemma_rows_dom(rest);
        let rest_order = rows_order(rest);
        assert forall|f: Seq<char>| rows_shelves(rows).dom().contains(f) == order.to_set().contains(
            f,
        ) by {
            if order.contains(f) {
                let i = choose|i: int| 0 <= i < order.len() && order[i] == f;
                if i > 0 {
                    assert(rest_order[i - 1] == f);
                    assert(rest_order.contains(f));
                }
            }
            if rest_order.contains(f) {
                let i = choose|i: int| 0 <= i < rest_order.len() && rest_order[i] == f;
                assert(order[i + 1] == f);
            }
            if f == rows[0].feed_id@ {
                assert(order[0] == f);
            }
        }
        assert(rows_shelves(rows).dom() =~= order.to_set());
    }
}

proof fn lemma_shelves_agree(order: Seq<Seq<char>>, a: Shelves, b: Shelves)
    requires
        forall|i: int| 0 <= i < order.len() ==> shelf_of(a, order[i]) == shelf_of(b, order[i]),
    ensures
        shelves_in_order(order, a) == shelves_in_order(order, b),
    decreases order.len(),
{
    if order.len() > 0 {
        let head = order.drop_last();
        assert forall|i: int| 0 <= i < head.len() implies shelf_of(a, head[i]) == shelf_of(
            b,
            head[i],
        ) by {
            assert(head[i] == order[i]);
        }
        lemma_shelves_agree(head, a, b);
    }
}

proof fn lemma_rows_entries_in_order(rows: Seq<CacheRow>)
    requires
        rows_distinct(rows),
    ensures
        rows_entries(rows) == shelves_in_order(rows_order(rows), rows_shelves(rows)),
    decreases rows.len(),
{
    if rows.len() > 0 {
        let head = rows.drop_last();
        let last = rows.last();
        lemma_rows_entries_in_order(head);
        assert(rows =~= head.push(last));
        lemma_rows_push(head, last);
        assert(rows_order(rows).drop_last() =~= rows_order(head));
        assert(rows_order(rows).last() == last.feed_id@);
        lemma_shelves_agree(rows_order(head), rows_shelves(rows), rows_shelves(head));
    }
}

/// The test that a feed id is another than `feed`.
pub open spec fn other_feed(feed: Seq<char>) -> spec_fn(Seq<char>) -> bool {
    |id: Seq<char>| id != feed
}

proof fn lemma_order_kept(order: Seq<Seq<char>>, keep: spec_fn(Seq<char>) -> bool)
    requires
        forall|j: int| 0 <= j < order.len() ==> keep(order[j]),
    ensures
        order.filter(keep) == order,
    decreases order.len(),
{
    reveal(Seq::filter);
    if order.len() > 0 {
        let head = order.drop_last();
        assert forall|j: int| 0 <= j < head.len() implies keep(head[j]) by {
            assert(head[j] == order[j]);
        }
        lemma_order_kept(head, keep);
        assert(head.push(order.last()) =~= order);
    }
}

proof fn lemma_order_without(rows: Seq<CacheRow>, i: int)
    requires
        0 <= i < rows.len(),
        rows_distinct(rows),
    ensures
        rows_order(rows.remove(i)) == rows_order(rows).filter(other_feed(rows[i].feed_id@)),
{
    let keep = other_feed(rows[i].feed_id@);
    let order = rows_order(rows);
    let front = order.take(i);
    let back = order.skip(i + 1);
    assert(order =~= front + seq![order[i]] + back);
    assert forall|j: int| 0 <= j < front.len() implies keep(front[j]) by {
        assert(front[j] == rows[j].feed_id@);
        assert(rows[j].feed_id@ != rows[i].feed_id@);
    }
    assert forall|j: int| 0 <= j < back.len() implies keep(back[j]) by {
        assert(back[j] == rows[i + 1 + j].feed_id@);
        assert(rows[i].feed_id@ != rows[i + 1 + j].feed_id@);
    }
    lemma_order_kept(front, keep);
    lemma_order_kept(back, keep);
    Seq::filter_distributes_over_add(front + seq![order[i]], back, keep);
    Seq::filter_distributes_over_add(front, seq![order[i]], keep);
    assert(seq![order[i]].filter(keep) =~= Seq::<Seq<char>>::empty()) by {
        reveal(Seq::filter);
        assert(seq![order[i]].drop_last() =~= Seq::<Seq<char>>::empty());
        assert(Seq::<Seq<char>>::empty().filter(keep) =~= Seq::<Seq<char>>::empty());
    }
    assert(rows_order(rows.remove(i)) =~= front + back);
}

fn find_row(rows: &Vec<CacheRow>, feed_id: &str) -> (at: Option<usize>)
    ensures
        match at {
            Some(i) => i < rows.len() && rows[i as int].feed_id@ == feed_id@ && forall|j: int|
                0 <= j < i ==> rows[j].feed_id@ != feed_id@,
            None => forall|j: int| 0 <= j < rows.len() ==> rows[j].feed_id@ != feed_id@,
        },
{
    let mut i: usize = 0;
    while i < rows.len()
        invariant
            i <= rows.len(),
            forall|j: int| 0 <= j < i ==> rows[j].feed_id@ != feed_id@,
        decreases rows.len() - i,
    {
        if str_eq(rows[i].feed_id.as_str(), feed_id) {
            return Some(i);
        }
        i = i + 1;
    }
    None
}

/// The cache of recent articles, feed by feed. Every feed has at most one
/// shelf.
#[derive(Debug)]
pub struct ArticleCache {
    rows: Vec<CacheRow>,
}

impl View for ArticleCache {
    type V = Shelves;

    closed spec fn view(&self) -> Shelves {
        rows_shelves(self.rows@)
    }
}

impl ArticleCache {
    #[verifier::type_invariant]
    closed spec fn one_shelf_per_feed(&self) -> bool {
        rows_distinct(self.rows@)
    }

    /// The feeds that have a shelf, in the order in which the shelves were
    /// made.
    pub closed spec fn feed_order(&self) -> Seq<Seq<char>> {
        rows_order(self.rows@)
    }

    /// The order names each feed of the cache once and no other.
    pub open spec fn in_order(&self) -> bool {
        self.feed_order().no_duplicates() && self.feed_order().to_set() == self@.dom()
    }

    /// Every shelf is newest first, within the limit, and free of repeated
    /// identities.
    pub open spec fn well_kept(&self) -> bool {
        forall|feed: Seq<char>| #[trigger]
            self@.dom().contains(feed) ==> {
                &&& self@[feed].len() <= MAX_PER_FEED
                &&& newest_first(self@[feed])
                &&& distinct_identities(self@[feed])
            }
    }

    /// The articles of all shelves, shelf after shelf.
    pub open spec fn all_entries(&self) -> Seq<FeedEntryView> {
        shelves_in_order(self.feed_order(), self@)
    }

    proof fn lemma_in_order(&self)
        requires
            rows_distinct(self.rows@),
        ensures
            self.in_order(),
    {
        lemma_rows_dom(self.rows@);
        let order = self.feed_order();
        assert forall|i: int, j: int| 0 <= i < order.len() && 0 <= j < order.len() && i
            != j implies order[i] != order[j] by {
            if i < j {
                assert(self.rows@[i].feed_id@ != self.rows@[j].feed_id@);
            } else {
                assert(self.rows@[j].feed_id@ != self.rows@[i].feed_id@);
            }
        }
    }

    /// The empty cache.
    pub fn new() -> (cache: ArticleCache)
        ensures
            cache@ == Map::<Seq<char>, Seq<FeedEntryView>>::empty(),
            cache.feed_order() == Seq::<Seq<char>>::empty(),
            cache.in_order(),
            cache.well_kept(),
    {
        let cache = ArticleCache { rows: Vec::new() };
        proof {
            cache.lemma_in_order();
            assert(cache.feed_order() =~= Seq::<Seq<char>>::empty());
        }
        cache
    }

    /// Merges a batch into a feed's shelf: articles whose identity the shelf
    /// already has are dropped, the shelf is sorted newest first and cut to
    /// [`MAX_PER_FEED`]. A feed without a shelf gets one, behind the others.
    pub fn upsert(&mut self, feed_id: &str, entries: Vec<FeedEntry>)
        ensures
            final(self)@ == old(self)@.insert(
                feed_id@,
                upserted(shelf_of(old(self)@, feed_id@), entries.deep_view()),
            ),
            final(self).feed_order() == if old(self)@.dom().contains(feed_id@) {
                old(self).feed_order()
            } else {
                old(self).feed_order().push(feed_id@)
            },
            final(self).in_order(),
            final(self)@[feed_id@].len() <= MAX_PER_FEED,
            newest_first(final(self)@[feed_id@]),
            old(self).well_kept() ==> final(self).well_kept(),
    {
        proof {
            use_type_invariant(&*self);
        }
        let ghost before = self.rows@;
        let ghost shelves = self@;
        let ghost batch = entries.deep_view();
        let mut rows: Vec<CacheRow> = Vec::new();
        std::mem::swap(&mut rows, &mut self.rows);
        let at = find_row(&rows, feed_id);
        let mut slot: Vec<FeedEntry> = Vec::new();
        match at {
            Some(i) => {
                proof {
                    lemma_rows_lookup(before, feed_id@, i as int);
                }
                let mut row = rows.remove(i);
                std::mem::swap(&mut slot, &mut row.entries);
                proof {
                    assert(slot.deep_view() =~= shelf_of(shelves, feed_id@));
                }
                row.entries = upsert_shelf(slot, entries);
                proof {
                    lemma_rows_update(before, i as int, row);
                    assert(before.remove(i as int).insert(i as int, row) =~= before.update(
                        i as int,
                        row,
                    ));
                    assert(rows_order(before.update(i as int, row)) =~= rows_order(before));
                }
                rows.insert(i, row);
            },
            None => {
                proof {
                    lemma_rows_absent(before, feed_id@);
                    assert(slot.deep_view() =~= shelf_of(shelves, feed_id@));
                }
                let row = CacheRow {
                    feed_id: feed_id.to_owned(),
                    entries: upsert_shelf(slot, entries),
                };
                proof {
                    lemma_rows_push(before, row);
                    assert(rows_order(before.push(row)) =~= rows_order(before).push(feed_id@));
                }
                rows.push(row);
            },
        }
        self.rows = rows;
        proof {
            lemma_upserted_bounded_sorted(shelf_of(shelves, feed_id@), batch);
            self.lemma_in_order();
        }
    }

    /// Drops the shelf of a feed, if it has one, as when the feed is
    /// removed for good.
    pub fn forget_feed(&mut self, feed_id: &str)
        ensures
            final(self)@ == old(self)@.remove(feed_id@),
            final(self).feed_order() == old(self).feed_order().filter(other_feed(feed_id@)),
            final(self).in_order(),
            old(self).well_kept() ==> final(self).well_kept(),
    {
        proof {
            use_type_invariant(&*self);
        }
        let ghost before = self.rows@;
        let ghost keep = other_feed(feed_id@);
        let mut rows: Vec<CacheRow> = Vec::new();
        std::mem::swap(&mut rows, &mut self.rows);
        match find_row(&rows, feed_id) {
            Some(i) => {
                proof {
                    lemma_rows_remove(before, i as int);
                    lemma_order_without(before, i as int);
                }
                rows.remove(i);
            },
            None => {
                proof {
                    lemma_rows_absent(before, feed_id@);
                    assert(rows_shelves(before).remove(feed_id@) =~= rows_shelves(before));
                    lemma_order_kept(rows_order(before), keep);
                }
            },
        }
        self.rows = rows;
        proof {
            self.lemma_in_order();
            if old(self).well_kept() {
                assert forall|feed: Seq<char>| #[trigger]
                    self@.dom().contains(feed) implies self@[feed].len() <= MAX_PER_FEED
                    && newest_first(self@[feed]) && distinct_identities(self@[feed]) by {
                    assert(old(self)@.dom().contains(feed));
                    assert(self@[feed] == old(self)@[feed]);
                }
            }
        }
    }

    /// The articles cached for a feed, in shelf order; none for a feed
    /// without a shelf.
    pub fn list(&self, feed_id: &str) -> (entries: Vec<FeedEntry>)
        ensures
            entries.deep_view() == shelf_of(self@, feed_id@),
    {
        match find_row(&self.rows, feed_id) {
            Some(i) => {
                proof {
                    lemma_rows_lookup(self.rows@, feed_id@, i as int);
                }
                clone_entries(&self.rows[i].entries)
            },
            None => {
                proof {
                    lemma_rows_absent(self.rows@, feed_id@);
                }
                let out: Vec<FeedEntry> = Vec::new();
                assert(out.deep_view() =~= Seq::<FeedEntryView>::empty());
                out
            },
        }
    }

    /// The articles of all feeds together, sorted newest first; among
    /// articles of equal time, shelf order and the order in the shelf
    /// decide.
    pub fn list_all(&self) -> (entries: Vec<FeedEntry>)
        ensures
            entries.deep_view() == sorted_newest_first(self.all_entries()),
            newest_first(entries.deep_view()),
            entries.deep_view().to_multiset() == self.all_entries().to_multiset(),
            self.in_order(),
    {
        let mut all: Vec<FeedEntry> = Vec::new();
        let mut i: usize = 0;
        proof {
            assert(all.deep_view() =~= rows_entries(self.rows@.take(0)));
        }
        while i < self.rows.len()
            invariant
                i <= self.rows.len(),
                all.deep_view() == rows_entries(self.rows@.take(i as int)),
            decreases self.rows.len() - i,
        {
            let ghost held = all.deep_view();
            let mut shelf = clone_entries(&self.rows[i].entries);
            let ghost added = shelf.deep_view();
            all.append(&mut shelf);
            proof {
                assert(all.deep_view() =~= held + added);
                assert(self.rows@.take(i + 1).drop_last() =~= self.rows@.take(i as int));
                assert(self.rows@.take(i + 1).last() == self.rows@[i as int]);
            }
            i = i + 1;
        }
        proof {
            use_type_invariant(self);
            assert(self.rows@.take(self.rows.len() as int) =~= self.rows@);
            lemma_rows_entries_in_order(self.rows@);
            lemma_sorted_permutes(self.all_entries());
            self.lemma_in_order();
        }
        sort_newest_first(all)
    }

    /// The shelves as plain lists, for writing the cache out.
    pub fn to_rows(&self) -> (rows: Vec<(String, Vec<FeedEntry>)>)
        ensures
            listed_shelves(rows@) == self@,
            rows.len() == self.feed_order().len(),
            forall|i: int| 0 <= i < rows.len() ==> (#[trigger] rows[i]).0@ == self.feed_order()[i],
    {
        let mut out: Vec<(String, Vec<FeedEntry>)> = Vec::new();
        let mut i: usize = 0;
        while i < self.rows.len()
            invariant
                i <= self.rows.len(),
                out.len() == i,
                forall|j: int|
                    0 <= j < i ==> self.rows[j].feed_id@ == out[j].0@
                        && self.rows[j].entries.deep_view() == out[j].1.deep_view(),
            decreases self.rows.len() - i,
        {
            let feed_id = self.rows[i].feed_id.clone();
            let entries = clone_entries(&self.rows[i].entries);
            out.push((feed_id, entries));
            i = i + 1;
        }
        proof {
            lemma_rows_listed(self.rows@, out@);
        }
        out
    }

    /// The cache that plain shelves stand for. The shelves are taken as
    /// they are; of two shelves of one feed the first is taken.
    pub fn from_rows(rows: Vec<(String, Vec<FeedEntry>)>) -> (cache: ArticleCache)
        ensures
            cache@ == listed_shelves(rows@),
            cache.feed_order() == listed_order(rows@),
            cache.in_order(),
    {
        let ghost listed = rows@;
        let ghost total = rows.len() as int;
        let mut pending = reversed(rows);
        let mut out: Vec<CacheRow> = Vec::new();
        proof {
            assert(listed.take(0) =~= Seq::<(String, Vec<FeedEntry>)>::empty());
            assert(rows_order(out@) =~= listed_order(listed.take(0)));
        }
        while pending.len() > 0
            invariant
                pending.len() <= total,
                total == listed.len(),
                forall|j: int| 0 <= j < pending.len() ==> pending[j] == listed[total - 1 - j],
                rows_distinct(out@),
                rows_shelves(out@) == listed_shelves(listed.take(total - pending.len())),
                rows_order(out@) == listed_order(listed.take(total - pending.len())),
            decreases pending.len(),
        {
            let ghost n = pending.len() as int;
            let ghost done = listed.take(total - n);
            let ghost held = out@;
            let pair = pending.pop().unwrap();
            proof {
                assert(pair == listed[total - n]);
                assert(listed.take(total - n + 1) =~= done.push(pair));
                assert(done.push(pair).drop_last() =~= done);
                lemma_listed_push(done, pair);
                lemma_rows_dom(held);
            }
            let (feed_id, entries) = pair;
            match find_row(&out, feed_id.as_str()) {
                Some(i) => {
                    proof {
                        assert(rows_order(held)[i as int] == feed_id@);
                        assert(rows_order(held).contains(feed_id@));
                    }
                },
                None => {
                    let row = CacheRow { feed_id, entries };
                    proof {
                        lemma_rows_push(held, row);
                        assert(!rows_order(held).contains(row.feed_id@)) by {
                            if rows_order(held).contains(row.feed_id@) {
                                let k = choose|k: int|
                                    0 <= k < rows_order(held).len() && rows_order(held)[k]
                                        == row.feed_id@;
                                assert(held[k].feed_id@ == row.feed_id@);
                            }
                        }
                        assert(rows_order(held.push(row)) =~= rows_order(held).push(row.feed_id@));
                    }
                    out.push(row);
                },
            }
        }
        proof {
            assert(listed.take(total) =~= listed);
        }
        let cache = ArticleCache { rows: out };
        proof {
            cache.lemma_in_order();
        }
        cache
    }
}

fn upsert_shelf(slot: Vec<FeedEntry>, entries: Vec<FeedEntry>) -> (shelf: Vec<FeedEntry>)
    ensures
        shelf.deep_view() == upserted(slot.deep_view(), entries.deep_view()),
{
    let mut slot = slot;
    merge_new(&mut slot, entries);
    let mut sorted = sort_newest_first(slot);
    if sorted.len() > MAX_PER_FEED {
        let ghost full = sorted.deep_view();
        sorted.truncate(MAX_PER_FEED);
        proof {
            assert(sorted.deep_view() =~= full.take(MAX_PER_FEED as int));
        }
    }
    sorted
}

/// Copies a list of articles.
pub fn clone_entries(entries: &Vec<FeedEntry>) -> (copy: Vec<FeedEntry>)
    ensures
        copy.deep_view() == entries.deep_view(),
{
    let mut out: Vec<FeedEntry> = Vec::new();
    let mut i: usize = 0;
    while i < entries.len()
        invariant
            i <= entries.len(),
            out.len() == i,
            forall|j: int| 0 <= j < i ==> out[j]@ == entries[j]@,
        decreases entries.len() - i,
    {
        out.push(entries[i].clone());
        i = i + 1;
    }
    assert(out.deep_view() =~= entries.deep_view());
    out
}

} // verus!
