//! Per-feed sets of article identities, the shape shared by the seen store
//! and the read store.

use vstd::prelude::*;

use crate::lists::reversed;
use crate::text::str_eq;

verus! {

/// What a table of marks holds: for each feed that has a row, the set of its
/// identities.
pub type Marks = Map<Seq<char>, Set<Seq<char>>>;

/// The identities recorded for `feed`, none when the feed has no row.
pub open spec fn marks_of(table: Marks, feed: Seq<char>) -> Set<Seq<char>> {
    if table.dom().contains(feed) {
        table[feed]
    } else {
        Set::empty()
    }
}

/// Whether `key` is recorded for `feed`.
pub open spec fn is_marked(table: Marks, feed: Seq<char>, key: Seq<char>) -> bool {
    marks_of(table, feed).contains(key)
}

/// The table after recording `key` for `feed`.
pub open spec fn with_mark(table: Marks, feed: Seq<char>, key: Seq<char>) -> Marks {
    table.insert(feed, marks_of(table, feed).insert(key))
}

/// The set of strings that a list of strings holds.
pub open spec fn key_set(keys: Seq<String>) -> Set<Seq<char>> {
    Set::new(|k: Seq<char>| exists|i: int| 0 <= i < keys.len() && #[trigger] keys[i]@ == k)
}

/// No text occurs twice in the list.
pub open spec fn distinct_texts(keys: Seq<String>) -> bool {
    forall|i: int, j: int| 0 <= i < j < keys.len() ==> keys[i]@ != keys[j]@
}

proof fn lemma_key_set_push(keys: Seq<String>, key: String)
    ensures
        key_set(keys.push(key)) == key_set(keys).insert(key@),
{
    let after = keys.push(key);
    assert forall|k: Seq<char>| key_set(after).contains(k) == key_set(keys).insert(key@).contains(
        k,
    ) by {
        if key_set(after).contains(k) {
            let i = choose|i: int| 0 <= i < after.len() && #[trigger] after[i]@ == k;
            if i < keys.len() {
                assert(keys[i]@ == k);
            }
        }
        if key_set(keys).contains(k) {
            let i = choose|i: int| 0 <= i < keys.len() && #[trigger] keys[i]@ == k;
            assert(after[i]@ == k);
        }
        if k == key@ {
            assert(after[keys.len() as int]@ == k);
        }
    }
    assert(key_set(after) =~= key_set(keys).insert(key@));
}

proof fn lemma_key_set_absent(keys: Seq<String>, key: Seq<char>)
    requires
        !key_set(keys).contains(key),
    ensures
        forall|i: int| 0 <= i < keys.len() ==> keys[i]@ != key,
{
    assert forall|i: int| 0 <= i < keys.len() implies keys[i]@ != key by {
        if keys[i]@ == key {
            assert(key_set(keys).contains(key));
        }
    }
}

/// A set of strings.
#[derive(Debug)]
pub struct KeySet {
    keys: Vec<String>,
}

impl View for KeySet {
    type V = Set<Seq<char>>;

    closed spec fn view(&self) -> Set<Seq<char>> {
        key_set(self.keys@)
    }
}

impl KeySet {
    #[verifier::type_invariant]
    closed spec fn each_key_once(&self) -> bool {
        distinct_texts(self.keys@)
    }

    /// The empty set.
    pub fn new() -> (set: KeySet)
        ensures
            set@ == Set::<Seq<char>>::empty(),
    {
        let set = KeySet { keys: Vec::new() };
        assert(set@ =~= Set::<Seq<char>>::empty());
        set
    }

    /// The set of the strings in `keys`.
    pub fn from_vec(keys: Vec<String>) -> (set: KeySet)
        ensures
            set@ == key_set(keys@),
    {
        let ghost listed = keys@;
        let ghost total = keys.len() as int;
        let mut pending = reversed(keys);
        let mut set = KeySet::new();
        proof {
            assert(key_set(listed.take(0)) =~= Set::<Seq<char>>::empty());
        }
        while pending.len() > 0
            invariant
                pending.len() <= total,
                total == listed.len(),
                forall|j: int| 0 <= j < pending.len() ==> pending[j] == listed[total - 1 - j],
                set@ == key_set(listed.take(total - pending.len())),
            decreases pending.len(),
        {
            let ghost n = pending.len() as int;
            let key = pending.pop().unwrap();
            proof {
                assert(key == listed[total - n]);
                assert(listed.take(total - n + 1) =~= listed.take(total - n).push(key));
                lemma_key_set_push(listed.take(total - n), key);
            }
            set.insert(key);
        }
        proof {
            assert(listed.take(total) =~= listed);
        }
        set
    }

    /// Whether `key` is in the set.
    pub fn contains(&self, key: &str) -> (found: bool)
        ensures
            found == self@.contains(key@),
    {
        let mut i: usize = 0;
        while i < self.keys.len()
            invariant
                i <= self.keys.len(),
                forall|j: int| 0 <= j < i ==> self.keys[j]@ != key@,
            decreases self.keys.len() - i,
        {
            if str_eq(self.keys[i].as_str(), key) {
                return true;
            }
            i = i + 1;
        }
        false
    }

    /// Adds `key`; returns whether it was absent before.
    pub fn insert(&mut self, key: String) -> (added: bool)
        ensures
            added == !old(self)@.contains(key@),
            final(self)@ == old(self)@.insert(key@),
    {
        proof {
            use_type_invariant(&*self);
        }
        if self.contains(key.as_str()) {
            assert(self@ =~= self@.insert(key@));
            false
        } else {
            let ghost before = self.keys@;
            let mut keys: Vec<String> = Vec::new();
            std::mem::swap(&mut keys, &mut self.keys);
            proof {
                lemma_key_set_push(before, key);
                lemma_key_set_absent(before, key@);
            }
            keys.push(key);
            self.keys = keys;
            true
        }
    }

    /// The members, each once.
    pub fn to_vec(&self) -> (keys: Vec<String>)
        ensures
            key_set(keys@) == self@,
            distinct_texts(keys@),
    {
        proof {
            use_type_invariant(self);
        }
        let mut out: Vec<String> = Vec::new();
        let mut i: usize = 0;
        while i < self.keys.len()
            invariant
                i <= self.keys.len(),
                out.len() == i,
                forall|j: int| 0 <= j < i ==> out[j]@ == self.keys[j]@,
            decreases self.keys.len() - i,
        {
            out.push(self.keys[i].clone());
            i = i + 1;
        }
        assert(key_set(out@) =~= key_set(self.keys@)) by {
            assert forall|k: Seq<char>| key_set(out@).contains(k) == key_set(self.keys@).contains(
                k,
            ) by {
                if key_set(out@).contains(k) {
                    let i = choose|i: int| 0 <= i < out.len() && #[trigger] out[i]@ == k;
                    assert(self.keys[i]@ == k);
                }
                if key_set(self.keys@).contains(k) {
                    let i = choose|i: int| 0 <= i < self.keys.len() && #[trigger] self.keys[i]@ == k;
                    assert(out[i]@ == k);
                }
            }
        }
        out
    }
}

/// One feed's row in a table of marks.
#[derive(Debug)]
pub struct MarkRow {
    feed_id: String,
    keys: KeySet,
}

/// What a list of rows stands for. Where two rows name the same feed, the
/// first one counts.
pub closed spec fn rows_marks(rows: Seq<MarkRow>) -> Marks
    decreases rows.len(),
{
    if rows.len() == 0 {
        Map::empty()
    } else {
        rows_marks(rows.drop_first()).insert(rows[0].feed_id@, rows[0].keys@)
    }
}

spec fn rows_distinct(rows: Seq<MarkRow>) -> bool {
    forall|i: int, j: int| 0 <= i < j < rows.len() ==> rows[i].feed_id@ != rows[j].feed_id@
}

/// What a list of exported rows stands for: where two rows name the same
/// feed, the first one counts.
pub open spec fn listed_marks(rows: Seq<(String, Vec<String>)>) -> Marks
    decreases rows.len(),
{
    if rows.len() == 0 {
        Map::empty()
    } else {
        listed_marks(rows.drop_first()).insert(rows[0].0@, key_set(rows[0].1@))
    }
}

/// No feed has two rows in the list, and no row names a key twice.
pub open spec fn listed_once(rows: Seq<(String, Vec<String>)>) -> bool {
    &&& forall|i: int, j: int| 0 <= i < j < rows.len() ==> rows[i].0@ != rows[j].0@
    &&& forall|i: int| 0 <= i < rows.len() ==> distinct_texts(#[trigger] rows[i].1@)
}

proof fn lemma_rows_absent(rows: Seq<MarkRow>, feed: Seq<char>)
    requires
        forall|j: int| 0 <= j < rows.len() ==> rows[j].feed_id@ != feed,
    ensures
        !rows_marks(rows).dom().contains(feed),
    decreases rows.len(),
{
    if rows.len() > 0 {
        let rest = rows.drop_first();
        assert forall|j: int| 0 <= j < rest.len() implies rest[j].feed_id@ != feed by {
            assert(rest[j] == rows[j + 1]);
        }
        lemma_rows_absent(rest, feed);
    }
}

proof fn lemma_rows_present(rows: Seq<MarkRow>, i: int)
    requires
        0 <= i < rows.len(),
    ensures
        rows_marks(rows).dom().contains(rows[i].feed_id@),
    decreases rows.len(),
{
    if i > 0 {
        let rest = rows.drop_first();
        assert(rest[i - 1] == rows[i]);
        lemma_rows_present(rest, i - 1);
    }
}

proof fn lemma_rows_lookup(rows: Seq<MarkRow>, feed: Seq<char>, i: int)
    requires
        0 <= i < rows.len(),
        rows[i].feed_id@ == feed,
        forall|j: int| 0 <= j < i ==> rows[j].feed_id@ != feed,
    ensures
        rows_marks(rows).dom().contains(feed),
        rows_marks(rows)[feed] == rows[i].keys@,
    decreases rows.len(),
{
    if i > 0 {
        let rest = rows.drop_first();
        assert(rest[i - 1] == rows[i]);
        assert forall|j: int| 0 <= j < i - 1 implies rest[j].feed_id@ != feed by {
            assert(rest[j] == rows[j + 1]);
        }
        lemma_rows_lookup(rest, feed, i - 1);
    }
}

proof fn lemma_rows_update(rows: Seq<MarkRow>, i: int, row: MarkRow)
    requires
        0 <= i < rows.len(),
        rows[i].feed_id@ == row.feed_id@,
        forall|j: int| 0 <= j < i ==> rows[j].feed_id@ != row.feed_id@,
    ensures
        rows_marks(rows.update(i, row)) == rows_marks(rows).insert(row.feed_id@, row.keys@),
    decreases rows.len(),
{
    let after = rows.update(i, row);
    let rest = rows.drop_first();
    if i == 0 {
        assert(after.drop_first() =~= rest);
        assert(rows_marks(after) =~= rows_marks(rows).insert(row.feed_id@, row.keys@));
    } else {
        assert(rest[i - 1] == rows[i]);
        assert forall|j: int| 0 <= j < i - 1 implies rest[j].feed_id@ != row.feed_id@ by {
            assert(rest[j] == rows[j + 1]);
        }
        lemma_rows_update(rest, i - 1, row);
        assert(after.drop_first() =~= rest.update(i - 1, row));
        assert(after[0] == rows[0]);
        assert(rows_marks(after) =~= rows_marks(rows).insert(row.feed_id@, row.keys@));
    }
}

proof fn lemma_rows_push(rows: Seq<MarkRow>, row: MarkRow)
    requires
        forall|j: int| 0 <= j < rows.len() ==> rows[j].feed_id@ != row.feed_id@,
    ensures
        rows_marks(rows.push(row)) == rows_marks(rows).insert(row.feed_id@, row.keys@),
    decreases rows.len(),
{
    let after = rows.push(row);
    if rows.len() == 0 {
        assert(after.drop_first() =~= rows);
        assert(rows_marks(after) =~= rows_marks(rows).insert(row.feed_id@, row.keys@));
    } else {
        let rest = rows.drop_first();
        assert forall|j: int| 0 <= j < rest.len() implies rest[j].feed_id@ != row.feed_id@ by {
            assert(rest[j] == rows[j + 1]);
        }
        lemma_rows_push(rest, row);
        assert(after.drop_first() =~= rest.push(row));
        assert(after[0] == rows[0]);
        assert(rows_marks(after) =~= rows_marks(rows).insert(row.feed_id@, row.keys@));
    }
}

proof fn lemma_rows_remove(rows: Seq<MarkRow>, i: int)
    requires
        0 <= i < rows.len(),
        rows_distinct(rows),
    ensures
        rows_marks(rows.remove(i)) == rows_marks(rows).remove(rows[i].feed_id@),
        rows_distinct(rows.remove(i)),
    decreases rows.len(),
{
    let after = rows.remove(i);
    let rest = rows.drop_first();
    assert(rows_distinct(after)) by {
        assert forall|a: int, b: int| 0 <= a < b < after.len() implies after[a].feed_id@
            != after[b].feed_id@ by {
            let ra = if a < i {
                a
            } else {
                a + 1
            };
            let rb = if b < i {
                b
            } else {
                b + 1
            };
            assert(after[a] == rows[ra]);
            assert(after[b] == rows[rb]);
        }
    }
    if i == 0 {
        assert(after =~= rest);
        assert forall|j: int| 0 <= j < rest.len() implies rest[j].feed_id@ != rows[0].feed_id@ by {
            assert(rest[j] == rows[j + 1]);
        }
        lemma_rows_absent(rest, rows[0].feed_id@);
        assert(rows_marks(after) =~= rows_marks(rows).remove(rows[0].feed_id@));
    } else {
        assert(rows_distinct(rest)) by {
            assert forall|a: int, b: int| 0 <= a < b < rest.len() implies rest[a].feed_id@
                != rest[b].feed_id@ by {
                assert(rest[a] == rows[a + 1]);
                assert(rest[b] == rows[b + 1]);
            }
        }
        assert(rest[i - 1] == rows[i]);
        lemma_rows_remove(rest, i - 1);
        assert(after.drop_first() =~= rest.remove(i - 1));
        assert(after[0] == rows[0]);
        assert(rows[0].feed_id@ != rows[i].feed_id@);
        assert(rows_marks(after) =~= rows_marks(rows).remove(rows[i].feed_id@));
    }
}

proof fn lemma_rows_listed(rows: Seq<MarkRow>, listed: Seq<(String, Vec<String>)>)
    requires
        rows.len() == listed.len(),
        forall|j: int|
            0 <= j < rows.len() ==> rows[j].feed_id@ == listed[j].0@ && rows[j].keys@ == key_set(
                listed[j].1@,
            ),
    ensures
        rows_marks(rows) == listed_marks(listed),
    decreases rows.len(),
{
    if rows.len() > 0 {
        let rest = rows.drop_first();
        let listed_rest = listed.drop_first();
        assert forall|j: int| 0 <= j < rest.len() implies rest[j].feed_id@ == listed_rest[j].0@
            && rest[j].keys@ == key_set(listed_rest[j].1@) by {
            assert(rest[j] == rows[j + 1]);
            assert(listed_rest[j] == listed[j + 1]);
        }
        lemma_rows_listed(rest, listed_rest);
    }
}

proof fn lemma_listed_push(listed: Seq<(String, Vec<String>)>, pair: (String, Vec<String>))
    ensures
        listed_marks(listed.push(pair)) == if listed_marks(listed).dom().contains(pair.0@) {
            listed_marks(listed)
        } else {
            listed_marks(listed).insert(pair.0@, key_set(pair.1@))
        },
    decreases listed.len(),
{
    let after = listed.push(pair);
    if listed.len() == 0 {
        assert(after.drop_first() =~= listed);
        assert(listed_marks(after) =~= listed_marks(listed).insert(pair.0@, key_set(pair.1@)));
    } else {
        let rest = listed.drop_first();
        lemma_listed_push(rest, pair);
        assert(after.drop_first() =~= rest.push(pair));
        assert(after[0] == listed[0]);
        if listed_marks(listed).dom().contains(pair.0@) {
            assert(listed_marks(after) =~= listed_marks(listed));
        } else {
            assert(listed_marks(after) =~= listed_marks(listed).insert(
                pair.0@,
                key_set(pair.1@),
            ));
        }
    }
}

fn find_row(rows: &Vec<MarkRow>, feed_id: &str) -> (at: Option<usize>)
    ensures
        match at {
            Some(i) => i < rows.len() && rows[i as int].feed_id@ == feed_id@ && forall|j: int|
                0 <= j < i ==> rows[j].feed_id@ != feed_id@,
            None => forall|j: int| 0 <= j < rows.len() ==> rows[j].feed_id@ != feed_id@,
        },
{
    let mut i: usize = 0;
    while i < rows.len()
        invariant
            i <= rows.len(),
            forall|j: int| 0 <= j < i ==> rows[j].feed_id@ != feed_id@,
        decreases rows.len() - i,
    {
        if str_eq(rows[i].feed_id.as_str(), feed_id) {
            return Some(i);
        }
        i = i + 1;
    }
    None
}

/// A table from feed id to the set of identities marked for that feed.
/// Every feed has at most one row.
#[derive(Debug)]
pub struct MarkTable {
    rows: Vec<MarkRow>,
}

impl View for MarkTable {
    type V = Marks;

    closed spec fn view(&self) -> Marks {
        rows_marks(self.rows@)
    }
}

impl MarkTable {
    #[verifier::type_invariant]
    closed spec fn one_row_per_feed(&self) -> bool {
        rows_distinct(self.rows@)
    }

    /// The table without rows.
    pub fn new() -> (table: MarkTable)
        ensures
            table@ == Map::<Seq<char>, Set<Seq<char>>>::empty(),
    {
        MarkTable { rows: Vec::new() }
    }

    /// Whether `key` is marked for `feed_id`.
    pub fn contains(&self, feed_id: &str, key: &str) -> (found: bool)
        ensures
            found == is_marked(self@, feed_id@, key@),
    {
        match find_row(&self.rows, feed_id) {
            Some(i) => {
                proof {
                    lemma_rows_lookup(self.rows@, feed_id@, i as int);
                }
                self.rows[i].keys.contains(key)
            },
            None => {
                proof {
                    lemma_rows_absent(self.rows@, feed_id@);
                }
                false
            },
        }
    }

    /// Marks `key` for `feed_id`; returns whether it was not marked before.
    /// A feed without a row gets one.
    pub fn insert(&mut self, feed_id: &str, key: String) -> (added: bool)
        ensures
            added == !is_marked(old(self)@, feed_id@, key@),
            final(self)@ == with_mark(old(self)@, feed_id@, key@),
    {
        proof {
            use_type_invariant(&*self);
        }
        let ghost before = self.rows@;
        let mut rows: Vec<MarkRow> = Vec::new();
        std::mem::swap(&mut rows, &mut self.rows);
        let added = match find_row(&rows, feed_id) {
            Some(i) => {
                proof {
                    lemma_rows_lookup(before, feed_id@, i as int);
                }
                let mut row = rows.remove(i);
                let added = row.keys.insert(key);
                proof {
                    lemma_rows_update(before, i as int, row);
                    assert(before.remove(i as int).insert(i as int, row) =~= before.update(
                        i as int,
                        row,
                    ));
                }
                rows.insert(i, row);
                added
            },
            None => {
                proof {
                    lemma_rows_absent(before, feed_id@);
                }
                let mut keys = KeySet::new();
                keys.insert(key);
                let row = MarkRow { feed_id: feed_id.to_owned(), keys };
                proof {
                    lemma_rows_push(before, row);
                }
                rows.push(row);
                true
            },
        };
        self.rows = rows;
        added
    }

    /// Drops the row of `feed_id`, if there is one.
    pub fn remove_feed(&mut self, feed_id: &str)
        ensures
            final(self)@ == old(self)@.remove(feed_id@),
    {
        proof {
            use_type_invariant(&*self);
        }
        let ghost before = self.rows@;
        let mut rows: Vec<MarkRow> = Vec::new();
        std::mem::swap(&mut rows, &mut self.rows);
        match find_row(&rows, feed_id) {
            Some(i) => {
                proof {
                    lemma_rows_remove(before, i as int);
                }
                rows.remove(i);
            },
            None => {
                proof {
                    lemma_rows_absent(before, feed_id@);
                    assert(rows_marks(before).remove(feed_id@) =~= rows_marks(before));
                }
            },
        }
        self.rows = rows;
    }

    /// The rows as plain lists, for writing the table out: each feed once,
    /// with each of its keys once.
    pub fn to_rows(&self) -> (rows: Vec<(String, Vec<String>)>)
        ensures
            listed_marks(rows@) == self@,
            listed_once(rows@),
    {
        proof {
            use_type_invariant(self);
        }
        let mut out: Vec<(String, Vec<String>)> = Vec::new();
        let mut i: usize = 0;
        while i < self.rows.len()
            invariant
                i <= self.rows.len(),
                out.len() == i,
                forall|j: int|
                    0 <= j < i ==> self.rows[j].feed_id@ == out[j].0@ && self.rows[j].keys@
                        == key_set(out[j].1@) && distinct_texts(out[j].1@),
            decreases self.rows.len() - i,
        {
            let feed_id = self.rows[i].feed_id.clone();
            let keys = self.rows[i].keys.to_vec();
            out.push((feed_id, keys));
            i = i + 1;
        }
        proof {
            lemma_rows_listed(self.rows@, out@);
            assert forall|a: int, b: int| 0 <= a < b < out.len() implies out[a].0@ != out[b].0@ by {
                assert(self.rows[a].feed_id@ != self.rows[b].feed_id@);
            }
        }
        out
    }

    /// The table that plain rows stand for; of two rows of one feed the
    /// first is taken.
    pub fn from_rows(rows: Vec<(String, Vec<String>)>) -> (table: MarkTable)
        ensures
            table@ == listed_marks(rows@),
    {
        let ghost listed = rows@;
        let ghost total = rows.len() as int;
        let mut pending = reversed(rows);
        let mut out: Vec<MarkRow> = Vec::new();
        proof {
            assert(listed.take(0) =~= Seq::<(String, Vec<String>)>::empty());
        }
        while pending.len() > 0
            invariant
                pending.len() <= total,
                total == listed.len(),
                forall|j: int| 0 <= j < pending.len() ==> pending[j] == listed[total - 1 - j],
                rows_distinct(out@),
                rows_marks(out@) == listed_marks(listed.take(total - pending.len())),
            decreases pending.len(),
        {
            let ghost n = pending.len() as int;
            let ghost done = listed.take(total - n);
            let ghost held = out@;
            let pair = pending.pop().unwrap();
            proof {
                assert(pair == listed[total - n]);
                assert(listed.take(total - n + 1) =~= done.push(pair));
                lemma_listed_push(done, pair);
            }
            let (feed_id, keys) = pair;
            match find_row(&out, feed_id.as_str()) {
                Some(i) => {
                    proof {
                        lemma_rows_present(held, i as int);
                    }
                },
                None => {
                    let row = MarkRow { feed_id, keys: KeySet::from_vec(keys) };
                    proof {
                        lemma_rows_absent(held, row.feed_id@);
                        lemma_rows_push(held, row);
                    }
                    out.push(row);
                },
            }
        }
        proof {
            assert(listed.take(total) =~= listed);
        }
        MarkTable { rows: out }
    }
}

} // verus!
