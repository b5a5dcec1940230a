use vstd::prelude::*;

use crate::order::{lemma_text_order, text_less, text_lt};
use crate::storage::{page_limit, page_size, FeedContent};

verus! {

/// A row of the content store: the record and when it was last written (microseconds).
#[derive(Clone, Debug)]
pub struct StoredContent {
    pub content: FeedContent,
    pub updated_at: i64,
}

/// Rows are identified by feed and uri.
pub open spec fn same_key(a: FeedContent, b: FeedContent) -> bool {
    a.feed_id@ == b.feed_id@ && a.uri@ == b.uri@
}

/// No two rows share a feed and uri.
pub open spec fn unique_keys(rows: Seq<StoredContent>) -> bool {
    forall|i: int, j: int|
        0 <= i < rows.len() && 0 <= j < rows.len() && i != j ==> !same_key(
            #[trigger] rows[i].content,
            #[trigger] rows[j].content,
        )
}

/// The page key (sort key halves, then content id) `(h1, l1, c1)` is below `(h2, l2, c2)`.
pub open spec fn page_key_lt(h1: u32, l1: u32, c1: Seq<char>, h2: u32, l2: u32, c2: Seq<char>) -> bool {
    h1 < h2 || (h1 == h2 && (l1 < l2 || (l1 == l2 && text_lt(c1, c2))))
}

/// A row lies strictly before a cursor `(high, low, cid)`: keyset comparison.
pub open spec fn before_cursor(c: FeedContent, cursor: Option<(u32, u32, Seq<char>)>) -> bool {
    match cursor {
        None => true,
        Some(k) => page_key_lt(c.indexed_at, c.indexed_at_more, c.cid@, k.0, k.1, k.2),
    }
}

/// The order of rows within a feed: by page key, and by uri between equal keys.
pub open spec fn row_lt(a: FeedContent, b: FeedContent) -> bool {
    ||| page_key_lt(a.indexed_at, a.indexed_at_more, a.cid@, b.indexed_at, b.indexed_at_more, b.cid@)
    ||| (a.indexed_at == b.indexed_at && a.indexed_at_more == b.indexed_at_more && a.cid@ == b.cid@
        && text_lt(a.uri@, b.uri@))
}

/// The row order is a strict order, total on rows of one feed with distinct uris.
pub proof fn lemma_row_order(a: FeedContent, b: FeedContent, c: FeedContent)
    ensures
        !row_lt(a, a),
        row_lt(a, b) && row_lt(b, c) ==> row_lt(a, c),
        a.uri@ != b.uri@ ==> row_lt(a, b) || row_lt(b, a),
{
    lemma_text_order(a.cid@, b.cid@, c.cid@);
    lemma_text_order(a.uri@, b.uri@, c.uri@);
    lemma_text_order(a.cid@, a.cid@, a.cid@);
    lemma_text_order(a.uri@, a.uri@, a.uri@);
    lemma_text_order(b.cid@, a.cid@, a.cid@);
    lemma_text_order(b.uri@, a.uri@, a.uri@);
}

/// A row that a feed's page may list: of that feed, and before the cursor.
pub open spec fn page_candidate(c: FeedContent, feed: Seq<char>, cursor: Option<(u32, u32, Seq<char>)>) -> bool {
    c.feed_id@ == feed && before_cursor(c, cursor)
}

pub open spec fn listed(page: Seq<FeedContent>, c: FeedContent) -> bool {
    exists|j: int| 0 <= j < page.len() && page[j] == c
}

/// `page` is the page of at most `n` rows of `feed` before `cursor`: candidates only, newest
/// first (descending page key, uri between ties), and no candidate left out that sorts above
/// the page's last row, or at all when the page is short.
pub open spec fn is_page(
    rows: Seq<StoredContent>,
    feed: Seq<char>,
    n: int,
    cursor: Option<(u32, u32, Seq<char>)>,
    page: Seq<FeedContent>,
) -> bool {
    &&& page.len() <= n
    &&& forall|j: int|
        0 <= j < page.len() ==> exists|i: int|
            0 <= i < rows.len() && page_candidate(rows[i].content, feed, cursor) && #[trigger] page[j]
                == rows[i].content
    &&& forall|j: int, k: int| 0 <= j < k < page.len() ==> row_lt(#[trigger] page[k], #[trigger] page[j])
    &&& forall|i: int|
        0 <= i < rows.len() && page_candidate(#[trigger] rows[i].content, feed, cursor) && !listed(
            page,
            rows[i].content,
        ) ==> page.len() == n && row_lt(rows[i].content, page.last())
}

fn copy_content(c: &FeedContent) -> (r: FeedContent)
    ensures
        r == *c,
{
    FeedContent {
        feed_id: c.feed_id.clone(),
        uri: c.uri.clone(),
        indexed_at: c.indexed_at,
        indexed_at_more: c.indexed_at_more,
        cid: c.cid.clone(),
    }
}

fn row_less(a: &FeedContent, b: &FeedContent) -> (r: bool)
    ensures
        r == row_lt(*a, *b),
{
    if a.indexed_at != b.indexed_at {
        return a.indexed_at < b.indexed_at;
    }
    if a.indexed_at_more != b.indexed_at_more {
        return a.indexed_at_more < b.indexed_at_more;
    }
    if text_less(a.cid.as_str(), b.cid.as_str()) {
        return true;
    }
    if a.cid != b.cid {
        return false;
    }
    text_less(a.uri.as_str(), b.uri.as_str())
}

pub open spec fn cursor_key(cursor: Option<(u64, u32, u32, String)>) -> Option<(u32, u32, Seq<char>)> {
    match cursor {
        None => None,
        Some(k) => Some((k.1, k.2, k.3@)),
    }
}

fn is_before_cursor(c: &FeedContent, cursor: &Option<(u64, u32, u32, String)>) -> (r: bool)
    ensures
        r == before_cursor(*c, cursor_key(*cursor)),
{
    match cursor {
        None => true,
        Some(k) => {
            if c.indexed_at != k.1 {
                return c.indexed_at < k.1;
            }
            if c.indexed_at_more != k.2 {
                return c.indexed_at_more < k.2;
            }
            text_less(c.cid.as_str(), k.3.as_str())
        },
    }
}

/// `new` is `old` after upserting `content` at time `now`: keys stay unique, a row with the
/// same feed and uri is replaced in place, other rows stay as they were, and otherwise the row
/// is appended.
pub open spec fn upserted(old: Seq<StoredContent>, new: Seq<StoredContent>, content: FeedContent, now: i64) -> bool {
    let row = StoredContent { content, updated_at: now };
    &&& unique_keys(new)
    &&& (exists|i: int| 0 <= i < old.len() && same_key(#[trigger] old[i].content, content)) ==> new.len()
        == old.len()
    &&& !(exists|i: int| 0 <= i < old.len() && same_key(#[trigger] old[i].content, content)) ==> new
        == old.push(row)
    &&& forall|i: int|
        0 <= i < old.len() && !same_key(#[trigger] old[i].content, content) ==> new[i] == old[i]
    &&& exists|i: int| 0 <= i < new.len() && #[trigger] new[i] == row
}

/// Upserting the same feed and uri twice leaves exactly one row for them, and it holds the
/// second write.
pub proof fn lemma_upsert_twice(
    rows0: Seq<StoredContent>,
    rows1: Seq<StoredContent>,
    rows2: Seq<StoredContent>,
    first: FeedContent,
    first_at: i64,
    second: FeedContent,
    second_at: i64,
)
    requires
        unique_keys(rows0),
        upserted(rows0, rows1, first, first_at),
        upserted(rows1, rows2, second, second_at),
        same_key(first, second),
    ensures
        exists|i: int|
            0 <= i < rows2.len() && #[trigger] rows2[i] == (StoredContent {
                content: second,
                updated_at: second_at,
            }),
        forall|i: int, j: int|
            0 <= i < rows2.len() && 0 <= j < rows2.len() && same_key(#[trigger] rows2[i].content, second)
                && same_key(#[trigger] rows2[j].content, second) ==> i == j,
{
}

proof fn lemma_page_entry(
    rows: Seq<StoredContent>,
    feed: Seq<char>,
    n: int,
    cursor: Option<(u32, u32, Seq<char>)>,
    page: Seq<FeedContent>,
    j: int,
) -> (i: int)
    requires
        is_page(rows, feed, n, cursor, page),
        0 <= j < page.len(),
    ensures
        0 <= i < rows.len(),
        page_candidate(rows[i].content, feed, cursor),
        page[j] == rows[i].content,
{
    choose|i: int| 0 <= i < rows.len() && page_candidate(rows[i].content, feed, cursor) && page[j]
        == rows[i].content
}

/// Two pages of the same inputs agree on their first `j` rows.
proof fn lemma_pages_agree_upto(
    rows: Seq<StoredContent>,
    feed: Seq<char>,
    n: int,
    cursor: Option<(u32, u32, Seq<char>)>,
    p: Seq<FeedContent>,
    q: Seq<FeedContent>,
    j: int,
)
    requires
        unique_keys(rows),
        is_page(rows, feed, n, cursor, p),
        is_page(rows, feed, n, cursor, q),
        0 <= j <= p.len(),
        j <= q.len(),
    ensures
        forall|k: int| 0 <= k < j ==> p[k] == q[k],
    decreases j,
{
    if j > 0 {
        lemma_pages_agree_upto(rows, feed, n, cursor, p, q, j - 1);
        let k = j - 1;
        let a = lemma_page_entry(rows, feed, n, cursor, p, k);
        let b = lemma_page_entry(rows, feed, n, cursor, q, k);
        if p[k] != q[k] {
            assert(a != b);
            assert(!same_key(rows[a].content, rows[b].content));
            lemma_row_order(p[k], q[k], p[k]);
            lemma_pages_agree_step(rows, feed, n, cursor, p, q, k, a);
            lemma_pages_agree_step(rows, feed, n, cursor, q, p, k, b);
        }
    }
}

/// When two pages agree before `k` and `p[k]` (row `a`) is above `q[k]`, `q` would have left
/// out a candidate above its own entry: impossible, so `p[k]` is not above `q[k]`.
proof fn lemma_pages_agree_step(
    rows: Seq<StoredContent>,
    feed: Seq<char>,
    n: int,
    cursor: Option<(u32, u32, Seq<char>)>,
    p: Seq<FeedContent>,
    q: Seq<FeedContent>,
    k: int,
    a: int,
)
    requires
        is_page(rows, feed, n, cursor, p),
        is_page(rows, feed, n, cursor, q),
        0 <= k < p.len(),
        k < q.len(),
        forall|m: int| 0 <= m < k ==> p[m] == q[m],
        0 <= a < rows.len(),
        page_candidate(rows[a].content, feed, cursor),
        p[k] == rows[a].content,
    ensures
        !row_lt(q[k], p[k]),
{
    if row_lt(q[k], p[k]) {
        if listed(q, p[k]) {
            let m = choose|m: int| 0 <= m < q.len() && q[m] == p[k];
            if m < k {
                assert(p[m] == p[k]);
                assert(row_lt(p[k], p[m]));
                lemma_row_order(p[k], p[k], p[k]);
            } else if m == k {
                lemma_row_order(p[k], p[k], p[k]);
            } else {
                assert(row_lt(q[m], q[k]));
                lemma_row_order(q[m], q[k], p[k]);
                lemma_row_order(p[k], p[k], p[k]);
            }
        } else {
            assert(row_lt(p[k], q.last()));
            if k < q.len() - 1 {
                assert(row_lt(q[q.len() - 1], q[k]));
                lemma_row_order(p[k], q.last(), q[k]);
            }
            lemma_row_order(q[k], p[k], q[k]);
        }
    }
}

/// A page is fixed by its inputs: two pages of the same feed, size and cursor over the same
/// rows are equal. So the page is the feed's rows before the cursor, newest first, cut at `n`,
/// and it holds `n` rows or all of them.
pub proof fn lemma_page_unique(
    rows: Seq<StoredContent>,
    feed: Seq<char>,
    n: int,
    cursor: Option<(u32, u32, Seq<char>)>,
    p: Seq<FeedContent>,
    q: Seq<FeedContent>,
)
    requires
        unique_keys(rows),
        is_page(rows, feed, n, cursor, p),
        is_page(rows, feed, n, cursor, q),
    ensures
        p == q,
{
    if p.len() <= q.len() {
        lemma_pages_agree_upto(rows, feed, n, cursor, p, q, p.len() as int);
        lemma_page_longer(rows, feed, n, cursor, p, q);
    } else {
        lemma_pages_agree_upto(rows, feed, n, cursor, q, p, q.len() as int);
        lemma_page_longer(rows, feed, n, cursor, q, p);
    }
    assert(p =~= q);
}

/// A page that agrees with another on its whole length is as long: else it would be short and
/// leave out the other's next row.
proof fn lemma_page_longer(
    rows: Seq<StoredContent>,
    feed: Seq<char>,
    n: int,
    cursor: Option<(u32, u32, Seq<char>)>,
    p: Seq<FeedContent>,
    q: Seq<FeedContent>,
)
    requires
        is_page(rows, feed, n, cursor, p),
        is_page(rows, feed, n, cursor, q),
        p.len() <= q.len(),
        forall|m: int| 0 <= m < p.len() ==> p[m] == q[m],
    ensures
        p.len() == q.len(),
{
    if p.len() < q.len() {
        let k = p.len() as int;
        let b = lemma_page_entry(rows, feed, n, cursor, q, k);
        if listed(p, q[k]) {
            let m = choose|m: int| 0 <= m < p.len() && p[m] == q[k];
            assert(q[m] == q[k]);
            assert(row_lt(q[k], q[m]));
            lemma_row_order(q[k], q[k], q[k]);
        } else {
            assert(p.len() == n);
        }
    }
}

/// Paging on is sound: when a full page is followed by the page at its last row's cursor, the
/// second page repeats no row of the first, and every row before the first cursor is on one of
/// the two pages or sorts after both. This needs rows of the feed to have distinct page keys
/// (sort key and content id), as keyset paging does.
pub proof fn lemma_pages_chain(
    rows: Seq<StoredContent>,
    feed: Seq<char>,
    n: int,
    cursor: Option<(u32, u32, Seq<char>)>,
    first: Seq<FeedContent>,
    second: Seq<FeedContent>,
)
    requires
        unique_keys(rows),
        forall|i: int, j: int|
            0 <= i < rows.len() && 0 <= j < rows.len() && i != j && (#[trigger] rows[i]).content.feed_id@
                == feed && (#[trigger] rows[j]).content.feed_id@ == feed ==> !(
            rows[i].content.indexed_at == rows[j].content.indexed_at
                && rows[i].content.indexed_at_more == rows[j].content.indexed_at_more
                && rows[i].content.cid@ == rows[j].content.cid@),
        n > 0,
        is_page(rows, feed, n, cursor, first),
        first.len() == n,
        is_page(
            rows,
            feed,
            n,
            Some((first.last().indexed_at, first.last().indexed_at_more, first.last().cid@)),
            second,
        ),
    ensures
        forall|k: int| 0 <= k < second.len() ==> !listed(first, #[trigger] second[k]),
        forall|i: int|
            0 <= i < rows.len() && page_candidate(#[trigger] rows[i].content, feed, cursor) ==> listed(
                first,
                rows[i].content,
            ) || listed(second, rows[i].content) || (second.len() == n && row_lt(
                rows[i].content,
                second.last(),
            )),
{
    let last = first.last();
    let c2 = Some((last.indexed_at, last.indexed_at_more, last.cid@));
    assert forall|k: int| 0 <= k < second.len() implies !listed(first, #[trigger] second[k]) by {
        let x = second[k];
        let i = choose|i: int|
            0 <= i < rows.len() && page_candidate(rows[i].content, feed, c2) && second[k]
                == rows[i].content;
        if listed(first, x) {
            let j = choose|j: int| 0 <= j < first.len() && first[j] == x;
            lemma_text_order(x.cid@, last.cid@, x.cid@);
            lemma_text_order(last.cid@, x.cid@, last.cid@);
            if j < first.len() - 1 {
                assert(row_lt(first[first.len() - 1], first[j]));
                lemma_row_order(x, last, x);
            }
        }
    }
    assert forall|i: int|
        0 <= i < rows.len() && page_candidate(#[trigger] rows[i].content, feed, cursor) implies listed(
            first,
            rows[i].content,
        ) || listed(second, rows[i].content) || (second.len() == n && row_lt(
            rows[i].content,
            second.last(),
        )) by {
        let c = rows[i].content;
        if !listed(first, c) {
            assert(row_lt(c, last));
            let k = choose|k: int|
                0 <= k < rows.len() && page_candidate(rows[k].content, feed, cursor) && first[first.len()
                    - 1] == rows[k].content;
            assert(i != k);
            assert(page_candidate(c, feed, c2));
        }
    }
}

/// Pruning keeps a feed's rows updated no earlier than its 501st most recent row: at most this
/// many of them are newer than that row.
pub const RETAINED_ROWS: usize = 500;

/// The number of rows of `feed` updated at or after `t`.
pub open spec fn since_count(rows: Seq<StoredContent>, feed: Seq<char>, t: int) -> nat
    decreases rows.len(),
{
    if rows.len() == 0 {
        0
    } else {
        since_count(rows.drop_last(), feed, t) + if rows.last().content.feed_id@ == feed
            && rows.last().updated_at >= t {
            1nat
        } else {
            0nat
        }
    }
}

/// When no row of `feed` was updated in `[a, b)`, as many rows were updated since `a` as since `b`.
proof fn lemma_since_gap(rows: Seq<StoredContent>, feed: Seq<char>, a: int, b: int)
    requires
        a <= b,
        forall|i: int|
            0 <= i < rows.len() && (#[trigger] rows[i]).content.feed_id@ == feed ==> !(a
                <= rows[i].updated_at < b),
    ensures
        since_count(rows, feed, a) == since_count(rows, feed, b),
    decreases rows.len(),
{
    if rows.len() > 0 {
        let rest = rows.drop_last();
        assert forall|i: int|
            0 <= i < rest.len() && (#[trigger] rest[i]).content.feed_id@ == feed implies !(a
                <= rest[i].updated_at < b) by {
            assert(rest[i] == rows[i]);
        }
        lemma_since_gap(rest, feed, a, b);
        assert(rows.last() == rows[rows.len() - 1]);
    }
}

/// No row was updated at or after a time past every `i64`.
proof fn lemma_since_none(rows: Seq<StoredContent>, feed: Seq<char>)
    ensures
        since_count(rows, feed, i64::MAX as int + 1) == 0,
    decreases rows.len(),
{
    if rows.len() > 0 {
        lemma_since_none(rows.drop_last(), feed);
    }
}

proof fn lemma_since_bounded(rows: Seq<StoredContent>, feed: Seq<char>, t: int)
    ensures
        since_count(rows, feed, t) <= rows.len(),
    decreases rows.len(),
{
    if rows.len() > 0 {
        lemma_since_bounded(rows.drop_last(), feed, t);
    }
}

/// When no two rows of `feed` share an update time, at most one more row was updated since
/// `t` than since `t + 1`.
proof fn lemma_since_step(rows: Seq<StoredContent>, feed: Seq<char>, t: int)
    requires
        forall|i: int, j: int|
            0 <= i < rows.len() && 0 <= j < rows.len() && i != j && (#[trigger] rows[i]).content.feed_id@
                == feed && (#[trigger] rows[j]).content.feed_id@ == feed ==> rows[i].updated_at
                != rows[j].updated_at,
    ensures
        since_count(rows, feed, t) <= since_count(rows, feed, t + 1) + 1,
    decreases rows.len(),
{
    if rows.len() > 0 {
        let rest = rows.drop_last();
        let last = rows.last();
        assert(last == rows[rows.len() - 1]);
        if last.content.feed_id@ == feed && last.updated_at == t {
            assert forall|i: int|
                0 <= i < rest.len() && (#[trigger] rest[i]).content.feed_id@ == feed implies !(t
                    <= rest[i].updated_at < t + 1) by {
                assert(rest[i] == rows[i]);
            }
            lemma_since_gap(rest, feed, t, t + 1);
        } else {
            assert forall|i: int, j: int|
                0 <= i < rest.len() && 0 <= j < rest.len() && i != j && (#[trigger] rest[i]).content.feed_id@
                    == feed && (#[trigger] rest[j]).content.feed_id@ == feed implies rest[i].updated_at
                    != rest[j].updated_at by {
                assert(rest[i] == rows[i] && rest[j] == rows[j]);
            }
            lemma_since_step(rest, feed, t);
        }
    }
}

/// A row that pruning `feed` at `mark` keeps: a row of another feed, or one updated no
/// earlier than the mark.
pub open spec fn prune_keeps(r: StoredContent, feed: Seq<char>, mark: i64) -> bool {
    !(r.content.feed_id@ == feed && r.updated_at < mark)
}

pub open spec fn holds_row(rows: Seq<StoredContent>, r: StoredContent) -> bool {
    exists|i: int| 0 <= i < rows.len() && rows[i] == r
}

/// `mark` is the update time of the feed's 501st most recent row: at most 500 rows of the feed
/// are newer, and more than 500 are at least as new.
pub open spec fn is_prune_mark(rows: Seq<StoredContent>, feed: Seq<char>, mark: i64) -> bool {
    &&& since_count(rows, feed, mark + 1) <= RETAINED_ROWS
    &&& since_count(rows, feed, mark as int) > RETAINED_ROWS
}

/// `c` is the record of a row of `rows` that pruning `feed` at `mark` removes.
pub open spec fn removed_from(rows: Seq<StoredContent>, feed: Seq<char>, mark: i64, c: FeedContent) -> bool {
    exists|j: int| 0 <= j < rows.len() && !prune_keeps(#[trigger] rows[j], feed, mark) && rows[j].content == c
}

/// `new` and `removed` are what pruning `feed` at `mark` leaves of `old` and takes from it.
pub open spec fn prunes_at(
    old: Seq<StoredContent>,
    new: Seq<StoredContent>,
    feed: Seq<char>,
    removed: Seq<FeedContent>,
    mark: i64,
) -> bool {
    &&& is_prune_mark(old, feed, mark)
    &&& forall|i: int|
        0 <= i < new.len() ==> holds_row(old, #[trigger] new[i]) && prune_keeps(
            new[i],
            feed,
            mark,
        )
    &&& forall|j: int|
        0 <= j < old.len() && prune_keeps(#[trigger] old[j], feed, mark) ==> holds_row(
            new,
            old[j],
        )
    &&& forall|j: int|
        0 <= j < old.len() && !prune_keeps(#[trigger] old[j], feed, mark) ==> listed(
            removed,
            old[j].content,
        )
    &&& forall|k: int| 0 <= k < removed.len() ==> removed_from(old, feed, mark, #[trigger] removed[k])
    &&& since_count(new, feed, i64::MIN as int) == since_count(old, feed, mark as int)
}

/// `new` and `removed` are what pruning `feed` leaves of `old` and takes from it: nothing when
/// the feed holds at most 500 rows; else, at the feed's prune mark, exactly the rows of the
/// feed updated before it leave.
pub open spec fn pruned(
    old: Seq<StoredContent>,
    new: Seq<StoredContent>,
    feed: Seq<char>,
    removed: Seq<FeedContent>,
) -> bool {
    &&& unique_keys(new)
    &&& if since_count(old, feed, i64::MIN as int) <= RETAINED_ROWS {
        new == old && removed.len() == 0
    } else {
        exists|mark: i64| prunes_at(old, new, feed, removed, mark)
    }
}

/// After pruning a feed of more than 500 rows, every row of the feed that stays was updated no
/// earlier than any row that left, and every row that stays was updated no earlier than the
/// feed's 501st most recent row: about 500 remain, more only where update times tie.
pub proof fn lemma_prune_keeps_newest(
    old: Seq<StoredContent>,
    new: Seq<StoredContent>,
    feed: Seq<char>,
    removed: Seq<FeedContent>,
)
    requires
        pruned(old, new, feed, removed),
        since_count(old, feed, i64::MIN as int) > RETAINED_ROWS,
    ensures
        forall|i: int, j: int|
            0 <= i < new.len() && 0 <= j < old.len() && (#[trigger] new[i]).content.feed_id@ == feed
                && (#[trigger] old[j]).content.feed_id@ == feed && !holds_row(new, old[j])
                ==> old[j].updated_at < new[i].updated_at,
        exists|mark: i64|
            {
                &&& #[trigger] is_prune_mark(old, feed, mark)
                &&& forall|i: int|
                    0 <= i < new.len() && (#[trigger] new[i]).content.feed_id@ == feed
                        ==> new[i].updated_at >= mark
            },
{
    let mark = choose|mark: i64| prunes_at(old, new, feed, removed, mark);
    assert forall|i: int|
        0 <= i < new.len() && (#[trigger] new[i]).content.feed_id@ == feed implies new[i].updated_at
        >= mark by {
        assert(prune_keeps(new[i], feed, mark));
    }
}

/// When the rows of a feed of more than 500 rows have distinct update times, pruning leaves
/// exactly 501 of them: the 501st most recent and the 500 newer ones.
pub proof fn lemma_prune_distinct_count(
    old: Seq<StoredContent>,
    new: Seq<StoredContent>,
    feed: Seq<char>,
    removed: Seq<FeedContent>,
)
    requires
        pruned(old, new, feed, removed),
        since_count(old, feed, i64::MIN as int) > RETAINED_ROWS,
        forall|i: int, j: int|
            0 <= i < old.len() && 0 <= j < old.len() && i != j && (#[trigger] old[i]).content.feed_id@
                == feed && (#[trigger] old[j]).content.feed_id@ == feed ==> old[i].updated_at
                != old[j].updated_at,
    ensures
        since_count(new, feed, i64::MIN as int) == RETAINED_ROWS + 1,
{
    let mark = choose|mark: i64| prunes_at(old, new, feed, removed, mark);
    lemma_since_step(old, feed, mark as int);
}

fn copy_stored(r: &StoredContent) -> (c: StoredContent)
    ensures
        c == *r,
{
    StoredContent { content: copy_content(&r.content), updated_at: r.updated_at }
}

/// The feed content that the service serves, each row keyed by feed and uri.
pub struct ContentStore {
    rows: Vec<StoredContent>,
}

impl ContentStore {
    pub closed spec fn rows_view(&self) -> Seq<StoredContent> {
        self.rows@
    }

    pub open spec fn wf(&self) -> bool {
        unique_keys(self.rows_view())
    }

    pub fn new() -> (r: Self)
        ensures
            r.wf(),
            r.rows_view().len() == 0,
    {
        ContentStore { rows: Vec::new() }
    }

    /// The stored rows, in no particular order.
    pub fn rows(&self) -> (r: &Vec<StoredContent>)
        ensures
            r@ == self.rows_view(),
    {
        &self.rows
    }

    /// Where the row with the same feed and uri as `content` stands.
    fn position(&self, content: &FeedContent) -> (r: Option<usize>)
        ensures
            r matches Some(i) ==> i < self.rows_view().len() && same_key(
                self.rows_view()[i as int].content,
                *content,
            ),
            r is None ==> forall|i: int|
                0 <= i < self.rows_view().len() ==> !same_key(
                    #[trigger] self.rows_view()[i].content,
                    *content,
                ),
    {
        let mut i: usize = 0;
        while i < self.rows.len()
            invariant
                i <= self.rows@.len(),
                forall|j: int| 0 <= j < i ==> !same_key(#[trigger] self.rows@[j].content, *content),
            decreases self.rows.len() - i,
        {
            if self.rows[i].content.feed_id == content.feed_id && self.rows[i].content.uri
                == content.uri {
                return Some(i);
            }
            i = i + 1;
        }
        None
    }

    /// Inserts the row, or replaces the row with the same feed and uri; either way the row is
    /// stamped with `now`.
    pub fn upsert(&mut self, content: FeedContent, now: i64)
        requires
            old(self).wf(),
        ensures
            upserted(old(self).rows_view(), final(self).rows_view(), content, now),
    {
        let ghost before = self.rows@;
        let row = StoredContent { content, updated_at: now };
        match self.position(&row.content) {
            Some(i) => {
                self.rows.set(i, row);
                assert(self.rows@[i as int] == row);
                assert forall|a: int, b: int|
                    0 <= a < self.rows@.len() && 0 <= b < self.rows@.len() && a != b implies !same_key(
                    #[trigger] self.rows@[a].content,
                    #[trigger] self.rows@[b].content,
                ) by {
                    if a != i && b != i {
                        assert(self.rows@[a] == before[a]);
                        assert(self.rows@[b] == before[b]);
                    } else if a == i {
                        assert(self.rows@[b] == before[b]);
                        assert(!same_key(before[i as int].content, before[b].content));
                    } else {
                        assert(self.rows@[a] == before[a]);
                        assert(!same_key(before[a].content, before[i as int].content));
                    }
                }
            },
            None => {
                self.rows.push(row);
                assert(self.rows@[before.len() as int] == row);
            },
        }
    }

    /// The page of at most `limit` rows (20 when none is given, held within 1..=100) of
    /// `feed_uri` before `cursor`, newest first.
    pub fn paginate(&self, feed_uri: &str, limit: Option<u16>, cursor: Option<(u64, u32, u32, String)>) -> (r: Vec<FeedContent>)
        requires
            self.wf(),
        ensures
            is_page(self.rows_view(), feed_uri@, page_size(limit) as int, cursor_key(cursor), r@),
    {
        let n = page_limit(limit) as usize;
        let feed = feed_uri.to_owned();
        let ghost rows = self.rows@;
        let ghost ck = cursor_key(cursor);
        let ghost f = feed_uri@;
        let mut page: Vec<FeedContent> = Vec::new();
        let mut last: usize = 0;
        while page.len() < n
            invariant
                rows == self.rows@,
                unique_keys(rows),
                n == page_size(limit) as int,
                feed@ == f,
                ck == cursor_key(cursor),
                page@.len() <= n,
                forall|j: int|
                    0 <= j < page@.len() ==> exists|i: int|
                        0 <= i < rows.len() && page_candidate(rows[i].content, f, ck) && #[trigger] page@[j]
                            == rows[i].content,
                forall|j: int, k: int|
                    0 <= j < k < page@.len() ==> row_lt(#[trigger] page@[k], #[trigger] page@[j]),
                page@.len() > 0 ==> last < rows.len() && page@.last() == rows[last as int].content,
                page@.len() > 0 ==> forall|i: int|
                    0 <= i < rows.len() && page_candidate(#[trigger] rows[i].content, f, ck) && !listed(
                        page@,
                        rows[i].content,
                    ) ==> row_lt(rows[i].content, page@.last()),
            ensures
                is_page(rows, f, n as int, ck, page@),
            decreases n - page@.len(),
        {
            let mut best: Option<usize> = None;
            let mut j: usize = 0;
            while j < self.rows.len()
                invariant
                    rows == self.rows@,
                    j <= rows.len(),
                    feed@ == f,
                    ck == cursor_key(cursor),
                    page@.len() > 0 ==> last < rows.len(),
                    best matches Some(b) ==> {
                        &&& b < rows.len()
                        &&& page_candidate(rows[b as int].content, f, ck)
                        &&& (page@.len() > 0 ==> row_lt(rows[b as int].content, rows[last as int].content))
                    },
                    forall|m: int|
                        0 <= m < j && page_candidate(#[trigger] rows[m].content, f, ck) && (page@.len()
                            == 0 || row_lt(rows[m].content, rows[last as int].content)) ==> (best matches Some(b)
                            && !row_lt(rows[b as int].content, rows[m].content)),
                decreases rows.len() - j,
            {
                let c = &self.rows[j].content;
                if c.feed_id == feed && is_before_cursor(c, &cursor) && (page.len() == 0 || row_less(
                    c,
                    &self.rows[last].content,
                )) {
                    let better = match best {
                        None => true,
                        Some(b) => row_less(&self.rows[b].content, c),
                    };
                    if better {
                        proof {
                            if let Some(b) = best {
                                assert forall|m: int|
                                    0 <= m < j && page_candidate(#[trigger] rows[m].content, f, ck) && (
                                    page@.len() == 0 || row_lt(rows[m].content, rows[last as int].content))
                                    implies !row_lt(rows[j as int].content, rows[m].content) by {
                                    lemma_row_order(rows[j as int].content, rows[b as int].content, rows[m].content);
                                    lemma_row_order(rows[b as int].content, rows[j as int].content, rows[m].content);
                                    lemma_row_order(rows[m].content, rows[m].content, rows[m].content);
                                    if rows[m].content.uri@ != rows[b as int].content.uri@ {
                                        lemma_row_order(rows[m].content, rows[b as int].content, rows[j as int].content);
                                    }
                                }
                            }
                            lemma_row_order(rows[j as int].content, rows[j as int].content, rows[j as int].content);
                        }
                        best = Some(j);
                    }
                }
                j = j + 1;
            }
            match best {
                None => {
                    assert forall|i: int|
                        0 <= i < rows.len() && page_candidate(#[trigger] rows[i].content, f, ck) && !listed(
                            page@,
                            rows[i].content,
                        ) implies page@.len() == n && row_lt(rows[i].content, page@.last()) by {
                        if page@.len() == 0 {
                        } else {
                            assert(row_lt(rows[i].content, rows[last as int].content));
                        }
                    }
                    break;
                },
                Some(b) => {
                    let ghost prev = page@;
                    let row = copy_content(&self.rows[b].content);
                    page.push(row);
                    proof {
                        let m = rows[b as int].content;
                        assert(page@.last() == m);
                        assert forall|x: int| 0 <= x < page@.len() implies exists|i: int|
                            0 <= i < rows.len() && page_candidate(rows[i].content, f, ck) && #[trigger] page@[x]
                                == rows[i].content by {
                            if x < prev.len() {
                                assert(page@[x] == prev[x]);
                            } else {
                                assert(page@[x] == rows[b as int].content);
                            }
                        }
                        assert forall|x: int, y: int| 0 <= x < y < page@.len() implies row_lt(
                            #[trigger] page@[y],
                            #[trigger] page@[x],
                        ) by {
                            if y < prev.len() {
                                assert(page@[x] == prev[x] && page@[y] == prev[y]);
                            } else {
                                assert(page@[x] == prev[x]);
                                if x < prev.len() - 1 {
                                    assert(row_lt(prev.last(), prev[x]));
                                    lemma_row_order(m, prev.last(), prev[x]);
                                }
                            }
                        }
                        assert forall|i: int|
                            0 <= i < rows.len() && page_candidate(#[trigger] rows[i].content, f, ck) && !listed(
                                page@,
                                rows[i].content,
                            ) implies row_lt(rows[i].content, page@.last()) by {
                            let c = rows[i].content;
                            if listed(prev, c) {
                                let x = choose|x: int| 0 <= x < prev.len() && prev[x] == c;
                                assert(page@[x] == c);
                            }
                            assert(!row_lt(m, c));
                            if i == b as int {
                                assert(page@[prev.len() as int] == c);
                            } else {
                                assert(!same_key(rows[i].content, rows[b as int].content));
                                lemma_row_order(c, m, m);
                            }
                        }
                    }
                    last = b;
                },
            }
        }
        page
    }

    /// How many rows of `feed` were updated at or after `t`.
    fn count_since(&self, feed: &String, t: i64) -> (r: usize)
        ensures
            r == since_count(self.rows_view(), feed@, t as int),
    {
        let mut count: usize = 0;
        let mut i: usize = 0;
        while i < self.rows.len()
            invariant
                i <= self.rows@.len(),
                count == since_count(self.rows@.take(i as int), feed@, t as int),
                count <= i,
            decreases self.rows.len() - i,
        {
            assert(self.rows@.take(i + 1).drop_last() =~= self.rows@.take(i as int));
            if self.rows[i].content.feed_id == *feed && self.rows[i].updated_at >= t {
                count = count + 1;
            }
            i = i + 1;
        }
        assert(self.rows@.take(i as int) =~= self.rows@);
        count
    }

    /// The latest update time of a row of `feed` before `bound` (before any bound when none is
    /// given), if there is such a row.
    fn latest_before(&self, feed: &String, bound: Option<i64>) -> (r: Option<i64>)
        ensures
            r matches Some(v) ==> (exists|i: int|
                0 <= i < self.rows@.len() && (#[trigger] self.rows@[i]).content.feed_id@ == feed@
                    && self.rows@[i].updated_at == v) && (bound matches Some(b) ==> v < b),
            forall|i: int|
                0 <= i < self.rows@.len() && (#[trigger] self.rows@[i]).content.feed_id@
                    == feed@ && (bound matches Some(b) ==> self.rows@[i].updated_at < b) ==> (
                r matches Some(v) && self.rows@[i].updated_at <= v),
    {
        let mut best: Option<i64> = None;
        let mut i: usize = 0;
        while i < self.rows.len()
            invariant
                i <= self.rows@.len(),
                best matches Some(v) ==> (exists|j: int|
                    0 <= j < self.rows@.len() && (#[trigger] self.rows@[j]).content.feed_id@ == feed@
                        && self.rows@[j].updated_at == v) && (bound matches Some(b) ==> v < b),
                forall|j: int|
                    0 <= j < i && (#[trigger] self.rows@[j]).content.feed_id@ == feed@ && (bound matches Some(
                        b,
                    ) ==> self.rows@[j].updated_at < b) ==> (best matches Some(v)
                        && self.rows@[j].updated_at <= v),
            decreases self.rows.len() - i,
        {
            let u = self.rows[i].updated_at;
            let eligible = self.rows[i].content.feed_id == *feed && match bound {
                None => true,
                Some(b) => u < b,
            };
            if eligible {
                let better = match best {
                    None => true,
                    Some(v) => v < u,
                };
                if better {
                    best = Some(u);
                }
            }
            i = i + 1;
        }
        best
    }

    /// Keeps about the 500 most recently updated rows of `feed_id`: the update time of the
    /// feed's 501st most recent row is found, and every row of the feed updated before it is
    /// removed. Returns the removed rows.
    pub fn truncate(&mut self, feed_id: &str) -> (removed: Vec<FeedContent>)
        requires
            old(self).wf(),
        ensures
            pruned(old(self).rows_view(), final(self).rows_view(), feed_id@, removed@),
    {
        let feed = feed_id.to_owned();
        let ghost rows = self.rows@;
        let total = self.count_since(&feed, i64::MIN);
        if total <= RETAINED_ROWS {
            return Vec::new();
        }
        proof {
            lemma_since_none(rows, feed@);
        }
        let mut bound: Option<i64> = None;
        let mark: i64;
        loop
            invariant
                rows == self.rows@,
                unique_keys(rows),
                total == since_count(rows, feed@, i64::MIN as int),
                total > RETAINED_ROWS,
                feed@ == feed_id@,
                since_count(rows, feed@, match bound {
                    Some(b) => b as int,
                    None => i64::MAX as int + 1,
                }) <= RETAINED_ROWS,
            ensures
                is_prune_mark(rows, feed@, mark),
            decreases match bound {
                Some(b) => b as int,
                None => i64::MAX as int + 1,
            } - i64::MIN,
        {
            let ghost b = match bound {
                Some(b) => b as int,
                None => i64::MAX as int + 1,
            };
            match self.latest_before(&feed, bound) {
                None => {
                    proof {
                        lemma_since_gap(rows, feed@, i64::MIN as int, b);
                    }
                    assert(false);
                    mark = i64::MIN;
                    break;
                },
                Some(v) => {
                    proof {
                        lemma_since_gap(rows, feed@, v + 1, b);
                    }
                    let count = self.count_since(&feed, v);
                    if count > RETAINED_ROWS {
                        mark = v;
                        break;
                    }
                    bound = Some(v);
                },
            }
        }
        let mut kept: Vec<StoredContent> = Vec::new();
        let mut removed: Vec<FeedContent> = Vec::new();
        let ghost mut origin: Seq<int> = Seq::empty();
        let mut i: usize = 0;
        while i < self.rows.len()
            invariant
                rows == self.rows@,
                unique_keys(rows),
                feed@ == feed_id@,
                is_prune_mark(rows, feed_id@, mark),
                i <= rows.len(),
                since_count(kept@, feed_id@, i64::MIN as int) == since_count(
                    rows.take(i as int),
                    feed_id@,
                    mark as int,
                ),
                origin.len() == kept@.len(),
                forall|k: int| 0 <= k < origin.len() ==> 0 <= #[trigger] origin[k] < i,
                forall|k: int, l: int| 0 <= k < l < origin.len() ==> #[trigger] origin[k] < #[trigger] origin[l],
                forall|k: int|
                    0 <= k < kept@.len() ==> #[trigger] kept@[k] == rows[origin[k]] && prune_keeps(
                        rows[origin[k]],
                        feed_id@,
                        mark,
                    ),
                forall|j: int|
                    0 <= j < i && prune_keeps(#[trigger] rows[j], feed_id@, mark) ==> holds_row(
                        kept@,
                        rows[j],
                    ),
                forall|j: int|
                    0 <= j < i && !prune_keeps(#[trigger] rows[j], feed_id@, mark) ==> listed(
                        removed@,
                        rows[j].content,
                    ),
                forall|k: int|
                    0 <= k < removed@.len() ==> removed_from(rows, feed_id@, mark, #[trigger] removed@[k]),
            decreases rows.len() - i,
        {
            let row = &self.rows[i];
            assert(rows.take(i + 1).drop_last() =~= rows.take(i as int));
            assert(rows.take(i + 1).last() == rows[i as int]);
            if row.content.feed_id == feed && row.updated_at < mark {
                let ghost before = removed@;
                assert(since_count(rows.take(i + 1), feed_id@, mark as int) == since_count(
                    rows.take(i as int),
                    feed_id@,
                    mark as int,
                ));
                removed.push(copy_content(&row.content));
                assert(removed@[before.len() as int] == rows[i as int].content);
                assert forall|j: int|
                    0 <= j < i + 1 && !prune_keeps(#[trigger] rows[j], feed_id@, mark) implies listed(
                        removed@,
                        rows[j].content,
                    ) by {
                    if j < i {
                        let k = choose|k: int| 0 <= k < before.len() && before[k] == rows[j].content;
                        assert(removed@[k] == rows[j].content);
                    }
                }
                assert forall|k: int| 0 <= k < removed@.len() implies removed_from(
                    rows,
                    feed_id@,
                    mark,
                    #[trigger] removed@[k],
                ) by {
                    if k < before.len() {
                        assert(removed@[k] == before[k]);
                    } else {
                        assert(!prune_keeps(rows[i as int], feed_id@, mark));
                        assert(rows[i as int].content == removed@[k]);
                    }
                }
            } else {
                let ghost before = kept@;
                let ghost removed_now = removed@;
                kept.push(copy_stored(row));
                assert(removed@ == removed_now);
                assert(kept@.drop_last() =~= before);
                assert(kept@.last() == rows[i as int]);
                assert(rows[i as int].content.feed_id@ == feed_id@ ==> rows[i as int].updated_at
                    >= mark);
                assert(since_count(kept@, feed_id@, i64::MIN as int) == since_count(
                    before,
                    feed_id@,
                    i64::MIN as int,
                ) + if rows[i as int].content.feed_id@ == feed_id@ {
                    1nat
                } else {
                    0nat
                });
                proof {
                    origin = origin.push(i as int);
                }
                assert(kept@[before.len() as int] == rows[i as int]);
                assert forall|j: int|
                    0 <= j < i + 1 && prune_keeps(#[trigger] rows[j], feed_id@, mark) implies holds_row(
                        kept@,
                        rows[j],
                    ) by {
                    if j < i {
                        let k = choose|k: int| 0 <= k < before.len() && before[k] == rows[j];
                        assert(kept@[k] == rows[j]);
                    }
                }
                assert forall|k: int|
                    0 <= k < kept@.len() implies #[trigger] kept@[k] == rows[origin[k]] && prune_keeps(
                        rows[origin[k]],
                        feed_id@,
                        mark,
                    ) by {
                    if k < before.len() {
                        assert(kept@[k] == before[k]);
                    }
                }
            }
            i = i + 1;
        }
        assert(rows.take(i as int) =~= rows);
        proof {
            assert forall|a: int, b: int|
                0 <= a < kept@.len() && 0 <= b < kept@.len() && a != b implies !same_key(
                #[trigger] kept@[a].content,
                #[trigger] kept@[b].content,
            ) by {
                assert(origin[a] != origin[b]) by {
                    if a < b {
                        assert(origin[a] < origin[b]);
                    } else {
                        assert(origin[b] < origin[a]);
                    }
                }
            }
            assert forall|k: int| 0 <= k < kept@.len() implies holds_row(rows, #[trigger] kept@[k])
                && prune_keeps(kept@[k], feed_id@, mark) by {
                assert(rows[origin[k]] == kept@[k]);
            }
        }
        self.rows = kept;
        assert(prunes_at(rows, self.rows@, feed_id@, removed@, mark));
        removed
    }
}

} // verus!
