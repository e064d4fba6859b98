//! The table of posts as a mathematical value: a sequence of rows in the
//! order of insertion, the rules that every such table obeys, and the two
//! readings of it that the board shows: the replies of a thread and the feed.

use vstd::prelude::*;
use crate::post::PostView;
use crate::text::is_blank;

verus! {

/// Whether the table holds a root with this id.
pub open spec fn has_root(rows: Seq<PostView>, id: nat) -> bool {
    exists|i: int| 0 <= i < rows.len() && (#[trigger] rows[i]).id == id && rows[i].is_root()
}

/// Whether the table holds a row with this id.
pub open spec fn has_id(rows: Seq<PostView>, id: nat) -> bool {
    exists|i: int| 0 <= i < rows.len() && (#[trigger] rows[i]).id == id
}

/// The rows whose parent is `root`, in the order of insertion.
pub open spec fn replies_of(rows: Seq<PostView>, root: nat) -> Seq<PostView>
    decreases rows.len(),
{
    if rows.len() == 0 {
        Seq::empty()
    } else if rows.last().parent_id == Some(root) {
        replies_of(rows.drop_last(), root).push(rows.last())
    } else {
        replies_of(rows.drop_last(), root)
    }
}

/// The greatest reply sequence among `replies`, 0 where there is none.
pub open spec fn max_sequence(replies: Seq<PostView>) -> nat
    decreases replies.len(),
{
    if replies.len() == 0 {
        0
    } else {
        let rest = max_sequence(replies.drop_last());
        match replies.last().reply_sequence {
            Some(n) => if n > rest { n } else { rest },
            None => rest,
        }
    }
}

/// The rule for the row at index `i`: a positive id, a body that is not
/// blank, and either a root or a reply under a root inserted before it whose
/// sequence is one more than the number of replies that the root had then.
pub open spec fn row_ok(rows: Seq<PostView>, i: int) -> bool {
    let p = rows[i];
    &&& p.id >= 1
    &&& !is_blank(p.content)
    &&& p.is_root() || {
        &&& p.is_reply()
        &&& has_root(rows.take(i), p.parent_id->0)
        &&& p.reply_sequence == Some((replies_of(rows.take(i), p.parent_id->0).len() + 1) as nat)
    }
}

/// Ids grow strictly with the order of insertion, so no two rows share one.
pub open spec fn ids_grow(rows: Seq<PostView>) -> bool {
    forall|i: int, j: int| 0 <= i < j < rows.len() ==> rows[i].id < rows[j].id
}

/// The rules of the table: ids grow strictly with the order of insertion, and
/// every row obeys [`row_ok`].
pub open spec fn table_wf(rows: Seq<PostView>) -> bool {
    &&& ids_grow(rows)
    &&& forall|i: int| 0 <= i < rows.len() ==> #[trigger] row_ok(rows, i)
}

/// The id that the next inserted row gets: one more than the greatest so far.
pub open spec fn next_id(rows: Seq<PostView>) -> nat {
    if rows.len() == 0 {
        1
    } else {
        rows.last().id + 1
    }
}

/// Whether `p` may be appended to the table as it stands.
pub open spec fn admits(rows: Seq<PostView>, p: PostView) -> bool {
    &&& p.id == next_id(rows)
    &&& !is_blank(p.content)
    &&& p.is_root() || {
        &&& p.is_reply()
        &&& has_root(rows, p.parent_id->0)
        &&& p.reply_sequence == Some((replies_of(rows, p.parent_id->0).len() + 1) as nat)
    }
}

/// The order of the feed: the later timestamp first, and of two rows with
/// the same timestamp the one inserted earlier.
pub open spec fn comes_before(a: PostView, b: PostView) -> bool {
    a.timestamp > b.timestamp || (a.timestamp == b.timestamp && a.id < b.id)
}

/// Where `p` belongs in a feed: behind the last entry that comes before it.
pub open spec fn slot(feed: Seq<PostView>, p: PostView) -> int
    decreases feed.len(),
{
    if feed.len() == 0 {
        0
    } else if comes_before(feed.last(), p) {
        feed.len() as int
    } else {
        slot(feed.drop_last(), p)
    }
}

/// The feed: the roots of the table in the order of [`comes_before`].
pub open spec fn feed_of(rows: Seq<PostView>) -> Seq<PostView>
    decreases rows.len(),
{
    if rows.len() == 0 {
        Seq::empty()
    } else {
        let feed = feed_of(rows.drop_last());
        if rows.last().is_root() {
            feed.insert(slot(feed, rows.last()), rows.last())
        } else {
            feed
        }
    }
}

/// The part of a feed that starts `offset` entries in and holds at most
/// `limit` entries: fewer where the feed ends before that, none where it
/// ends before `offset`.
pub open spec fn window(feed: Seq<PostView>, offset: nat, limit: nat) -> Seq<PostView> {
    let from = if offset < feed.len() {
        offset as int
    } else {
        feed.len() as int
    };
    let to = if offset + limit < feed.len() {
        (offset + limit) as int
    } else {
        feed.len() as int
    };
    feed.subrange(from, to)
}

/// A feed in which every entry comes before all the entries behind it.
pub open spec fn feed_sorted(feed: Seq<PostView>) -> bool {
    forall|j: int, k: int| 0 <= j < k < feed.len() ==> comes_before(feed[j], feed[k])
}

/// The table after the root with this id, if there is one, got a new
/// timestamp. Replies are left as they are, and so is every other root.
pub open spec fn bumped(rows: Seq<PostView>, id: nat, time: nat) -> Seq<PostView> {
    Seq::new(
        rows.len(),
        |i: int|
            if rows[i].id == id && rows[i].is_root() {
                rows[i].at(time)
            } else {
                rows[i]
            },
    )
}

/// What appending a row does to a thread.
pub proof fn lemma_replies_of_push(rows: Seq<PostView>, p: PostView, root: nat)
    ensures
        replies_of(rows.push(p), root) == if p.parent_id == Some(root) {
            replies_of(rows, root).push(p)
        } else {
            replies_of(rows, root)
        },
{
    assert(rows.push(p).drop_last() =~= rows);
}

/// What one more row of the table adds to a thread.
pub proof fn lemma_replies_of_step(rows: Seq<PostView>, i: int, root: nat)
    requires
        0 <= i < rows.len(),
    ensures
        replies_of(rows.take(i + 1), root) == if rows[i].parent_id == Some(root) {
            replies_of(rows.take(i), root).push(rows[i])
        } else {
            replies_of(rows.take(i), root)
        },
{
    assert(rows.take(i + 1) =~= rows.take(i).push(rows[i]));
    lemma_replies_of_push(rows.take(i), rows[i], root);
}

/// A thread holds rows of the table, each with that parent, and no more of
/// them than the table has rows.
pub proof fn lemma_replies_of_members(rows: Seq<PostView>, root: nat)
    ensures
        replies_of(rows, root).len() <= rows.len(),
        forall|k: int|
            0 <= k < replies_of(rows, root).len() ==> {
                &&& (#[trigger] replies_of(rows, root)[k]).parent_id == Some(root)
                &&& rows.contains(replies_of(rows, root)[k])
            },
    decreases rows.len(),
{
    if rows.len() > 0 {
        let rest = rows.drop_last();
        lemma_replies_of_members(rest, root);
        assert forall|k: int| 0 <= k < replies_of(rows, root).len() implies {
            &&& (#[trigger] replies_of(rows, root)[k]).parent_id == Some(root)
            &&& rows.contains(replies_of(rows, root)[k])
        } by {
            if k < replies_of(rest, root).len() {
                let q = replies_of(rest, root)[k];
                assert(rest.contains(q));
                let j = choose|j: int| 0 <= j < rest.len() && rest[j] == q;
                assert(rows[j] == q);
            } else {
                assert(rows[rows.len() - 1] == rows.last());
            }
        }
    }
}

/// In a sorted feed, [`slot`] parts the entries that come before `p` from
/// those that do not.
pub proof fn lemma_slot(feed: Seq<PostView>, p: PostView)
    requires
        feed_sorted(feed),
    ensures
        0 <= slot(feed, p) <= feed.len(),
        forall|j: int| 0 <= j < slot(feed, p) ==> comes_before(#[trigger] feed[j], p),
        forall|j: int| slot(feed, p) <= j < feed.len() ==> !comes_before(#[trigger] feed[j], p),
    decreases feed.len(),
{
    if feed.len() == 0 {
    } else if comes_before(feed.last(), p) {
        assert forall|j: int| 0 <= j < feed.len() implies comes_before(#[trigger] feed[j], p) by {
            if j < feed.len() - 1 {
                assert(comes_before(feed[j], feed[feed.len() - 1]));
            }
        }
    } else {
        let rest = feed.drop_last();
        assert(feed_sorted(rest)) by {
            assert forall|j: int, k: int| 0 <= j < k < rest.len() implies comes_before(
                rest[j],
                rest[k],
            ) by {
                assert(comes_before(feed[j], feed[k]));
            }
        }
        lemma_slot(rest, p);
        assert forall|j: int| 0 <= j < slot(feed, p) implies comes_before(#[trigger] feed[j], p) by {
            assert(rest[j] == feed[j]);
        }
        assert forall|j: int| slot(feed, p) <= j < feed.len() implies !comes_before(
            #[trigger] feed[j],
            p,
        ) by {
            if j < feed.len() - 1 {
                assert(rest[j] == feed[j]);
            }
        }
    }
}

/// Putting a row with a new id into its slot keeps a feed sorted.
pub proof fn lemma_insert_sorted(feed: Seq<PostView>, p: PostView)
    requires
        feed_sorted(feed),
        forall|k: int| 0 <= k < feed.len() ==> (#[trigger] feed[k]).id != p.id,
    ensures
        feed_sorted(feed.insert(slot(feed, p), p)),
{
    let s = slot(feed, p);
    let out = feed.insert(s, p);
    lemma_slot(feed, p);
    feed.insert_ensures(s, p);
    assert forall|j: int, k: int| 0 <= j < k < out.len() implies comes_before(out[j], out[k]) by {
        if k < s {
            assert(out[j] == feed[j] && out[k] == feed[k]);
        } else if k == s {
            assert(out[j] == feed[j]);
        } else if j < s {
            assert(out[j] == feed[j] && out[k] == feed[k - 1]);
        } else if j == s {
            assert(out[k] == feed[k - 1]);
            assert(!comes_before(feed[k - 1], p));
            assert(feed[k - 1].id != p.id);
        } else {
            assert(out[j] == feed[j - 1] && out[k] == feed[k - 1]);
        }
    }
}

/// Every entry of the feed is a root of the table.
pub proof fn lemma_feed_entries(rows: Seq<PostView>)
    ensures
        forall|k: int|
            0 <= k < feed_of(rows).len() ==> {
                &&& (#[trigger] feed_of(rows)[k]).is_root()
                &&& rows.contains(feed_of(rows)[k])
            },
    decreases rows.len(),
{
    if rows.len() > 0 {
        let rest = rows.drop_last();
        let p = rows.last();
        let old_feed = feed_of(rest);
        let feed = feed_of(rows);
        lemma_feed_entries(rest);
        assert forall|k: int| 0 <= k < old_feed.len() implies rows.contains(
            #[trigger] old_feed[k],
        ) by {
            let q = old_feed[k];
            assert(rest.contains(q));
            let j = choose|j: int| 0 <= j < rest.len() && rest[j] == q;
            assert(rows[j] == q);
        }
        if p.is_root() {
            let s = slot(old_feed, p);
            lemma_slot_range(old_feed, p);
            old_feed.insert_ensures(s, p);
            assert(rows[rows.len() - 1] == p);
            assert forall|k: int| 0 <= k < feed.len() implies (#[trigger] feed[k]).is_root()
                && rows.contains(feed[k]) by {
                if k < s {
                    assert(feed[k] == old_feed[k]);
                } else if k > s {
                    assert(feed[k] == old_feed[k - 1]);
                }
            }
        }
    }
}

/// A slot is a place in the feed or the place behind its end.
pub proof fn lemma_slot_range(feed: Seq<PostView>, p: PostView)
    ensures
        0 <= slot(feed, p) <= feed.len(),
    decreases feed.len(),
{
    if feed.len() > 0 && !comes_before(feed.last(), p) {
        lemma_slot_range(feed.drop_last(), p);
    }
}

/// Every root of the table is an entry of the feed.
pub proof fn lemma_feed_complete(rows: Seq<PostView>)
    ensures
        forall|i: int|
            0 <= i < rows.len() && (#[trigger] rows[i]).is_root() ==> feed_of(rows).contains(
                rows[i],
            ),
    decreases rows.len(),
{
    if rows.len() > 0 {
        let rest = rows.drop_last();
        let p = rows.last();
        let old_feed = feed_of(rest);
        let feed = feed_of(rows);
        lemma_feed_complete(rest);
        if p.is_root() {
            let s = slot(old_feed, p);
            lemma_slot_range(old_feed, p);
            old_feed.insert_ensures(s, p);
            assert forall|i: int| 0 <= i < rows.len() && (#[trigger] rows[i]).is_root() implies feed.contains(
                rows[i],
            ) by {
                if i < rest.len() {
                    assert(rest[i] == rows[i]);
                    assert(old_feed.contains(rest[i]));
                    let k = choose|k: int| 0 <= k < old_feed.len() && old_feed[k] == rest[i];
                    if k < s {
                        assert(feed[k] == rows[i]);
                    } else {
                        assert(feed[k + 1] == old_feed[k]);
                    }
                } else {
                    assert(feed[s] == p);
                }
            }
        } else {
            assert forall|i: int| 0 <= i < rows.len() && (#[trigger] rows[i]).is_root() implies feed.contains(
                rows[i],
            ) by {
                assert(rest[i] == rows[i]);
            }
        }
    }
}

/// The feed of a table with distinct ids is sorted.
pub proof fn lemma_feed_sorted(rows: Seq<PostView>)
    requires
        ids_grow(rows),
    ensures
        feed_sorted(feed_of(rows)),
    decreases rows.len(),
{
    if rows.len() > 0 {
        let rest = rows.drop_last();
        let p = rows.last();
        let old_feed = feed_of(rest);
        lemma_feed_sorted(rest);
        if p.is_root() {
            lemma_feed_entries(rest);
            assert forall|k: int| 0 <= k < old_feed.len() implies (#[trigger] old_feed[k]).id
                != p.id by {
                let q = old_feed[k];
                assert(rest.contains(q));
                let j = choose|j: int| 0 <= j < rest.len() && rest[j] == q;
                assert(rows[j] == q);
                assert(rows[j].id < rows[rows.len() - 1].id);
            }
            lemma_insert_sorted(old_feed, p);
        }
    }
}

/// What appending a row does to the greatest sequence of a thread.
pub proof fn lemma_max_sequence_push(replies: Seq<PostView>, p: PostView)
    ensures
        max_sequence(replies.push(p)) == match p.reply_sequence {
            Some(n) => if n > max_sequence(replies) {
                n
            } else {
                max_sequence(replies)
            },
            None => max_sequence(replies),
        },
{
    assert(replies.push(p).drop_last() =~= replies);
}

/// The rows before any row of a table obey the rules too.
pub proof fn lemma_wf_prefix(rows: Seq<PostView>, n: int)
    requires
        table_wf(rows),
        0 <= n <= rows.len(),
    ensures
        table_wf(rows.take(n)),
{
    let front = rows.take(n);
    assert forall|i: int| 0 <= i < front.len() implies #[trigger] row_ok(front, i) by {
        assert(row_ok(rows, i));
        assert(front.take(i) =~= rows.take(i));
    }
}

/// Appending a row that the table admits keeps the rules.
pub proof fn lemma_push_wf(rows: Seq<PostView>, p: PostView)
    requires
        table_wf(rows),
        admits(rows, p),
    ensures
        table_wf(rows.push(p)),
{
    let out = rows.push(p);
    assert forall|i: int, j: int| 0 <= i < j < out.len() implies out[i].id < out[j].id by {
        if j == rows.len() && i < rows.len() - 1 {
            assert(rows[i].id < rows[rows.len() - 1].id);
        }
    }
    assert forall|i: int| 0 <= i < out.len() implies #[trigger] row_ok(out, i) by {
        if i < rows.len() {
            assert(row_ok(rows, i));
            assert(out.take(i) =~= rows.take(i));
        } else {
            assert(out.take(i) =~= rows);
        }
    }
}

/// Within a thread the replies are numbered 1, 2, 3 and so on in the order
/// of insertion, with no gap and no number used twice.
pub proof fn lemma_thread_dense(rows: Seq<PostView>, root: nat)
    requires
        table_wf(rows),
    ensures
        forall|k: int|
            0 <= k < replies_of(rows, root).len() ==> (#[trigger] replies_of(
                rows,
                root,
            )[k]).reply_sequence == Some((k + 1) as nat),
        max_sequence(replies_of(rows, root)) == replies_of(rows, root).len(),
    decreases rows.len(),
{
    if rows.len() > 0 {
        let rest = rows.drop_last();
        let p = rows.last();
        lemma_wf_prefix(rows, rows.len() - 1);
        lemma_thread_dense(rest, root);
        assert(row_ok(rows, rows.len() - 1));
        if p.parent_id == Some(root) {
            lemma_max_sequence_push(replies_of(rest, root), p);
        }
    }
}

/// A table that is not empty starts with a root, so no thread holds as many
/// replies as the table has rows.
pub proof fn lemma_replies_fewer(rows: Seq<PostView>, root: nat)
    requires
        table_wf(rows),
        rows.len() > 0,
    ensures
        replies_of(rows, root).len() < rows.len(),
    decreases rows.len(),
{
    let rest = rows.drop_last();
    if rest.len() > 0 {
        lemma_wf_prefix(rows, rows.len() - 1);
        assert(rest =~= rows.take(rows.len() - 1));
        lemma_replies_fewer(rest, root);
    } else {
        assert(row_ok(rows, 0));
        assert(!has_root(rows.take(0), rows[0].parent_id->0));
        assert(rows.last().is_root());
        assert(replies_of(rest, root).len() == 0);
    }
}

/// A new timestamp on a root changes no thread.
pub proof fn lemma_bumped_replies(rows: Seq<PostView>, id: nat, time: nat, root: nat)
    ensures
        replies_of(bumped(rows, id, time), root) == replies_of(rows, root),
    decreases rows.len(),
{
    if rows.len() > 0 {
        lemma_bumped_replies(rows.drop_last(), id, time, root);
        assert(bumped(rows, id, time).drop_last() =~= bumped(rows.drop_last(), id, time));
    }
}

/// A new timestamp on a root keeps the rules of the table.
pub proof fn lemma_bumped_wf(rows: Seq<PostView>, id: nat, time: nat)
    requires
        table_wf(rows),
    ensures
        table_wf(bumped(rows, id, time)),
{
    let out = bumped(rows, id, time);
    assert forall|i: int| 0 <= i < out.len() implies #[trigger] row_ok(out, i) by {
        assert(row_ok(rows, i));
        assert(out.take(i) =~= bumped(rows.take(i), id, time));
        if !rows[i].is_root() {
            let parent = rows[i].parent_id->0;
            lemma_bumped_replies(rows.take(i), id, time, parent);
            let front = rows.take(i);
            let j = choose|j: int|
                0 <= j < front.len() && (#[trigger] front[j]).id == parent && front[j].is_root();
            assert(out.take(i)[j].id == parent && out.take(i)[j].is_root());
        }
    }
}

/// The rules hold of one more row where they hold of the rows before it,
/// its id is greater than the id before it, and it obeys [`row_ok`].
pub proof fn lemma_wf_step(rows: Seq<PostView>, i: int)
    requires
        0 <= i < rows.len(),
        table_wf(rows.take(i)),
        i > 0 ==> rows[i - 1].id < rows[i].id,
        row_ok(rows, i),
    ensures
        table_wf(rows.take(i + 1)),
{
    let front = rows.take(i);
    let out = rows.take(i + 1);
    assert forall|a: int, b: int| 0 <= a < b < out.len() implies out[a].id < out[b].id by {
        if b < i {
            assert(front[a].id < front[b].id);
        } else if a < i - 1 {
            assert(front[a].id < front[i - 1].id);
        }
    }
    assert forall|k: int| 0 <= k < out.len() implies #[trigger] row_ok(out, k) by {
        if k < i {
            assert(row_ok(front, k));
            assert(out.take(k) =~= front.take(k));
        } else {
            assert(out.take(k) =~= rows.take(i));
        }
    }
}

/// The feed has no more entries than the table has rows.
pub proof fn lemma_feed_length(rows: Seq<PostView>)
    ensures
        feed_of(rows).len() <= rows.len(),
    decreases rows.len(),
{
    if rows.len() > 0 {
        lemma_feed_length(rows.drop_last());
        lemma_slot_range(feed_of(rows.drop_last()), rows.last());
    }
}

/// A table with growing ids holds one row for an id: where a row of it is
/// no root, the table has no root with the id of that row.
pub proof fn lemma_one_row_per_id(rows: Seq<PostView>, p: PostView)
    requires
        ids_grow(rows),
        rows.contains(p),
    ensures
        forall|i: int| 0 <= i < rows.len() && (#[trigger] rows[i]).id == p.id ==> rows[i] == p,
        !p.is_root() ==> !has_root(rows, p.id),
{
    let at = choose|at: int| 0 <= at < rows.len() && rows[at] == p;
    assert forall|i: int| 0 <= i < rows.len() && (#[trigger] rows[i]).id == p.id implies rows[i]
        == p by {
        if i < at {
            assert(rows[i].id < rows[at].id);
        } else if at < i {
            assert(rows[at].id < rows[i].id);
        }
    }
}

} // verus!
