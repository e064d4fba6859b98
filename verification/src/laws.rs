//! What holds of every board, proved from the rules of the table.

use vstd::prelude::*;
use crate::board::{page_offset, replied, reply_of};
use crate::post::PostView;
use crate::table::{
    comes_before, feed_of, feed_sorted, has_root, ids_grow, lemma_bumped_replies,
    lemma_bumped_wf, lemma_feed_complete, lemma_feed_entries, lemma_feed_sorted, lemma_push_wf,
    lemma_replies_of_push, lemma_thread_dense, replies_of, table_wf, window,
};
use crate::text::is_blank;

verus! {

/// A run of replies to store one after the other: the body and the time of
/// each.
pub type ReplyRun = Seq<(Seq<char>, nat)>;

/// The table after the replies of `run` were stored under `parent`, one
/// after the other.
pub open spec fn replied_all(rows: Seq<PostView>, parent: nat, run: ReplyRun) -> Seq<PostView>
    decreases run.len(),
{
    if run.len() == 0 {
        rows
    } else {
        replied(replied_all(rows, parent, run.drop_last()), parent, run.last().0, run.last().1)
    }
}

/// A reply keeps the rules of the table. It is the newest entry of its own
/// thread and leaves every other thread as it was.
pub proof fn lemma_replied(rows: Seq<PostView>, parent: nat, content: Seq<char>, now: nat)
    requires
        table_wf(rows),
        has_root(rows, parent),
        !is_blank(content),
    ensures
        table_wf(replied(rows, parent, content, now)),
        has_root(replied(rows, parent, content, now), parent),
        replies_of(replied(rows, parent, content, now), parent) == replies_of(rows, parent).push(
            reply_of(rows, parent, content, now),
        ),
        forall|other: nat|
            other != parent ==> #[trigger] replies_of(replied(rows, parent, content, now), other)
                == replies_of(rows, other),
{
    let reply = reply_of(rows, parent, content, now);
    let grown = rows.push(reply);
    let out = replied(rows, parent, content, now);
    lemma_push_wf(rows, reply);
    lemma_bumped_wf(grown, parent, now);
    lemma_bumped_replies(grown, parent, now, parent);
    lemma_replies_of_push(rows, reply, parent);
    let i = choose|i: int|
        0 <= i < rows.len() && (#[trigger] rows[i]).id == parent && rows[i].is_root();
    assert(out[i].id == parent && out[i].is_root());
    assert forall|other: nat| other != parent implies #[trigger] replies_of(out, other)
        == replies_of(rows, other) by {
        lemma_bumped_replies(grown, parent, now, other);
        lemma_replies_of_push(rows, reply, other);
    }
}

/// Replies stored one after the other under one root are numbered without a
/// gap and without a number used twice: after the run the thread holds the
/// replies that it held before and then those of the run, in the order in
/// which they were stored, and the reply at place `k`, counted from 0, has
/// the sequence `k + 1`.
pub proof fn lemma_serial_replies(rows: Seq<PostView>, parent: nat, run: ReplyRun)
    requires
        table_wf(rows),
        has_root(rows, parent),
        forall|n: int| 0 <= n < run.len() ==> !is_blank((#[trigger] run[n]).0),
    ensures
        table_wf(replied_all(rows, parent, run)),
        has_root(replied_all(rows, parent, run), parent),
        ({
            let held = replies_of(rows, parent);
            let thread = replies_of(replied_all(rows, parent, run), parent);
            &&& thread.len() == held.len() + run.len()
            &&& forall|k: int|
                0 <= k < thread.len() ==> (#[trigger] thread[k]).reply_sequence == Some(
                    (k + 1) as nat,
                )
            &&& forall|k: int| 0 <= k < held.len() ==> #[trigger] thread[k] == held[k]
            &&& forall|n: int|
                0 <= n < run.len() ==> (#[trigger] thread[held.len() + n]).content == run[n].0
                    && thread[held.len() + n].timestamp == run[n].1
        }),
    decreases run.len(),
{
    if run.len() > 0 {
        let front = run.drop_last();
        let before = replied_all(rows, parent, front);
        lemma_serial_replies(rows, parent, front);
        lemma_replied(before, parent, run.last().0, run.last().1);
        let out = replied_all(rows, parent, run);
        let held = replies_of(rows, parent).len();
        assert(replies_of(out, parent) == replies_of(before, parent).push(
            reply_of(before, parent, run.last().0, run.last().1),
        ));
        let thread = replies_of(out, parent);
        assert forall|n: int| 0 <= n < run.len() implies (#[trigger] thread[held + n]).content
            == run[n].0 && thread[held + n].timestamp == run[n].1 by {
            if n < front.len() {
                assert(front[n] == run[n]);
                assert(thread[held + n] == replies_of(before, parent)[held + n]);
            }
        }
    }
    lemma_thread_dense(replied_all(rows, parent, run), parent);
}

/// Read latest first, a thread counts down: with `n` replies the entry at
/// place `k`, counted from 0, has the sequence `n - k`, so each entry has a
/// greater sequence than all the entries behind it.
pub proof fn lemma_latest_first(rows: Seq<PostView>, root: nat)
    requires
        table_wf(rows),
    ensures
        ({
            let thread = replies_of(rows, root);
            let shown = thread.reverse();
            &&& shown.len() == thread.len()
            &&& forall|k: int|
                0 <= k < shown.len() ==> (#[trigger] shown[k]).reply_sequence == Some(
                    (thread.len() - k) as nat,
                )
            &&& forall|j: int, k: int|
                0 <= j < k < shown.len() ==> (#[trigger] shown[j]).reply_sequence->0 > (
                #[trigger] shown[k]).reply_sequence->0
        }),
{
    lemma_thread_dense(rows, root);
    let thread = replies_of(rows, root);
    let shown = thread.reverse();
    assert forall|k: int| 0 <= k < thread.len() implies (#[trigger] shown[k]).reply_sequence
        == Some((thread.len() - k) as nat) by {
        assert(shown[k] == thread[thread.len() - 1 - k]);
    }
}

/// Where an entry of a sorted feed comes before another in the order of the
/// feed, it stands before it.
pub proof fn lemma_feed_places(rows: Seq<PostView>, j: int, k: int)
    requires
        table_wf(rows),
        0 <= j < feed_of(rows).len(),
        0 <= k < feed_of(rows).len(),
        comes_before(feed_of(rows)[j], feed_of(rows)[k]),
    ensures
        j < k,
{
    lemma_feed_sorted(rows);
    let feed = feed_of(rows);
    if k < j {
        assert(comes_before(feed[k], feed[j]));
    }
}

/// Whether the root `id` stands in the feed with `time` as its last activity,
/// and stands there before every entry whose last activity is earlier than
/// `time`, and before every entry whose last activity is at `time` too and
/// that was inserted after the root.
pub open spec fn heads(feed: Seq<PostView>, id: nat, time: nat) -> bool {
    exists|j: int|
        {
            &&& 0 <= j < feed.len()
            &&& (#[trigger] feed[j]).id == id
            &&& feed[j].timestamp == time
            &&& forall|k: int|
                0 <= k < feed.len() && ((#[trigger] feed[k]).timestamp < time || (feed[k].timestamp
                    == time && feed[k].id > id)) ==> j < k
        }
}

/// A reply brings its root to the front of the feed. After a reply at the
/// time `now` the root carries that time, which is the time of the reply,
/// and it stands in the feed before every root whose last activity is
/// earlier. Among the roots whose last activity is at `now` too, it stands
/// before those that were inserted after it.
pub proof fn lemma_reply_bumps_root(rows: Seq<PostView>, parent: nat, content: Seq<char>, now: nat)
    requires
        table_wf(rows),
        has_root(rows, parent),
        !is_blank(content),
    ensures
        reply_of(rows, parent, content, now).timestamp == now,
        heads(feed_of(replied(rows, parent, content, now)), parent, now),
{
    let reply = reply_of(rows, parent, content, now);
    let grown = rows.push(reply);
    let out = replied(rows, parent, content, now);
    let feed = feed_of(out);
    lemma_replied(rows, parent, content, now);
    lemma_feed_complete(out);
    let at = choose|i: int|
        0 <= i < rows.len() && (#[trigger] rows[i]).id == parent && rows[i].is_root();
    assert(grown[at] == rows[at]);
    assert(out[at].id == parent && out[at].is_root() && out[at].timestamp == now);
    assert(feed.contains(out[at]));
    let place = choose|j: int| 0 <= j < feed.len() && feed[j] == out[at];
    assert forall|k: int|
        0 <= k < feed.len() && ((#[trigger] feed[k]).timestamp < now || (feed[k].timestamp == now
            && feed[k].id > parent)) implies place < k by {
        lemma_feed_places(out, place, k);
    }
}

/// The pages of a feed follow one another without a gap and without an
/// overlap: page `p` and the page behind it together are the part of the
/// feed that starts where page `p` starts and is two pages long.
pub proof fn lemma_pages_adjoin(feed: Seq<PostView>, page_number: nat, page_size: nat)
    requires
        page_number >= 1,
    ensures
        window(feed, page_offset(page_number, page_size), page_size) + window(
            feed,
            page_offset(page_number + 1, page_size),
            page_size,
        ) == window(feed, page_offset(page_number, page_size), 2 * page_size),
{
    let first = page_offset(page_number, page_size);
    let second = page_offset(page_number + 1, page_size);
    assert(second == first + page_size) by (nonlinear_arith)
        requires
            page_number >= 1,
            first == (page_number - 1) * page_size,
            second == (page_number + 1 - 1) * page_size,
    ;
    assert(window(feed, first, page_size) + window(feed, second, page_size) =~= window(
        feed,
        first,
        2 * page_size,
    ));
}

/// What it is to be the feed of a table: to be sorted, to hold roots of the
/// table only, and to hold every root of the table.
pub open spec fn is_feed_of(feed: Seq<PostView>, rows: Seq<PostView>) -> bool {
    &&& feed_sorted(feed)
    &&& forall|k: int|
        0 <= k < feed.len() ==> (#[trigger] feed[k]).is_root() && rows.contains(feed[k])
    &&& forall|i: int| 0 <= i < rows.len() && (#[trigger] rows[i]).is_root() ==> feed.contains(rows[i])
}

/// Two sorted feeds with the same entries are the same feed.
pub proof fn lemma_sorted_feeds_agree(f: Seq<PostView>, g: Seq<PostView>)
    requires
        feed_sorted(f),
        feed_sorted(g),
        forall|k: int| 0 <= k < f.len() ==> g.contains(#[trigger] f[k]),
        forall|k: int| 0 <= k < g.len() ==> f.contains(#[trigger] g[k]),
    ensures
        f == g,
    decreases f.len(),
{
    if f.len() == 0 {
        if g.len() > 0 {
            assert(f.contains(g[0]));
        }
        assert(f =~= g);
    } else {
        let a = f.last();
        assert(g.contains(f[f.len() - 1]));
        let b = g.last();
        assert(f.contains(g[g.len() - 1]));
        let at_g = choose|j: int| 0 <= j < g.len() && g[j] == a;
        let at_f = choose|i: int| 0 <= i < f.len() && f[i] == b;
        if a != b {
            assert(comes_before(g[at_g], g[g.len() - 1]));
            assert(comes_before(f[at_f], f[f.len() - 1]));
        }
        let f_front = f.drop_last();
        let g_front = g.drop_last();
        assert forall|k: int| 0 <= k < f_front.len() implies g_front.contains(
            #[trigger] f_front[k],
        ) by {
            assert(comes_before(f[k], f[f.len() - 1]));
            assert(g.contains(f[k]));
            let j = choose|j: int| 0 <= j < g.len() && g[j] == f[k];
            assert(g_front[j] == f[k]);
        }
        assert forall|k: int| 0 <= k < g_front.len() implies f_front.contains(
            #[trigger] g_front[k],
        ) by {
            assert(comes_before(g[k], g[g.len() - 1]));
            assert(f.contains(g[k]));
            let i = choose|i: int| 0 <= i < f.len() && f[i] == g[k];
            assert(f_front[i] == g[k]);
        }
        assert(feed_sorted(f_front)) by {
            assert forall|j: int, k: int| 0 <= j < k < f_front.len() implies comes_before(
                f_front[j],
                f_front[k],
            ) by {
                assert(comes_before(f[j], f[k]));
            }
        }
        assert(feed_sorted(g_front)) by {
            assert forall|j: int, k: int| 0 <= j < k < g_front.len() implies comes_before(
                g_front[j],
                g_front[k],
            ) by {
                assert(comes_before(g[j], g[k]));
            }
        }
        lemma_sorted_feeds_agree(f_front, g_front);
        assert(f =~= f_front.push(a));
        assert(g =~= g_front.push(b));
    }
}

/// A table has one feed: the roots of the table can be put in the order of
/// the feed in one way only, and [`feed_of`] is that way.
pub proof fn lemma_feed_unique(rows: Seq<PostView>, feed: Seq<PostView>)
    requires
        ids_grow(rows),
    ensures
        is_feed_of(feed_of(rows), rows),
        is_feed_of(feed, rows) ==> feed == feed_of(rows),
{
    let own = feed_of(rows);
    lemma_feed_sorted(rows);
    lemma_feed_entries(rows);
    lemma_feed_complete(rows);
    if is_feed_of(feed, rows) {
        assert forall|k: int| 0 <= k < feed.len() implies own.contains(#[trigger] feed[k]) by {
            assert(rows.contains(feed[k]));
            let i = choose|i: int| 0 <= i < rows.len() && rows[i] == feed[k];
            assert(rows[i].is_root());
        }
        assert forall|k: int| 0 <= k < own.len() implies feed.contains(#[trigger] own[k]) by {
            assert(rows.contains(own[k]));
            let i = choose|i: int| 0 <= i < rows.len() && rows[i] == own[k];
            assert(rows[i].is_root());
        }
        lemma_sorted_feeds_agree(feed, own);
    }
}

} // verus!
