//! The post store: the table of posts with the queries and the two writes
//! that the board needs.

use vstd::prelude::*;
use crate::post::{views_of, Post, PostView};
use crate::table::{
    admits, bumped, comes_before, feed_of, has_id, has_root, lemma_bumped_wf,
    lemma_feed_sorted, lemma_max_sequence_push, lemma_push_wf, lemma_replies_fewer,
    lemma_replies_of_step, lemma_slot, lemma_thread_dense, lemma_wf_prefix, lemma_wf_step,
    max_sequence, next_id, replies_of, row_ok, slot, table_wf, window,
};
use crate::text::blank;

verus! {

/// The store could not do what was asked of it.
#[derive(Debug, Clone, Copy, PartialEq, Eq)]
pub struct StoreError;

/// Decides [`comes_before`].
fn precedes(a: &Post, b: &Post) -> (r: bool)
    ensures
        r == comes_before(a@, b@),
{
    a.timestamp > b.timestamp || (a.timestamp == b.timestamp && a.id < b.id)
}

/// Whether a root with this id stands among the first `n` rows.
fn root_among(rows: &Vec<Post>, n: usize, id: u64) -> (found: bool)
    requires
        n <= rows@.len(),
    ensures
        found == has_root(views_of(rows@).take(n as int), id as nat),
{
    let ghost front = views_of(rows@).take(n as int);
    let mut i: usize = 0;
    while i < n
        invariant
            i <= n <= rows@.len(),
            front == views_of(rows@).take(n as int),
            forall|j: int| 0 <= j < i ==> !((#[trigger] front[j]).id == id && front[j].is_root()),
        decreases n - i,
    {
        assert(front[i as int] == rows@[i as int]@);
        if rows[i].id == id && rows[i].is_root() {
            return true;
        }
        i = i + 1;
    }
    false
}

/// The number of replies under `parent` among the first `n` rows.
fn replies_among(rows: &Vec<Post>, n: usize, parent: u64) -> (count: usize)
    requires
        n <= rows@.len(),
    ensures
        count == replies_of(views_of(rows@).take(n as int), parent as nat).len(),
        count <= n,
{
    let ghost all = views_of(rows@);
    let mut count: usize = 0;
    let mut i: usize = 0;
    while i < n
        invariant
            i <= n <= rows@.len(),
            all == views_of(rows@),
            count <= i,
            count == replies_of(all.take(i as int), parent as nat).len(),
        decreases n - i,
    {
        proof {
            lemma_replies_of_step(all, i as int, parent as nat);
        }
        if rows[i].parent_id == Some(parent) {
            count = count + 1;
        }
        i = i + 1;
    }
    count
}

/// Decides [`row_ok`] for the row at index `i`.
fn row_obeys(rows: &Vec<Post>, i: usize) -> (ok: bool)
    requires
        i < rows@.len(),
    ensures
        ok == row_ok(views_of(rows@), i as int),
{
    let row = &rows[i];
    assert(views_of(rows@)[i as int] == row@);
    if row.id < 1 || blank(row.content.as_str()) {
        return false;
    }
    if row.is_root() {
        return true;
    }
    if !row.is_reply() {
        return false;
    }
    match (row.parent_id, row.reply_sequence) {
        (Some(parent), Some(sequence)) => {
            let count = replies_among(rows, i, parent);
            root_among(rows, i, parent) && sequence >= 1 && sequence - 1 == count as u64
        },
        _ => false,
    }
}

/// The posts of the board, in the order in which they were inserted.
pub struct PostStore {
    rows: Vec<Post>,
}

impl View for PostStore {
    type V = Seq<PostView>;

    closed spec fn view(&self) -> Seq<PostView> {
        views_of(self.rows@)
    }
}

impl PostStore {
    /// The store obeys the rules of the table. This holds of every store.
    #[verifier::type_invariant]
    pub open spec fn wf(&self) -> bool {
        table_wf(self@)
    }

    /// An empty store.
    pub fn new() -> (store: PostStore)
        ensures
            store@ == Seq::<PostView>::empty(),
            store.wf(),
    {
        let store = PostStore { rows: Vec::new() };
        assert(store@ =~= Seq::<PostView>::empty());
        store
    }

    /// A store of the given rows, which come in the order of insertion. It
    /// is made where the rows obey the rules of the table, and only there.
    pub fn load(rows: Vec<Post>) -> (outcome: Result<PostStore, StoreError>)
        ensures
            match outcome {
                Ok(store) => store@ == views_of(rows@) && store.wf(),
                Err(_) => !table_wf(views_of(rows@)),
            },
    {
        let ghost all = views_of(rows@);
        let mut i: usize = 0;
        while i < rows.len()
            invariant
                i <= rows@.len(),
                all == views_of(rows@),
                table_wf(all.take(i as int)),
            decreases rows@.len() - i,
        {
            if i > 0 && rows[i - 1].id >= rows[i].id {
                assert(all[i - 1].id >= all[i as int].id);
                return Err(StoreError);
            }
            if !row_obeys(&rows, i) {
                return Err(StoreError);
            }
            proof {
                lemma_wf_step(all, i as int);
            }
            i = i + 1;
        }
        assert(all.take(i as int) =~= all);
        Ok(PostStore { rows })
    }

    /// The number of posts, roots and replies together.
    pub fn len(&self) -> (n: usize)
        ensures
            n == self@.len(),
    {
        self.rows.len()
    }

    /// The index of the row with this id.
    fn find(&self, id: u64) -> (found: Option<usize>)
        ensures
            match found {
                Some(i) => i < self@.len() && self@[i as int].id == id,
                None => !has_id(self@, id as nat),
            },
    {
        proof {
            use_type_invariant(self);
        }
        let mut lo: usize = 0;
        let mut hi: usize = self.rows.len();
        while lo < hi
            invariant
                self.wf(),
                lo <= hi <= self@.len(),
                self@.len() == self.rows@.len(),
                forall|j: int| 0 <= j < lo ==> (#[trigger] self@[j]).id < id,
                forall|j: int| hi <= j < self@.len() ==> (#[trigger] self@[j]).id > id,
            decreases hi - lo,
        {
            let mid: usize = lo + (hi - lo) / 2;
            let here: u64 = self.rows[mid].id;
            assert(self@[mid as int].id == here);
            if here == id {
                return Some(mid);
            } else if here < id {
                assert forall|j: int| 0 <= j < mid + 1 implies (#[trigger] self@[j]).id < id by {
                    if j < mid {
                        assert(self@[j].id < self@[mid as int].id);
                    }
                }
                lo = mid + 1;
            } else {
                assert forall|j: int| mid <= j < self@.len() implies (#[trigger] self@[j]).id
                    > id by {
                    if j > mid {
                        assert(self@[mid as int].id < self@[j].id);
                    }
                }
                hi = mid;
            }
        }
        None
    }

    /// Whether the store holds a root with this id.
    pub fn holds_root(&self, id: u64) -> (found: bool)
        ensures
            found == has_root(self@, id as nat),
    {
        proof {
            use_type_invariant(self);
        }
        match self.find(id) {
            Some(i) => {
                assert forall|j: int| 0 <= j < self@.len() && j != i implies (#[trigger] self@[j]).id
                    != id by {
                    if j < i {
                        assert(self@[j].id < self@[i as int].id);
                    } else {
                        assert(self@[i as int].id < self@[j].id);
                    }
                }
                self.rows[i].is_root()
            },
            None => false,
        }
    }

    /// The post with this id, if the store holds one.
    pub fn get_by_id(&self, id: u64) -> (found: Option<Post>)
        ensures
            match found {
                Some(p) => self@.contains(p@) && p.id == id,
                None => !has_id(self@, id as nat),
            },
    {
        match self.find(id) {
            Some(i) => {
                let p = self.rows[i].clone();
                assert(self@[i as int] == p@);
                Some(p)
            },
            None => None,
        }
    }

    /// The number of replies under `parent`.
    pub fn count_replies(&self, parent: u64) -> (n: u64)
        ensures
            n == replies_of(self@, parent as nat).len(),
    {
        let count = replies_among(&self.rows, self.rows.len(), parent);
        assert(self@.take(self@.len() as int) =~= self@);
        count as u64
    }

    /// The sequence number for the next reply under `parent`: one more than
    /// the greatest in use there, 1 where there is none. By the rules of the
    /// table that is one more than the number of replies under `parent`.
    pub fn next_reply_sequence(&self, parent: u64) -> (n: u64)
        ensures
            n == max_sequence(replies_of(self@, parent as nat)) + 1,
            n == replies_of(self@, parent as nat).len() + 1,
    {
        proof {
            use_type_invariant(self);
        }
        let mut best: u64 = 0;
        let mut i: usize = 0;
        while i < self.rows.len()
            invariant
                i <= self.rows@.len(),
                self@.len() == self.rows@.len(),
                best == max_sequence(replies_of(self@.take(i as int), parent as nat)),
            decreases self.rows@.len() - i,
        {
            proof {
                lemma_replies_of_step(self@, i as int, parent as nat);
                lemma_max_sequence_push(
                    replies_of(self@.take(i as int), parent as nat),
                    self@[i as int],
                );
            }
            let row = &self.rows[i];
            if row.parent_id == Some(parent) {
                match row.reply_sequence {
                    Some(n) => {
                        if n > best {
                            best = n;
                        }
                    },
                    None => {},
                }
            }
            i = i + 1;
        }
        proof {
            assert(self@.take(i as int) =~= self@);
            lemma_thread_dense(self@, parent as nat);
            if self@.len() > 0 {
                lemma_replies_fewer(self@, parent as nat);
            }
        }
        best + 1
    }

    /// Whether the store takes this post: its body is not blank, and it is
    /// a root, or a reply under a root of the store with the next sequence of
    /// that thread.
    fn takes(&self, post: &Post) -> (ok: bool)
        ensures
            ok == admits(self@, PostView { id: next_id(self@), ..post@ }),
    {
        if blank(post.content.as_str()) {
            return false;
        }
        if post.is_root() {
            return true;
        }
        match (post.parent_id, post.reply_sequence) {
            (Some(parent), Some(sequence)) => {
                post.is_reply() && self.holds_root(parent) && sequence
                    == self.next_reply_sequence(parent)
            },
            _ => false,
        }
    }

    /// Appends a post that the rules of the table admit, and returns the id
    /// that it got. Where no id is left the store stays as it is.
    pub(crate) fn append(&mut self, post: Post) -> (outcome: Result<u64, StoreError>)
        requires
            admits(old(self)@, PostView { id: next_id(old(self)@), ..post@ }),
        ensures
            final(self).wf(),
            match outcome {
                Ok(id) => {
                    &&& id == next_id(old(self)@)
                    &&& final(self)@ == old(self)@.push(PostView { id: id as nat, ..post@ })
                },
                Err(_) => next_id(old(self)@) > u64::MAX && final(self)@ == old(self)@,
            },
    {
        proof {
            use_type_invariant(&*self);
        }
        let n = self.rows.len();
        let id: u64 = if n == 0 {
            1
        } else {
            let last: u64 = self.rows[n - 1].id;
            assert(self@[n - 1].id == last);
            if last == u64::MAX {
                return Err(StoreError);
            }
            last + 1
        };
        let mut post = post;
        let ghost before = self@;
        let ghost row = PostView { id: id as nat, ..post@ };
        post.id = id;
        let mut rows: Vec<Post> = Vec::new();
        std::mem::swap(&mut self.rows, &mut rows);
        rows.push(post);
        proof {
            assert(views_of(rows@) =~= before.push(row));
            lemma_push_wf(before, row);
        }
        self.rows = rows;
        Ok(id)
    }

    /// Appends a post and returns the id that it got. The store assigns the
    /// id, [`next_id`]: whatever `post.id` holds is replaced.
    ///
    /// The post is refused, and the store left as it is, where the rules of
    /// the table do not admit it or where no id is left.
    pub fn insert(&mut self, post: Post) -> (outcome: Result<u64, StoreError>)
        ensures
            final(self).wf(),
            match outcome {
                Ok(id) => {
                    &&& id == next_id(old(self)@)
                    &&& admits(old(self)@, PostView { id: id as nat, ..post@ })
                    &&& final(self)@ == old(self)@.push(PostView { id: id as nat, ..post@ })
                },
                Err(_) => {
                    &&& final(self)@ == old(self)@
                    &&& next_id(old(self)@) > u64::MAX || !admits(
                        old(self)@,
                        PostView { id: next_id(old(self)@), ..post@ },
                    )
                },
            },
    {
        proof {
            use_type_invariant(&*self);
        }
        if self.takes(&post) {
            self.append(post)
        } else {
            Err(StoreError)
        }
    }

    /// Gives the root with this id the timestamp `time` and says whether
    /// there is such a root. Replies keep their timestamps: with the id of
    /// a reply, or with an id that the store does not hold, nothing changes.
    pub fn bump_timestamp(&mut self, root_id: u64, time: u64) -> (done: bool)
        ensures
            final(self).wf(),
            final(self)@ == bumped(old(self)@, root_id as nat, time as nat),
            done == has_root(old(self)@, root_id as nat),
    {
        let ghost before = self@;
        proof {
            use_type_invariant(&*self);
            lemma_bumped_wf(before, root_id as nat, time as nat);
        }
        match self.find(root_id) {
            Some(i) => {
                assert(before[i as int].id == root_id);
                assert forall|j: int| 0 <= j < before.len() && j != i implies (
                #[trigger] before[j]).id != root_id by {
                    if j < i {
                        assert(before[j].id < before[i as int].id);
                    } else {
                        assert(before[i as int].id < before[j].id);
                    }
                }
                if self.rows[i].is_root() {
                    let mut rows: Vec<Post> = Vec::new();
                    std::mem::swap(&mut self.rows, &mut rows);
                    rows[i].timestamp = time;
                    assert(views_of(rows@) =~= bumped(before, root_id as nat, time as nat));
                    self.rows = rows;
                    true
                } else {
                    assert(self@ =~= bumped(before, root_id as nat, time as nat));
                    false
                }
            },
            None => {
                assert(self@ =~= bumped(before, root_id as nat, time as nat));
                false
            },
        }
    }

    /// The feed from its tail to its head: for each entry, the index of its
    /// row. A root with later activity than all the roots before it, which
    /// is the usual case, goes to the end of this list in one step.
    fn feed_backwards(&self) -> (order: Vec<usize>)
        ensures
            order@.len() == feed_of(self@).len(),
            forall|k: int|
                0 <= k < order@.len() ==> (#[trigger] order@[k]) < self@.len() && self@[order@[k] as int]
                    == feed_of(self@)[order@.len() - 1 - k],
    {
        proof {
            use_type_invariant(self);
        }
        let mut order: Vec<usize> = Vec::new();
        let mut i: usize = 0;
        while i < self.rows.len()
            invariant
                self.wf(),
                i <= self.rows@.len(),
                self@.len() == self.rows@.len(),
                order@.len() == feed_of(self@.take(i as int)).len(),
                forall|k: int|
                    0 <= k < order@.len() ==> (#[trigger] order@[k]) < i && self@[order@[k] as int]
                        == feed_of(self@.take(i as int))[order@.len() - 1 - k],
            decreases self.rows@.len() - i,
        {
            let ghost feed = feed_of(self@.take(i as int));
            let ghost p = self@[i as int];
            proof {
                assert(self@.take(i + 1).drop_last() =~= self@.take(i as int));
                assert(self@.take(i + 1).last() == p);
            }
            if self.rows[i].is_root() {
                let n = order.len();
                let mut t: usize = n;
                let mut searching = true;
                while searching && t > 0
                    invariant
                        i < self.rows@.len(),
                        self@.len() == self.rows@.len(),
                        p == self@[i as int],
                        n == order@.len(),
                        n == feed.len(),
                        t <= n,
                        forall|k: int|
                            0 <= k < n ==> (#[trigger] order@[k]) < i && self@[order@[k] as int]
                                == feed[n - 1 - k],
                        forall|j: int| 0 <= j < n - t ==> comes_before(#[trigger] feed[j], p),
                        !searching ==> t > 0 && !comes_before(feed[n - t], p),
                    decreases t + if searching { 1nat } else { 0nat },
                {
                    if precedes(&self.rows[order[t - 1]], &self.rows[i]) {
                        t = t - 1;
                    } else {
                        searching = false;
                    }
                }
                let ghost at = n - t;
                proof {
                    lemma_wf_prefix(self@, i as int);
                    lemma_feed_sorted(self@.take(i as int));
                    lemma_slot(feed, p);
                    let s = slot(feed, p);
                    if s < at {
                        assert(comes_before(feed[s], p));
                    } else if at < s {
                        assert(!comes_before(feed[at], p));
                    }
                    feed.insert_ensures(at, p);
                }
                let ghost before = order@;
                order.insert(t, i);
                assert forall|k: int| 0 <= k < order@.len() implies (#[trigger] order@[k]) < i + 1
                    && self@[order@[k] as int] == feed_of(self@.take(i + 1))[order@.len() - 1
                    - k] by {
                    if k < t {
                        assert(order@[k] == before[k]);
                    } else if k > t {
                        assert(order@[k] == before[k - 1]);
                    }
                }
            }
            i = i + 1;
        }
        assert(self@.take(i as int) =~= self@);
        order
    }

    /// The roots in the order of the feed, at most `limit` of them, leaving
    /// out the first `offset`.
    pub fn list_roots(&self, limit: u64, offset: u64) -> (page: Vec<Post>)
        ensures
            views_of(page@) == window(feed_of(self@), offset as nat, limit as nat),
    {
        let order = self.feed_backwards();
        let n = order.len();
        let mut page: Vec<Post> = Vec::new();
        if offset >= n as u64 {
            assert(views_of(page@) =~= window(feed_of(self@), offset as nat, limit as nat));
            return page;
        }
        let from: usize = offset as usize;
        let to: usize = if limit >= (n - from) as u64 {
            n
        } else {
            from + limit as usize
        };
        let mut k: usize = from;
        while k < to
            invariant
                from <= k <= to <= n,
                n == order@.len(),
                order@.len() == feed_of(self@).len(),
                self@.len() == self.rows@.len(),
                forall|m: int|
                    0 <= m < n ==> (#[trigger] order@[m]) < self@.len() && self@[order@[m] as int]
                        == feed_of(self@)[n - 1 - m],
                views_of(page@) == feed_of(self@).subrange(from as int, k as int),
            decreases to - k,
        {
            let row = self.rows[order[n - 1 - k]].clone();
            let ghost before = views_of(page@);
            page.push(row);
            assert(views_of(page@) =~= before.push(feed_of(self@)[k as int]));
            assert(before.push(feed_of(self@)[k as int]) =~= feed_of(self@).subrange(
                from as int,
                k + 1,
            ));
            k = k + 1;
        }
        page
    }

    /// The replies under `parent`, the latest first.
    pub fn list_replies(&self, parent: u64) -> (replies: Vec<Post>)
        ensures
            views_of(replies@) == replies_of(self@, parent as nat).reverse(),
    {
        let mut found: Vec<usize> = Vec::new();
        let mut i: usize = 0;
        while i < self.rows.len()
            invariant
                i <= self.rows@.len(),
                self@.len() == self.rows@.len(),
                found@.len() == replies_of(self@.take(i as int), parent as nat).len(),
                forall|k: int|
                    0 <= k < found@.len() ==> (#[trigger] found@[k]) < i && self@[found@[k] as int]
                        == replies_of(self@.take(i as int), parent as nat)[k],
            decreases self.rows@.len() - i,
        {
            proof {
                lemma_replies_of_step(self@, i as int, parent as nat);
            }
            if self.rows[i].parent_id == Some(parent) {
                found.push(i);
            }
            i = i + 1;
        }
        assert(self@.take(i as int) =~= self@);
        let ghost thread = replies_of(self@, parent as nat);
        let mut replies: Vec<Post> = Vec::new();
        let mut k: usize = found.len();
        while k > 0
            invariant
                k <= found@.len(),
                found@.len() == thread.len(),
                self@.len() == self.rows@.len(),
                forall|m: int|
                    0 <= m < found@.len() ==> (#[trigger] found@[m]) < self@.len() && self@[found@[m] as int]
                        == thread[m],
                replies@.len() == found@.len() - k,
                forall|m: int|
                    0 <= m < replies@.len() ==> (#[trigger] replies@[m])@ == thread[thread.len() - 1 - m],
            decreases k,
        {
            k = k - 1;
            let row = self.rows[found[k]].clone();
            replies.push(row);
        }
        assert(views_of(replies@) =~= thread.reverse());
        replies
    }

    /// The posts, in the order of insertion.
    pub fn posts(&self) -> (rows: &Vec<Post>)
        ensures
            views_of(rows@) == self@,
    {
        &self.rows
    }
}

} // verus!
