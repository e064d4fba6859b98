//! The board service: the four operations that visitors reach, over a post
//! store.
//!
//! Starting a thread takes two steps, because the file of an upload has to be
//! on disk before the post that names it is stored: [`open_thread`] drafts
//! the thread and says where the file goes, and [`create_thread`] stores the
//! draft.

use vstd::prelude::*;
use vstd::string::*;
use crate::attachment::{
    stored_file, stored_name, stored_path, validate_attachment, verdict_of, AttachmentRejected,
    StoredFile, Upload,
};
use crate::clock::current_timestamp;
use crate::label::{generate_display_id, is_display_id};
use crate::laws::lemma_latest_first;
use crate::post::{views_of, Post, PostView};
use crate::store::PostStore;
use crate::table::{
    bumped, feed_of, has_root, lemma_feed_length, lemma_one_row_per_id, next_id, replies_of,
    window,
};
use crate::text::{blank, is_blank};

verus! {

/// The number of threads on a page of the feed, unless the caller asks for
/// another.
pub const DEFAULT_PAGE_SIZE: u64 = 10;

/// Why an operation of the board failed.
#[derive(Debug, Clone, Copy, PartialEq, Eq, Structural)]
pub enum BoardError {
    /// The body of the post is empty or holds white space only.
    ValidationError,
    /// No thread has the id that was given.
    NotFound,
    /// The store could not take the post.
    StoreError,
}

/// An entry of the feed: a root and the number of replies under it.
#[derive(Debug)]
pub struct ThreadSummary {
    pub root: Post,
    pub reply_count: u64,
}

/// A thread: its root and the replies under it, the latest first.
#[derive(Debug)]
pub struct Thread {
    pub root: Post,
    pub replies: Vec<Post>,
}

/// A thread that has been checked and labelled but not stored yet.
pub struct ThreadDraft {
    content: String,
    display_id: String,
    timestamp: u64,
    attachment: Option<StoredFile>,
    rejected: Option<AttachmentRejected>,
}

/// What a draft holds, as mathematical values. `attachment` is the name of
/// the file to store and the path that the post will record.
pub struct DraftView {
    pub content: Seq<char>,
    pub display_id: Seq<char>,
    pub timestamp: nat,
    pub attachment: Option<(Seq<char>, Seq<char>)>,
    pub rejected: Option<AttachmentRejected>,
}

impl DraftView {
    /// The rules of a draft: a body that is not blank, a display id, and at
    /// most one of an attachment and a reason why there is none.
    pub open spec fn wf(self) -> bool {
        &&& !is_blank(self.content)
        &&& is_display_id(self.display_id)
        &&& self.attachment is Some ==> self.rejected is None
    }
}

/// The draft of a thread with this body, label and time, and with this
/// verdict on its upload, if it came with one. An upload that the attachment
/// policy takes is planned under the display id; one that it refuses is
/// dropped and the reason kept.
pub open spec fn draft_of(
    content: Seq<char>,
    checked: Option<Result<Seq<char>, AttachmentRejected>>,
    display_id: Seq<char>,
    now: nat,
) -> DraftView {
    DraftView {
        content,
        display_id,
        timestamp: now,
        attachment: match checked {
            Some(Ok(extension)) => Some(
                (stored_name(display_id, extension), stored_path(stored_name(display_id, extension))),
            ),
            _ => None,
        },
        rejected: match checked {
            Some(Err(reason)) => Some(reason),
            _ => None,
        },
    }
}

/// The root that a draft becomes in a table.
pub open spec fn root_of(rows: Seq<PostView>, draft: DraftView) -> PostView {
    PostView {
        id: next_id(rows),
        content: draft.content,
        parent_id: None,
        reply_sequence: None,
        display_id: Some(draft.display_id),
        timestamp: draft.timestamp,
        attachment_path: match draft.attachment {
            Some((_, path)) => Some(path),
            None => None,
        },
    }
}

/// The reply that a body becomes under `parent` in a table.
pub open spec fn reply_of(rows: Seq<PostView>, parent: nat, content: Seq<char>, now: nat) -> PostView {
    PostView {
        id: next_id(rows),
        content,
        parent_id: Some(parent),
        reply_sequence: Some((replies_of(rows, parent).len() + 1) as nat),
        display_id: None,
        timestamp: now,
        attachment_path: None,
    }
}

/// The table after a reply with this body was stored under `parent` at the
/// time `now`: the reply stands at the end, and the root carries the time.
pub open spec fn replied(rows: Seq<PostView>, parent: nat, content: Seq<char>, now: nat) -> Seq<
    PostView,
> {
    bumped(rows.push(reply_of(rows, parent, content, now)), parent, now)
}

/// The number of feed entries that stand before page `page_number` where a
/// page holds `page_size` of them. Pages are counted from 1, and a page
/// number below 1 means page 1.
pub open spec fn page_offset(page_number: nat, page_size: nat) -> nat {
    if page_number < 1 {
        0
    } else {
        ((page_number - 1) * page_size) as nat
    }
}

impl View for ThreadDraft {
    type V = DraftView;

    closed spec fn view(&self) -> DraftView {
        DraftView {
            content: self.content@,
            display_id: self.display_id@,
            timestamp: self.timestamp as nat,
            attachment: match self.attachment {
                Some(file) => Some((file.file_name@, file.path@)),
                None => None,
            },
            rejected: self.rejected,
        }
    }
}

impl ThreadDraft {
    /// The draft obeys the rules of a draft. This holds of every draft.
    #[verifier::type_invariant]
    pub open spec fn wf(&self) -> bool {
        self@.wf()
    }

    /// The display id that the thread will carry.
    pub fn display_id(&self) -> (id: &str)
        ensures
            id@ == self@.display_id,
    {
        self.display_id.as_str()
    }

    /// The time that the thread will carry.
    pub fn timestamp(&self) -> (time: u64)
        ensures
            time == self@.timestamp,
    {
        self.timestamp
    }

    /// Where the upload has to be stored before the thread is created, if the
    /// draft has an upload.
    pub fn attachment(&self) -> (file: Option<&StoredFile>)
        ensures
            match file {
                Some(f) => self@.attachment == Some((f.file_name@, f.path@)),
                None => self@.attachment is None,
            },
    {
        self.attachment.as_ref()
    }

    /// Why the upload that came with the thread was dropped, if one was.
    pub fn rejected(&self) -> (reason: Option<AttachmentRejected>)
        ensures
            reason == self@.rejected,
    {
        self.rejected
    }

    /// The draft after its upload could not be stored: it goes on without
    /// the attachment and keeps the reason. A draft that has no attachment
    /// stays as it is.
    pub fn attachment_unreadable(self) -> (draft: ThreadDraft)
        ensures
            draft@ == if self@.attachment is Some {
                DraftView {
                    attachment: None,
                    rejected: Some(AttachmentRejected::Unreadable),
                    ..self@
                }
            } else {
                self@
            },
    {
        proof {
            use_type_invariant(&self);
        }
        if self.attachment.is_some() {
            ThreadDraft {
                content: self.content,
                display_id: self.display_id,
                timestamp: self.timestamp,
                attachment: None,
                rejected: Some(AttachmentRejected::Unreadable),
            }
        } else {
            self
        }
    }
}

/// Drafts a thread with the given label and time. A blank body is refused.
/// An upload that the attachment policy refuses is dropped, not the thread.
pub fn draft_thread(content: &str, upload: Option<&Upload>, display_id: String, now: u64) -> (outcome:
    Result<ThreadDraft, BoardError>)
    requires
        is_display_id(display_id@),
    ensures
        match outcome {
            Ok(draft) => {
                &&& !is_blank(content@)
                &&& draft@ == draft_of(content@, verdict_of(upload), display_id@, now as nat)
                &&& draft@.wf()
            },
            Err(e) => e == BoardError::ValidationError && is_blank(content@),
        },
{
    if blank(content) {
        return Err(BoardError::ValidationError);
    }
    let mut attachment: Option<StoredFile> = None;
    let mut rejected: Option<AttachmentRejected> = None;
    match upload {
        Some(u) => match validate_attachment(u) {
            Ok(extension) => {
                attachment = Some(stored_file(display_id.as_str(), extension));
            },
            Err(reason) => {
                rejected = Some(reason);
            },
        },
        None => {},
    }
    Ok(ThreadDraft { content: String::from_str(content), display_id, timestamp: now, attachment, rejected })
}

/// Drafts a thread: checks the body, draws a display id, reads the clock and
/// decides on the upload. Nothing is stored yet.
pub fn open_thread(content: &str, upload: Option<&Upload>) -> (outcome: Result<
    ThreadDraft,
    BoardError,
>)
    ensures
        match outcome {
            Ok(draft) => {
                &&& !is_blank(content@)
                &&& draft@ == draft_of(
                    content@,
                    verdict_of(upload),
                    draft@.display_id,
                    draft@.timestamp,
                )
                &&& draft@.wf()
            },
            Err(e) => e == BoardError::ValidationError && is_blank(content@),
        },
{
    let display_id = generate_display_id();
    let now = current_timestamp();
    draft_thread(content, upload, display_id, now)
}

/// Stores a drafted thread as a new root and returns the root. The caller
/// has stored the file of the draft's attachment, if it has one, before
/// this. Where the store has no id left it stays as it is.
pub fn create_thread(store: &mut PostStore, draft: ThreadDraft) -> (outcome: Result<
    Post,
    BoardError,
>)
    ensures
        final(store).wf(),
        match outcome {
            Ok(root) => {
                &&& root@ == root_of(old(store)@, draft@)
                &&& root@.is_root()
                &&& is_display_id(root@.display_id->0)
                &&& final(store)@ == old(store)@.push(root@)
            },
            Err(e) => {
                &&& e == BoardError::StoreError
                &&& next_id(old(store)@) > u64::MAX
                &&& final(store)@ == old(store)@
            },
        },
{
    proof {
        use_type_invariant(&draft);
    }
    let path = match draft.attachment {
        Some(file) => Some(file.path),
        None => None,
    };
    let post = Post {
        id: 0,
        content: draft.content,
        parent_id: None,
        reply_sequence: None,
        display_id: Some(draft.display_id),
        timestamp: draft.timestamp,
        attachment_path: path,
    };
    let root = post.clone();
    match store.append(post) {
        Ok(id) => {
            let mut root = root;
            root.id = id;
            Ok(root)
        },
        Err(_) => Err(BoardError::StoreError),
    }
}

/// Stores a reply under the root `parent_id` at the time `now`, gives the
/// root that time as its last activity, and returns the reply. The store is
/// borrowed for the whole of it, so no other reply comes between the reading
/// of the latest sequence and the storing of the next.
///
/// The reply is refused, and the store left as it is, where `parent_id` is
/// not the id of a root (a reply cannot be replied to), else where the body
/// is blank, else where the store has no id left.
pub fn create_reply_at(store: &mut PostStore, parent_id: u64, content: &str, now: u64) -> (outcome:
    Result<Post, BoardError>)
    ensures
        final(store).wf(),
        match outcome {
            Ok(reply) => {
                &&& has_root(old(store)@, parent_id as nat)
                &&& !is_blank(content@)
                &&& reply@ == reply_of(old(store)@, parent_id as nat, content@, now as nat)
                &&& final(store)@ == replied(old(store)@, parent_id as nat, content@, now as nat)
            },
            Err(BoardError::NotFound) => {
                &&& !has_root(old(store)@, parent_id as nat)
                &&& final(store)@ == old(store)@
            },
            Err(BoardError::ValidationError) => {
                &&& has_root(old(store)@, parent_id as nat)
                &&& is_blank(content@)
                &&& final(store)@ == old(store)@
            },
            Err(BoardError::StoreError) => {
                &&& has_root(old(store)@, parent_id as nat)
                &&& !is_blank(content@)
                &&& next_id(old(store)@) > u64::MAX
                &&& final(store)@ == old(store)@
            },
        },
{
    proof {
        use_type_invariant(&*store);
    }
    if !store.holds_root(parent_id) {
        return Err(BoardError::NotFound);
    }
    if blank(content) {
        return Err(BoardError::ValidationError);
    }
    let sequence = store.next_reply_sequence(parent_id);
    let post = Post {
        id: 0,
        content: String::from_str(content),
        parent_id: Some(parent_id),
        reply_sequence: Some(sequence),
        display_id: None,
        timestamp: now,
        attachment_path: None,
    };
    let reply = post.clone();
    match store.append(post) {
        Ok(id) => {
            let mut reply = reply;
            reply.id = id;
            store.bump_timestamp(parent_id, now);
            Ok(reply)
        },
        Err(_) => Err(BoardError::StoreError),
    }
}

/// Stores a reply under the root `parent_id` at the current time. See
/// [`create_reply_at`], which does the work once the clock has been read.
pub fn create_reply(store: &mut PostStore, parent_id: u64, content: &str) -> (outcome: Result<
    Post,
    BoardError,
>)
    ensures
        final(store).wf(),
        match outcome {
            Ok(reply) => {
                &&& has_root(old(store)@, parent_id as nat)
                &&& !is_blank(content@)
                &&& reply@ == reply_of(old(store)@, parent_id as nat, content@, reply@.timestamp)
                &&& final(store)@ == replied(
                    old(store)@,
                    parent_id as nat,
                    content@,
                    reply@.timestamp,
                )
            },
            Err(BoardError::NotFound) => {
                &&& !has_root(old(store)@, parent_id as nat)
                &&& final(store)@ == old(store)@
            },
            Err(BoardError::ValidationError) => {
                &&& has_root(old(store)@, parent_id as nat)
                &&& is_blank(content@)
                &&& final(store)@ == old(store)@
            },
            Err(BoardError::StoreError) => {
                &&& has_root(old(store)@, parent_id as nat)
                &&& !is_blank(content@)
                &&& next_id(old(store)@) > u64::MAX
                &&& final(store)@ == old(store)@
            },
        },
{
    let now = current_timestamp();
    create_reply_at(store, parent_id, content, now)
}

/// A page of the feed: the roots in the order of the feed, each with the
/// number of replies under it. Page 1 starts at the head of the feed, and a
/// page number below 1 means page 1. A page past the end of the feed is
/// empty.
pub fn list_threads_page(store: &PostStore, page_number: u64, page_size: u64) -> (page: Vec<
    ThreadSummary,
>)
    ensures
        page@.len() <= page_size,
        page@.len() == window(
            feed_of(store@),
            page_offset(page_number as nat, page_size as nat),
            page_size as nat,
        ).len(),
        forall|k: int|
            0 <= k < page@.len() ==> {
                &&& (#[trigger] page@[k]).root@ == feed_of(store@)[page_offset(
                    page_number as nat,
                    page_size as nat,
                ) + k]
                &&& page@[k].reply_count == replies_of(store@, page@[k].root@.id).len()
            },
{
    let page_index: u64 = if page_number < 1 {
        0
    } else {
        page_number - 1
    };
    let ghost offset = page_offset(page_number as nat, page_size as nat);
    let ghost feed = feed_of(store@);
    let mut page: Vec<ThreadSummary> = Vec::new();
    let roots = match page_index.checked_mul(page_size) {
        Some(skipped) => store.list_roots(page_size, skipped),
        None => {
            // The page starts further in than any feed reaches.
            let held = store.len();
            proof {
                lemma_feed_length(store@);
            }
            assert(feed.len() <= held < offset);
            return page;
        },
    };
    let ghost shown = window(feed, offset, page_size as nat);
    assert(offset == page_index * page_size);
    assert(shown.len() <= page_size);
    assert forall|m: int| 0 <= m < shown.len() implies shown[m] == feed[offset + m] by {}
    for root in it: roots
        invariant
            views_of(it.seq()) == shown,
            page@.len() == it.index(),
            forall|m: int|
                0 <= m < page@.len() ==> {
                    &&& (#[trigger] page@[m]).root@ == shown[m]
                    &&& page@[m].reply_count == replies_of(store@, page@[m].root@.id).len()
                },
    {
        assert(views_of(it.seq())[it.index() as int] == root@);
        let reply_count = store.count_replies(root.id);
        page.push(ThreadSummary { root, reply_count });
    }
    page
}

/// The thread with the root `root_id`: the root and its replies, the latest
/// reply first. There is no such thread where `root_id` is the id of a reply
/// or of no post at all.
pub fn get_thread(store: &PostStore, root_id: u64) -> (outcome: Result<Thread, BoardError>)
    ensures
        match outcome {
            Ok(thread) => {
                &&& store@.contains(thread.root@)
                &&& thread.root@.id == root_id
                &&& thread.root@.is_root()
                &&& views_of(thread.replies@) == replies_of(store@, root_id as nat).reverse()
                &&& forall|k: int|
                    0 <= k < thread.replies@.len() ==> (#[trigger] thread.replies@[k])@.reply_sequence
                        == Some((thread.replies@.len() - k) as nat)
            },
            Err(e) => e == BoardError::NotFound && !has_root(store@, root_id as nat),
        },
{
    match store.get_by_id(root_id) {
        Some(root) => {
            proof {
                use_type_invariant(store);
            }
            if root.is_root() {
                let replies = store.list_replies(root_id);
                proof {
                    lemma_latest_first(store@, root_id as nat);
                    assert forall|k: int| 0 <= k < replies@.len() implies (#[trigger] replies@[k])@
                        == views_of(replies@)[k] by {}
                }
                Ok(Thread { root, replies })
            } else {
                proof {
                    lemma_one_row_per_id(store@, root@);
                }
                Err(BoardError::NotFound)
            }
        },
        None => Err(BoardError::NotFound),
    }
}

/// The number of the page before `page_number`, where there is one: page 1
/// is the first, and so is any page with a number below 1.
pub fn previous_page(page_number: u64) -> (previous: Option<u64>)
    ensures
        previous == if page_number > 1 {
            Some((page_number - 1) as u64)
        } else {
            None
        },
{
    if page_number > 1 {
        Some(page_number - 1)
    } else {
        None
    }
}

/// The number of the page after `page_number`. There always is one, whether
/// or not the feed reaches that far; only the greatest page number that can
/// be written has none.
pub fn next_page(page_number: u64) -> (next: Option<u64>)
    ensures
        next == if page_number < 1 {
            Some(2u64)
        } else if page_number < u64::MAX {
            Some((page_number + 1) as u64)
        } else {
            None
        },
{
    if page_number < 1 {
        Some(2)
    } else {
        page_number.checked_add(1)
    }
}

} // verus!
