//! The one entity of the board: a post, which is either the root of a thread
//! or a reply under a root.

use vstd::prelude::*;

verus! {

/// A row of the board.
///
/// A root has no parent, no reply sequence and a display id. A reply names
/// its root in `parent_id`, carries its 1-based position within the thread
/// in `reply_sequence` and has no display id.
///
/// `timestamp` is in unix seconds. On a reply it is the time of creation and
/// never changes. On a root it is the time of the last activity: the time of
/// creation until the first reply arrives, then the time of the latest reply.
#[derive(Debug, PartialEq, Eq)]
pub struct Post {
    pub id: u64,
    pub content: String,
    pub parent_id: Option<u64>,
    pub reply_sequence: Option<u64>,
    pub display_id: Option<String>,
    pub timestamp: u64,
    pub attachment_path: Option<String>,
}

/// What a post says, as mathematical values.
pub struct PostView {
    pub id: nat,
    pub content: Seq<char>,
    pub parent_id: Option<nat>,
    pub reply_sequence: Option<nat>,
    pub display_id: Option<Seq<char>>,
    pub timestamp: nat,
    pub attachment_path: Option<Seq<char>>,
}

/// The characters of an optional text.
pub open spec fn text_of(s: Option<String>) -> Option<Seq<char>> {
    match s {
        Some(t) => Some(t@),
        None => None,
    }
}

/// An optional number as an optional natural number.
pub open spec fn nat_of(n: Option<u64>) -> Option<nat> {
    match n {
        Some(k) => Some(k as nat),
        None => None,
    }
}

impl View for Post {
    type V = PostView;

    open spec fn view(&self) -> PostView {
        PostView {
            id: self.id as nat,
            content: self.content@,
            parent_id: nat_of(self.parent_id),
            reply_sequence: nat_of(self.reply_sequence),
            display_id: text_of(self.display_id),
            timestamp: self.timestamp as nat,
            attachment_path: text_of(self.attachment_path),
        }
    }
}

impl PostView {
    /// A thread root: no parent, no position in a thread, a display id.
    pub open spec fn is_root(self) -> bool {
        &&& self.parent_id is None
        &&& self.reply_sequence is None
        &&& self.display_id is Some
    }

    /// A reply: a parent, a position in its thread, no display id.
    pub open spec fn is_reply(self) -> bool {
        &&& self.parent_id is Some
        &&& self.reply_sequence is Some
        &&& self.display_id is None
    }

    /// The same post with another timestamp.
    pub open spec fn at(self, time: nat) -> PostView {
        PostView { timestamp: time, ..self }
    }
}

/// The views of a run of posts, one for one.
pub open spec fn views_of(posts: Seq<Post>) -> Seq<PostView> {
    posts.map_values(|p: Post| p@)
}

/// A copy of an optional text.
pub fn copy_text(s: &Option<String>) -> (r: Option<String>)
    ensures
        text_of(r) == text_of(*s),
{
    match s {
        Some(t) => Some(t.clone()),
        None => None,
    }
}

impl Post {
    /// Whether this post is a thread root.
    pub fn is_root(&self) -> (b: bool)
        ensures
            b == self@.is_root(),
    {
        self.parent_id.is_none() && self.reply_sequence.is_none() && self.display_id.is_some()
    }

    /// Whether this post is a reply.
    pub fn is_reply(&self) -> (b: bool)
        ensures
            b == self@.is_reply(),
    {
        self.parent_id.is_some() && self.reply_sequence.is_some() && self.display_id.is_none()
    }
}

impl Clone for Post {
    fn clone(&self) -> (r: Post)
        ensures
            r@ == self@,
    {
        Post {
            id: self.id,
            content: self.content.clone(),
            parent_id: self.parent_id,
            reply_sequence: self.reply_sequence,
            display_id: copy_text(&self.display_id),
            timestamp: self.timestamp,
            attachment_path: copy_text(&self.attachment_path),
        }
    }
}

} // verus!
