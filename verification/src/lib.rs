//! The core of a small anonymous message board: posts, threads of replies,
//! the activity-ordered feed and the policy for attached media.
//!
//! Visitors start threads, reply to them and read a feed in which the thread
//! with the latest activity comes first. The modules:
//!
//! - [`post`]: the post and its mathematical view.
//! - [`table`]: the table of posts as a sequence of views, its rules, and
//!   the two readings of it, the replies of a thread and the feed.
//! - [`store`]: the post store, which keeps the table and answers queries.
//! - [`board`]: the operations that visitors reach.
//! - [`attachment`]: which uploads are taken and how they are named.
//! - [`label`], [`clock`]: display ids and timestamps.
//! - [`text`]: predicates on text.
//! - [`laws`]: what holds of every board.
//!
//! Everything is verified but the calls that draw random characters, in
//! [`label`], and those that read the system clock, in [`clock`]. Each of
//! them stands behind a declaration that says what is taken on trust.

use vstd::prelude::*;

pub mod attachment;
pub mod board;
pub mod clock;
pub mod label;
pub mod laws;
pub mod post;
pub mod store;
pub mod table;
pub mod text;

verus! {

/// The text shown to a visitor whose request body went over the size limit.
pub fn payload_too_large() -> (message: &'static str)
    ensures
        message@ == "Payload too large! The file you are trying to upload exceeds the server's limit."@,
{
    "Payload too large! The file you are trying to upload exceeds the server's limit."
}

} // verus!
