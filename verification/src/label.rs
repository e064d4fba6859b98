//! Display ids: the short labels shown next to thread roots.
//!
//! A display id is decoration, not identity. It is drawn at random for each
//! root and nothing keeps two roots from drawing the same one; the id that
//! the store assigns is what tells posts apart.

use rand::distributions::{Alphanumeric, DistString};
use rand::rngs::ThreadRng;
use vstd::prelude::*;

verus! {

/// The number of characters of a display id.
pub const DISPLAY_ID_LENGTH: usize = 5;

/// An ASCII digit or letter.
pub open spec fn is_alphanumeric(c: char) -> bool {
    ||| '0' <= c <= '9'
    ||| 'A' <= c <= 'Z'
    ||| 'a' <= c <= 'z'
}

/// A display id: [`DISPLAY_ID_LENGTH`] ASCII digits and letters.
pub open spec fn is_display_id(s: Seq<char>) -> bool {
    &&& s.len() == DISPLAY_ID_LENGTH
    &&& forall|i: int| 0 <= i < s.len() ==> is_alphanumeric(#[trigger] s[i])
}

/// The random number generator of the current thread, `rand::rngs::ThreadRng`.
/// Nothing is known of what it holds.
#[verifier::external_type_specification]
#[verifier::external_body]
pub struct ExThreadRng(ThreadRng);

/// `rand::thread_rng` hands out the generator of the current thread.
///
/// Trusted, not proved: nothing is claimed of the result. The generator is
/// seeded from the operating system on its first use in a thread, and panics
/// there if the system gives it no seed.
pub assume_specification[ rand::thread_rng ]() -> (rng: ThreadRng);

/// Calls `DistString::sample_string` of `rand::distributions::Alphanumeric`.
///
/// Trusted, not proved: the result has `len` characters, each of them an
/// ASCII letter or digit. Which ones is left open.
#[verifier::external_body]
fn sample_alphanumeric(rng: &mut ThreadRng, len: usize) -> (s: String)
    requires
        len <= isize::MAX,
    ensures
        s@.len() == len,
        forall|i: int| 0 <= i < s@.len() ==> is_alphanumeric(#[trigger] s@[i]),
{
    Alphanumeric.sample_string(rng, len)
}

/// A fresh display id, drawn at random.
pub fn generate_display_id() -> (id: String)
    ensures
        is_display_id(id@),
{
    let mut rng = rand::thread_rng();
    sample_alphanumeric(&mut rng, DISPLAY_ID_LENGTH)
}

/// Decides [`is_alphanumeric`].
pub fn alphanumeric_char(c: char) -> (b: bool)
    ensures
        b == is_alphanumeric(c),
{
    ('0' <= c && c <= '9') || ('A' <= c && c <= 'Z') || ('a' <= c && c <= 'z')
}

/// Decides [`is_display_id`].
pub fn display_id_ok(s: &str) -> (b: bool)
    ensures
        b == is_display_id(s@),
{
    let mut n: usize = 0;
    for c in it: s.chars()
        invariant
            it.seq() == s@,
            n == it.index(),
            n <= DISPLAY_ID_LENGTH,
            forall|i: int| 0 <= i < it.index() ==> is_alphanumeric(#[trigger] s@[i]),
    {
        if n == DISPLAY_ID_LENGTH || !alphanumeric_char(c) {
            return false;
        }
        n = n + 1;
    }
    n == DISPLAY_ID_LENGTH
}

} // verus!
