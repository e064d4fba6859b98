//! Small predicates on text: blank bodies and letter case.

use vstd::prelude::*;
use vstd::std_specs::iter::IteratorSpec;

verus! {

/// Whether `c` is white space: the characters with Unicode's `White_Space`
/// property, which are the ones that trimming a string removes.
pub open spec fn is_whitespace(c: char) -> bool {
    let n = c as u32;
    ||| 0x09 <= n <= 0x0D
    ||| n == 0x20
    ||| n == 0x85
    ||| n == 0xA0
    ||| n == 0x1680
    ||| 0x2000 <= n <= 0x200A
    ||| n == 0x2028
    ||| n == 0x2029
    ||| n == 0x202F
    ||| n == 0x205F
    ||| n == 0x3000
}

/// A text is blank when nothing would be left of it after trimming: every
/// character of it is white space. The empty text is blank.
pub open spec fn is_blank(s: Seq<char>) -> bool {
    forall|i: int| 0 <= i < s.len() ==> is_whitespace(#[trigger] s[i])
}

/// Decides [`is_whitespace`].
pub fn whitespace_char(c: char) -> (b: bool)
    ensures
        b == is_whitespace(c),
{
    let n: u32 = c as u32;
    (0x09 <= n && n <= 0x0D) || n == 0x20 || n == 0x85 || n == 0xA0 || n == 0x1680 || (0x2000 <= n
        && n <= 0x200A) || n == 0x2028 || n == 0x2029 || n == 0x202F || n == 0x205F || n == 0x3000
}

/// Decides [`is_blank`] in one pass over the text.
pub fn blank(s: &str) -> (b: bool)
    ensures
        b == is_blank(s@),
{
    for c in it: s.chars()
        invariant
            it.seq() == s@,
            forall|i: int| 0 <= i < it.index() ==> is_whitespace(#[trigger] s@[i]),
    {
        if !whitespace_char(c) {
            return false;
        }
    }
    true
}

/// The lower-case form of an ASCII capital letter; any other character is
/// left as it is.
pub open spec fn lower(c: char) -> char {
    if 'A' <= c <= 'Z' {
        ((c as u32) + 32) as char
    } else {
        c
    }
}

/// Whether two texts are the same but for the case of their ASCII letters.
pub open spec fn same_ignoring_case(a: Seq<char>, b: Seq<char>) -> bool {
    &&& a.len() == b.len()
    &&& forall|i: int| 0 <= i < a.len() ==> lower(#[trigger] a[i]) == lower(b[i])
}

/// Computes [`lower`].
pub fn lower_char(c: char) -> (l: char)
    ensures
        l == lower(c),
{
    if 'A' <= c && c <= 'Z' {
        let n: u8 = c as u8;
        (n + 32) as char
    } else {
        c
    }
}

/// Decides [`same_ignoring_case`] in one pass over both texts.
pub fn matches_ignoring_case(a: &str, b: &str) -> (same: bool)
    ensures
        same == same_ignoring_case(a@, b@),
{
    let mut rest = b.chars();
    for c in it: a.chars()
        invariant
            it.seq() == a@,
            rest.obeys_prophetic_iter_laws(),
            it.index() <= b@.len(),
            rest.remaining() == b@.skip(it.index() as int),
            forall|j: int| 0 <= j < it.index() ==> lower(#[trigger] a@[j]) == lower(b@[j]),
    {
        match rest.next() {
            Some(d) => {
                assert(d == b@[it.index() as int]);
                assert(b@.skip(it.index() as int).drop_first() =~= b@.skip(it.index() + 1));
                if lower_char(c) != lower_char(d) {
                    return false;
                }
            },
            None => {
                return false;
            },
        }
    }
    match rest.next() {
        Some(_) => false,
        None => {
            assert(b@.skip(a@.len() as int).len() == 0);
            true
        },
    }
}

} // verus!
