//! Text as the rules read it: lengths in characters, letters without regard
//! to case, and the form of a member identifier.

use vstd::prelude::*;
use vstd::string::*;
use crate::model::Text;

verus! {

broadcast use vstd::string::group_string_axioms;

/// The lowercase mapping of a character by the Unicode character database:
/// one character for most, up to three for a few, the character itself
/// where it has no lowercase form. It follows no locale.
pub uninterp spec fn lowercase_of(c: char) -> Seq<char>;

/// Calls `char::to_lowercase` of the standard library and collects what its
/// iterator yields. The contract claims that this is the lowercase mapping
/// of `c`, and so depends on nothing but `c`.
#[verifier::external_body]
fn lowercase(c: char) -> (lower: Vec<char>)
    ensures
        lower@ == lowercase_of(c),
{
    c.to_lowercase().collect()
}

/// A text with the case of its letters set aside: every character replaced
/// by its lowercase mapping. This holds for letters of every script, not
/// for those of the Latin alphabet alone.
pub open spec fn fold_text(t: Text) -> Seq<char>
    decreases t.len(),
{
    if t.len() == 0 {
        Seq::empty()
    } else {
        fold_text(t.drop_last()) + lowercase_of(t.last())
    }
}

/// Whether `needle` stands in `hay` at position `at`.
pub open spec fn occurs_at(hay: Seq<char>, needle: Seq<char>, at: int) -> bool {
    0 <= at && at + needle.len() <= hay.len() && hay.subrange(at, at + needle.len()) == needle
}

/// Whether `needle` stands somewhere in `hay`.
pub open spec fn contains_run(hay: Seq<char>, needle: Seq<char>) -> bool {
    exists|at: int| occurs_at(hay, needle, at)
}

/// Whether `needle` stands somewhere in `hay`, letters compared without
/// regard to case. The empty text stands in every text.
pub open spec fn contains_ignoring_case(hay: Text, needle: Text) -> bool {
    contains_run(fold_text(hay), fold_text(needle))
}

/// Sets the case of a text aside.
pub fn folded(s: &str) -> (out: Vec<char>)
    ensures
        out@ == fold_text(s@),
{
    let mut out: Vec<char> = Vec::new();
    for c in it: s.chars()
        invariant
            it.seq() == s@,
            out@ == fold_text(s@.take(it.index() as int)),
    {
        let mut lower = lowercase(c);
        proof {
            let i = it.index() as int;
            assert(s@.take(i + 1).drop_last() =~= s@.take(i));
            assert(s@.take(i + 1).last() == c);
        }
        out.append(&mut lower);
    }
    proof {
        assert(s@.take(s@.len() as int) =~= s@);
    }
    out
}

/// Whether `needle` stands in `hay` at position `at`.
fn matches_at(hay: &Vec<char>, needle: &Vec<char>, at: usize) -> (m: bool)
    requires
        at + needle.len() <= hay.len(),
    ensures
        m == occurs_at(hay@, needle@, at as int),
{
    let mut k: usize = 0;
    while k < needle.len()
        invariant
            k <= needle.len(),
            at + needle.len() <= hay.len(),
            forall|j: int| 0 <= j < k ==> hay@[at + j] == needle@[j],
        decreases needle.len() - k,
    {
        if hay[at + k] != needle[k] {
            proof {
                assert(hay@.subrange(at as int, at + needle.len())[k as int] == hay@[at + k]);
            }
            return false;
        }
        k += 1;
    }
    proof {
        assert(hay@.subrange(at as int, at + needle.len()) =~= needle@);
    }
    true
}

/// Whether the characters of `needle` stand somewhere in `hay`, one after
/// the other and compared as they are.
pub fn find_run(hay: &Vec<char>, needle: &Vec<char>) -> (found: bool)
    ensures
        found == contains_run(hay@, needle@),
{
    if needle.len() > hay.len() {
        return false;
    }
    let last: usize = hay.len() - needle.len();
    let mut at: usize = 0;
    loop
        invariant
            at <= last,
            last == hay.len() - needle.len(),
            forall|a: int| 0 <= a < at ==> !occurs_at(hay@, needle@, a),
        decreases last - at,
    {
        if matches_at(hay, needle, at) {
            return true;
        }
        if at == last {
            return false;
        }
        at += 1;
    }
}

/// Whether `needle` stands somewhere in `hay`, letters compared without
/// regard to case.
pub fn contains_ignore_case(hay: &str, needle: &str) -> (found: bool)
    ensures
        found == contains_ignoring_case(hay@, needle@),
{
    let h = folded(hay);
    let n = folded(needle);
    find_run(&h, &n)
}

/// The number of characters of a text.
pub fn char_count(s: &str) -> (n: usize)
    ensures
        n == s@.len(),
{
    s.unicode_len()
}

/// The most characters a member identifier may have.
pub const MAX_USERNAME_CHARS: usize = 32;

/// Whether a character may stand in a member identifier: a small letter
/// `a` to `z`, a digit, a hyphen or an underscore.
pub open spec fn username_char(c: char) -> bool {
    ('a' <= c && c <= 'z') || ('0' <= c && c <= '9') || c == '-' || c == '_'
}

/// The form of a member identifier: between one and thirty-two characters,
/// each a small letter, a digit, a hyphen or an underscore.
pub open spec fn valid_username(name: Text) -> bool {
    1 <= name.len() <= MAX_USERNAME_CHARS && forall|i: int|
        0 <= i < name.len() ==> username_char(#[trigger] name[i])
}

/// Whether one character may stand in a member identifier.
fn is_username_char(c: char) -> (ok: bool)
    ensures
        ok == username_char(c),
{
    let n: u32 = c as u32;
    (97 <= n && n <= 122) || (48 <= n && n <= 57) || n == 45 || n == 95
}

/// Whether `username` has the form of a member identifier.
pub fn is_valid_username(username: &str) -> (ok: bool)
    ensures
        ok == valid_username(username@),
{
    let mut count: usize = 0;
    for c in it: username.chars()
        invariant
            it.seq() == username@,
            count == it.index(),
            count <= MAX_USERNAME_CHARS,
            forall|i: int| 0 <= i < it.index() ==> username_char(#[trigger] username@[i]),
    {
        if count == MAX_USERNAME_CHARS || !is_username_char(c) {
            return false;
        }
        count += 1;
    }
    count >= 1
}

} // verus!
