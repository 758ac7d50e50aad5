//! The injection guard: the only characters that may be spliced into a
//! query body are `#`, `-`, `.`, `_`, the ASCII digits and the ASCII letters.

use vstd::prelude::*;

verus! {

/// True for the characters that a query parameter may hold.
pub open spec fn is_safe_char(c: char) -> bool {
    c == '#' || c == '-' || c == '.' || c == '_' || ('0' <= c <= '9') || ('a' <= c <= 'z') || ('A'
        <= c <= 'Z')
}

/// True when every character of `s` is one a query parameter may hold.
pub open spec fn is_safe(s: Seq<char>) -> bool {
    forall|i: int| 0 <= i < s.len() ==> is_safe_char(#[trigger] s[i])
}

/// Decides whether one character may stand in a query parameter.
pub fn safe_char(c: char) -> (b: bool)
    ensures
        b == is_safe_char(c),
{
    c == '#' || c == '-' || c == '.' || c == '_' || ('0' <= c && c <= '9') || ('a' <= c && c <= 'z')
        || ('A' <= c && c <= 'Z')
}

/// The injection guard. Returns `true` when `value` holds a character that
/// must not reach a query body.
pub fn is_unsafe(value: &str) -> (b: bool)
    ensures
        b == !is_safe(value@),
{
    let mut found = false;
    for c in it: value.chars()
        invariant
            it.seq() == value@,
            found == !is_safe(value@.take(it.index() as int)),
    {
        assert(value@.take(it.index() + 1) == value@.take(it.index()).push(c));
        if !safe_char(c) {
            found = true;
            assert(!is_safe_char(value@.take(it.index() + 1)[it.index()]));
        }
    }
    assert(value@.take(value@.len() as int) == value@);
    found
}

/// True for the characters that a related keyword may hold: the safe
/// characters but `.` and `#`.
pub open spec fn is_keyword_char(c: char) -> bool {
    c == '-' || c == '_' || ('0' <= c <= '9') || ('a' <= c <= 'z') || ('A' <= c <= 'Z')
}

/// True when every character of `s` is one a related keyword may hold.
pub open spec fn is_clean_keyword(s: Seq<char>) -> bool {
    forall|i: int| 0 <= i < s.len() ==> is_keyword_char(#[trigger] s[i])
}

/// A clean keyword passes the injection guard.
pub proof fn lemma_clean_keyword_is_safe(s: Seq<char>)
    requires
        is_clean_keyword(s),
    ensures
        is_safe(s),
{
    assert forall|i: int| 0 <= i < s.len() implies is_safe_char(#[trigger] s[i]) by {
        assert(is_keyword_char(s[i]));
    }
}

/// Decides whether one character may stand in a related keyword.
pub fn keyword_char(c: char) -> (b: bool)
    ensures
        b == is_keyword_char(c),
{
    c == '-' || c == '_' || ('0' <= c && c <= '9') || ('a' <= c && c <= 'z') || ('A' <= c && c
        <= 'Z')
}

/// Returns `true` when `keyword` holds a character that no related keyword
/// may hold.
pub fn is_noisy_keyword(keyword: &str) -> (b: bool)
    ensures
        b == !is_clean_keyword(keyword@),
{
    let mut found = false;
    for c in it: keyword.chars()
        invariant
            it.seq() == keyword@,
            found == !is_clean_keyword(keyword@.take(it.index() as int)),
    {
        assert(keyword@.take(it.index() + 1) == keyword@.take(it.index()).push(c));
        if !keyword_char(c) {
            found = true;
            assert(!is_keyword_char(keyword@.take(it.index() + 1)[it.index()]));
        }
    }
    assert(keyword@.take(keyword@.len() as int) == keyword@);
    found
}

} // verus!
