//! Query templates and the substitution that fills them.
//!
//! A template is the text of a query with `%` wherever the parameter goes.
//! Nothing is escaped on the way in: the injection guard is what keeps a
//! parameter from breaking out of the place it is put in.

use vstd::prelude::*;
use vstd::string::StringExecFns;
use crate::guard::{is_safe, is_safe_char};

verus! {

/// The character that stands for the parameter in a template.
pub const PLACEHOLDER: char = '%';

/// The latest profiles of developers open to offers.
pub const SEARCH_TOP_USERS: &'static str =
    r#"{"size":24,"query":{"match":{"hireable":{"query":"true"}}},"sort":[{"report.timestamp":{"order":"desc"}}]}"#;

/// The profile of the developer with the login `%`.
pub const SEARCH_ENGINEER_BY_LOGIN: &'static str =
    r#"{"query":{"term":{"login.keyword":{"value":"%"}}}}"#;

/// What one character of a template becomes: the value where it is the
/// placeholder, else itself.
pub open spec fn filled(value: Seq<char>) -> spec_fn(char) -> Seq<char> {
    |c: char|
        if c == PLACEHOLDER {
            value
        } else {
            seq![c]
        }
}

/// `template` with `value` in place of every placeholder.
pub open spec fn substituted(template: Seq<char>, value: Seq<char>) -> Seq<char> {
    template.flat_map(filled(value))
}

/// Substituting into a template that ends with `c` substitutes into what
/// stands before `c` and then adds what `c` becomes.
pub proof fn lemma_substituted_push(template: Seq<char>, c: char, value: Seq<char>)
    ensures
        substituted(template.push(c), value) == substituted(template, value) + filled(value)(c),
{
    template.lemma_flat_map_push(filled(value), c);
}

/// Puts `value` in place of every placeholder of `template`. The template
/// holds a placeholder and the value has passed the injection guard; no
/// placeholder is left in the result.
pub fn substitute(template: &str, value: &str) -> (out: String)
    requires
        template@.contains(PLACEHOLDER),
        is_safe(value@),
    ensures
        out@ == substituted(template@, value@),
        !out@.contains(PLACEHOLDER),
{
    let mut out = String::new();
    assert(substituted(Seq::<char>::empty(), value@) == Seq::<char>::empty());
    for c in it: template.chars()
        invariant
            it.seq() == template@,
            is_safe(value@),
            out@ == substituted(template@.take(it.index() as int), value@),
            !out@.contains(PLACEHOLDER),
    {
        proof {
            assert(template@.take(it.index() + 1) == template@.take(it.index()).push(c));
            lemma_substituted_push(template@.take(it.index()), c, value@);
        }
        let ghost before = out@;
        if c == PLACEHOLDER {
            out.append(value);
            assert forall|i: int| 0 <= i < out@.len() implies out@[i] != PLACEHOLDER by {
                if i < before.len() {
                    assert(before.contains(before[i]));
                } else {
                    assert(is_safe_char(value@[i - before.len()]));
                }
            }
        } else {
            out.push(c);
            assert forall|i: int| 0 <= i < out@.len() implies out@[i] != PLACEHOLDER by {
                if i < before.len() {
                    assert(before.contains(before[i]));
                }
            }
        }
    }
    assert(template@.take(template@.len() as int) == template@);
    out
}

/// The query for the profile of the developer with this login.
pub fn engineer_by_login(login: &str) -> (query: String)
    requires
        is_safe(login@),
    ensures
        query@ == substituted(SEARCH_ENGINEER_BY_LOGIN@, login@),
{
    proof {
        reveal_strlit(r#"{"query":{"term":{"login.keyword":{"value":"%"}}}}"#);
        assert(SEARCH_ENGINEER_BY_LOGIN@[44] == PLACEHOLDER);
    }
    substitute(SEARCH_ENGINEER_BY_LOGIN, login)
}

} // verus!
