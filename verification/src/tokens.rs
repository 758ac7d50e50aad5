//! Splitting a raw search string into search terms.
//!
//! A token is a maximal run of characters that the injection guard lets
//! through; every other character separates tokens. Tokens are lower-cased,
//! consecutive repetitions are dropped, and each is trimmed of `.` and `-` at
//! both ends.

use vstd::prelude::*;
use crate::guard::{is_safe, is_safe_char, safe_char};
use crate::text::{
    chars_of, in_class, leading_run, lemma_trim_of, lemma_views_push, lower, string_of, to_lower,
    trim_class, trim_of, views, CharClass,
};

verus! {

/// The length of the longest prefix of `s` made of safe characters.
pub open spec fn safe_run(s: Seq<char>) -> nat
    decreases s.len(),
{
    if s.len() > 0 && is_safe_char(s[0]) {
        1 + safe_run(s.drop_first())
    } else {
        0
    }
}

/// The safe run never reaches past the end of the sequence.
pub proof fn lemma_safe_run_bound(s: Seq<char>)
    ensures
        safe_run(s) <= s.len(),
    decreases s.len(),
{
    if s.len() > 0 && is_safe_char(s[0]) {
        lemma_safe_run_bound(s.drop_first());
    }
}

/// A run of `n` safe characters that ends the sequence or is followed by an
/// unsafe character is the whole safe run.
pub proof fn lemma_safe_run(s: Seq<char>, n: nat)
    requires
        n <= s.len(),
        forall|i: int| 0 <= i < n ==> is_safe_char(s[i]),
        n == s.len() || !is_safe_char(s[n as int]),
    ensures
        safe_run(s) == n,
    decreases n,
{
    if n > 0 {
        lemma_safe_run(s.drop_first(), (n - 1) as nat);
    }
}

/// The tokens of `s`: its maximal runs of safe characters, from left to
/// right.
pub open spec fn tokens(s: Seq<char>) -> Seq<Seq<char>>
    decreases s.len(),
{
    if s.len() == 0 {
        Seq::empty()
    } else if !is_safe_char(s[0]) {
        tokens(s.drop_first())
    } else {
        let n = safe_run(s);
        proof {
            lemma_safe_run_bound(s);
        }
        seq![s.take(n as int)] + tokens(s.skip(n as int))
    }
}

/// Every token is non-empty and passes the injection guard.
pub proof fn lemma_tokens_safe(s: Seq<char>)
    ensures
        forall|i: int|
            0 <= i < tokens(s).len() ==> (#[trigger] tokens(s)[i]).len() > 0 && is_safe(
                tokens(s)[i],
            ),
    decreases s.len(),
{
    if s.len() == 0 {
        assert(tokens(s).len() == 0);
    } else if !is_safe_char(s[0]) {
        lemma_tokens_safe(s.drop_first());
        assert(tokens(s) == tokens(s.drop_first()));
    } else {
        let n = safe_run(s);
        lemma_safe_run_bound(s);
        lemma_safe_run_prefix(s);
        let rest = tokens(s.skip(n as int));
        lemma_tokens_safe(s.skip(n as int));
        assert(tokens(s) == seq![s.take(n as int)] + rest);
        assert forall|i: int| 0 <= i < tokens(s).len() implies (#[trigger] tokens(s)[i]).len() > 0
            && is_safe(tokens(s)[i]) by {
            if i > 0 {
                assert(tokens(s)[i] == rest[i - 1]);
            }
        }
    }
}

/// Every character within the safe run is safe.
pub proof fn lemma_safe_run_prefix(s: Seq<char>)
    ensures
        is_safe(s.take(safe_run(s) as int)),
        safe_run(s) <= s.len(),
    decreases s.len(),
{
    lemma_safe_run_bound(s);
    if s.len() > 0 && is_safe_char(s[0]) {
        let t = s.drop_first();
        lemma_safe_run_prefix(t);
        let n = safe_run(s);
        assert forall|i: int| 0 <= i < n implies is_safe_char(#[trigger] s.take(n as int)[i]) by {
            if i > 0 {
                assert(s.take(n as int)[i] == t.take(n - 1)[i - 1]);
            }
        }
    }
}

/// The test for a safe character, as a function value.
pub open spec fn safe_chars() -> spec_fn(char) -> bool {
    |c: char| is_safe_char(c)
}

/// Keeping the safe characters of a safe sequence keeps all of it.
proof fn lemma_filter_safe(s: Seq<char>)
    requires
        is_safe(s),
    ensures
        s.filter(safe_chars()) == s,
    decreases s.len(),
{
    reveal(Seq::filter);
    if s.len() > 0 {
        assert(is_safe_char(s[s.len() - 1]));
        lemma_filter_safe(s.drop_last());
        assert(s.drop_last().push(s.last()) == s);
    }
}

/// Tokenizing drops the separators and nothing else: the tokens, one after
/// the other, are the safe characters of the text in their order.
pub proof fn lemma_tokens_keep_safe_chars(s: Seq<char>)
    ensures
        tokens(s).flatten() == s.filter(safe_chars()),
    decreases s.len(),
{
    if s.len() == 0 {
        reveal(Seq::filter);
    } else if !is_safe_char(s[0]) {
        let head = seq![s[0]];
        lemma_tokens_keep_safe_chars(s.drop_first());
        assert(s == head + s.drop_first());
        Seq::filter_distributes_over_add(head, s.drop_first(), safe_chars());
        assert(head.filter(safe_chars()) == Seq::<char>::empty()) by {
            reveal_with_fuel(Seq::filter, 2);
            assert(head.drop_last().len() == 0);
        }
        assert(Seq::<char>::empty() + s.drop_first().filter(safe_chars()) == s.drop_first().filter(
            safe_chars(),
        ));
    } else {
        let n = safe_run(s) as int;
        let first = s.take(n);
        let rest = s.skip(n);
        lemma_safe_run_prefix(s);
        lemma_tokens_keep_safe_chars(rest);
        assert(s == first + rest);
        Seq::filter_distributes_over_add(first, rest, safe_chars());
        lemma_filter_safe(first);
        vstd::seq_lib::lemma_flatten_concat(seq![first], tokens(rest));
        seq![first].lemma_flatten_one_element();
    }
}

/// Splits `raw` into its tokens.
pub fn tokenize(raw: &str) -> (out: Vec<String>)
    ensures
        views(out@) == tokens(raw@),
{
    let chars = chars_of(raw);
    let n = chars.len();
    let mut out: Vec<String> = Vec::new();
    let mut i: usize = 0;
    assert(chars@.skip(0) == chars@);
    assert(views(out@) + tokens(chars@) == tokens(chars@));
    while i < n
        invariant
            i <= n == chars.len(),
            chars@ == raw@,
            views(out@) + tokens(chars@.skip(i as int)) == tokens(chars@),
        decreases n - i,
    {
        let ghost rest = chars@.skip(i as int);
        if safe_char(chars[i]) {
            let start = i;
            while i < n && safe_char(chars[i])
                invariant
                    start <= i <= n == chars.len(),
                    forall|k: int| start <= k < i ==> is_safe_char(chars@[k]),
                decreases n - i,
            {
                i = i + 1;
            }
            let token = string_of(&chars, start, i);
            proof {
                lemma_safe_run(rest, (i - start) as nat);
                assert(rest.take(i - start) == chars@.subrange(start as int, i as int));
                assert(rest.skip(i - start) == chars@.skip(i as int));
                lemma_views_push(out@, token);
                assert(views(out@).push(token@) + tokens(chars@.skip(i as int)) == views(out@) + (
                seq![token@] + tokens(chars@.skip(i as int))));
            }
            out.push(token);
        } else {
            i = i + 1;
            assert(rest.drop_first() == chars@.skip(i as int));
        }
    }
    assert(tokens(chars@.skip(n as int)) == Seq::<Seq<char>>::empty());
    assert(views(out@) + Seq::<Seq<char>>::empty() == views(out@));
    out
}

/// `s` without the elements that repeat the one just before them.
pub open spec fn dedup(s: Seq<Seq<char>>) -> Seq<Seq<char>>
    decreases s.len(),
{
    if s.len() == 0 {
        s
    } else if s.len() >= 2 && s[s.len() - 2] == s.last() {
        dedup(s.drop_last())
    } else {
        dedup(s.drop_last()).push(s.last())
    }
}

/// What is left holds no element twice in a row, and ends as `s` ends.
pub proof fn lemma_dedup_no_repeats(s: Seq<Seq<char>>)
    ensures
        forall|i: int| 0 <= i < dedup(s).len() - 1 ==> #[trigger] dedup(s)[i] != dedup(s)[i + 1],
        s.len() > 0 ==> dedup(s).len() > 0 && dedup(s).last() == s.last(),
    decreases s.len(),
{
    if s.len() > 0 {
        lemma_dedup_no_repeats(s.drop_last());
    }
}

/// True for the characters that are taken off the ends of a token.
pub open spec fn is_edge_char(c: char) -> bool {
    c == '.' || c == '-'
}

/// A search term: the token without its longest prefix and its longest
/// suffix made of `.` and `-`.
pub open spec fn clean_term(token: Seq<char>) -> Seq<char> {
    trim_of(token, CharClass::Either('.', '-'))
}

/// The search terms of a raw search string, in the order in which they
/// first occur.
pub open spec fn search_terms(raw: Seq<char>) -> Seq<Seq<char>> {
    dedup(tokens(raw).map_values(|t: Seq<char>| lower(t))).map_values(
        |t: Seq<char>| clean_term(t),
    )
}

/// Lower-casing keeps a safe character safe.
pub proof fn lemma_lower_safe(s: Seq<char>)
    requires
        is_safe(s),
    ensures
        is_safe(lower(s)),
{
    assert forall|i: int| 0 <= i < lower(s).len() implies is_safe_char(#[trigger] lower(s)[i]) by {
        assert(is_safe_char(s[i]));
    }
}

/// What is left of a token after trimming is a stretch of it that neither
/// begins nor ends with `.` or `-`; it is safe where the token is.
pub proof fn lemma_clean_safe(s: Seq<char>)
    ensures
        clean_term(s).len() > 0 ==> !is_edge_char(clean_term(s)[0]) && !is_edge_char(
            clean_term(s).last(),
        ),
        is_safe(s) ==> is_safe(clean_term(s)),
{
    let class = CharClass::Either('.', '-');
    lemma_trim_of(s, class);
    let t = clean_term(s);
    if t.len() > 0 {
        assert(in_class(class, t[0]) == is_edge_char(t[0]));
        assert(in_class(class, t.last()) == is_edge_char(t.last()));
    }
    if is_safe(s) {
        let a = leading_run(s, class) as int;
        assert forall|i: int| 0 <= i < t.len() implies is_safe_char(#[trigger] t[i]) by {
            assert(t[i] == s[a + i]);
        }
    }
}

/// Every element of `dedup(s)` is an element of `s`.
pub proof fn lemma_dedup_elements(s: Seq<Seq<char>>)
    ensures
        forall|i: int| 0 <= i < dedup(s).len() ==> s.contains(#[trigger] dedup(s)[i]),
    decreases s.len(),
{
    if s.len() > 0 {
        let d = dedup(s.drop_last());
        lemma_dedup_elements(s.drop_last());
        assert forall|i: int| 0 <= i < dedup(s).len() implies s.contains(
            #[trigger] dedup(s)[i],
        ) by {
            if i < d.len() {
                assert(s.drop_last().contains(d[i]));
                let k = choose|k: int| 0 <= k < s.drop_last().len() && s.drop_last()[k] == d[i];
                assert(s[k] == d[i]);
            } else {
                assert(dedup(s)[i] == s[s.len() - 1]);
            }
        }
    }
}

/// Every search term passes the injection guard.
pub proof fn lemma_search_terms_safe(raw: Seq<char>)
    ensures
        forall|i: int|
            0 <= i < search_terms(raw).len() ==> is_safe(#[trigger] search_terms(raw)[i]),
{
    let lowered = tokens(raw).map_values(|t: Seq<char>| lower(t));
    let kept = dedup(lowered);
    lemma_tokens_safe(raw);
    lemma_dedup_elements(lowered);
    assert forall|i: int| 0 <= i < search_terms(raw).len() implies is_safe(
        #[trigger] search_terms(raw)[i],
    ) by {
        assert(lowered.contains(kept[i]));
        let k = choose|k: int| 0 <= k < lowered.len() && lowered[k] == kept[i];
        assert(is_safe(tokens(raw)[k]));
        lemma_lower_safe(tokens(raw)[k]);
        lemma_clean_safe(kept[i]);
    }
}

/// Lower-cases the tokens and drops those that repeat the one just before.
pub fn normalise(tokens: &Vec<String>) -> (out: Vec<String>)
    ensures
        views(out@) == dedup(views(tokens@).map_values(|t: Seq<char>| lower(t))),
{
    let ghost lowered = views(tokens@).map_values(|t: Seq<char>| lower(t));
    let mut out: Vec<String> = Vec::new();
    let mut last = String::new();
    let mut i: usize = 0;
    assert(lowered.take(0) == Seq::<Seq<char>>::empty());
    while i < tokens.len()
        invariant
            i <= tokens.len(),
            lowered == views(tokens@).map_values(|t: Seq<char>| lower(t)),
            views(out@) == dedup(lowered.take(i as int)),
            i > 0 ==> last@ == lowered[i - 1],
        decreases tokens.len() - i,
    {
        let term = to_lower(tokens[i].as_str());
        proof {
            let next = lowered.take(i + 1);
            assert(next.drop_last() == lowered.take(i as int));
            assert(next.last() == term@);
            if i > 0 {
                assert(next[next.len() - 2] == last@);
            }
        }
        if i == 0 || term != last {
            proof {
                lemma_views_push(out@, term);
            }
            out.push(term.clone());
        }
        last = term;
        i = i + 1;
    }
    assert(lowered.take(tokens.len() as int) == lowered);
    out
}

/// Trims a normalised token into a search term. A term that is not empty
/// neither begins nor ends with `.` or `-`.
pub fn clean(token: &str) -> (term: String)
    ensures
        term@ == clean_term(token@),
        term@.len() > 0 ==> !is_edge_char(term@[0]) && !is_edge_char(term@.last()),
{
    let term = trim_class(token, CharClass::Either('.', '-'));
    proof {
        lemma_clean_safe(token@);
    }
    term
}

/// The search terms of `raw`.
pub fn split_terms(raw: &str) -> (terms: Vec<String>)
    ensures
        views(terms@) == search_terms(raw@),
        forall|i: int| 0 <= i < terms.len() ==> is_safe(#[trigger] terms[i]@),
{
    let kept = normalise(&tokenize(raw));
    let mut terms: Vec<String> = Vec::new();
    let mut i: usize = 0;
    while i < kept.len()
        invariant
            i <= kept.len(),
            views(terms@) == views(kept@).take(i as int).map_values(|t: Seq<char>| clean_term(t)),
        decreases kept.len() - i,
    {
        let term = clean(kept[i].as_str());
        proof {
            lemma_views_push(terms@, term);
            assert(views(kept@).take(i + 1).map_values(|t: Seq<char>| clean_term(t)) == views(
                kept@,
            ).take(i as int).map_values(|t: Seq<char>| clean_term(t)).push(term@));
        }
        terms.push(term);
        i = i + 1;
    }
    proof {
        assert(views(kept@).take(kept.len() as int) == views(kept@));
        lemma_search_terms_safe(raw@);
        assert(views(terms@) == search_terms(raw@));
        assert forall|i: int| 0 <= i < terms.len() implies is_safe(#[trigger] terms[i]@) by {
            assert(terms[i]@ == views(terms@)[i]);
            assert(is_safe(search_terms(raw@)[i]));
        }
    }
    terms
}

} // verus!
