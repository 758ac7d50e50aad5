//! The order in which related keywords are listed: by their text, letters
//! of either case standing for the same letter.

use vstd::prelude::*;
use crate::text::{chars_of, lower, to_lower_char};

verus! {

/// The order of a dictionary on sequences of characters: the first
/// character in which two sequences differ decides, and a sequence comes
/// before those that it begins.
pub open spec fn lex_le(a: Seq<char>, b: Seq<char>) -> bool
    decreases a.len(),
{
    if a.len() == 0 {
        true
    } else if b.len() == 0 {
        false
    } else if a[0] != b[0] {
        a[0] < b[0]
    } else {
        lex_le(a.drop_first(), b.drop_first())
    }
}

/// The order of related keywords: that of a dictionary on their lower-case
/// forms.
pub open spec fn keyword_le(a: Seq<char>, b: Seq<char>) -> bool {
    lex_le(lower(a), lower(b))
}

/// Of two sequences, one comes before the other or they are equal.
pub proof fn lemma_lex_le_total(a: Seq<char>, b: Seq<char>)
    ensures
        lex_le(a, b) || lex_le(b, a),
    decreases a.len(),
{
    if a.len() > 0 && b.len() > 0 && a[0] == b[0] {
        lemma_lex_le_total(a.drop_first(), b.drop_first());
    }
}

/// What comes before something that comes before a third comes before the
/// third.
pub proof fn lemma_lex_le_transitive(a: Seq<char>, b: Seq<char>, c: Seq<char>)
    requires
        lex_le(a, b),
        lex_le(b, c),
    ensures
        lex_le(a, c),
    decreases a.len(),
{
    if a.len() > 0 && b.len() > 0 && c.len() > 0 && a[0] == b[0] && b[0] == c[0] {
        lemma_lex_le_transitive(a.drop_first(), b.drop_first(), c.drop_first());
    }
}

/// Two sequences that agree in their first `n` characters stand in the
/// order of what follows those.
pub proof fn lemma_lex_le_skip(a: Seq<char>, b: Seq<char>, n: nat)
    requires
        n <= a.len(),
        n <= b.len(),
        forall|i: int| 0 <= i < n ==> a[i] == b[i],
    ensures
        lex_le(a, b) == lex_le(a.skip(n as int), b.skip(n as int)),
    decreases n,
{
    if n == 0 {
        assert(a.skip(0) == a);
        assert(b.skip(0) == b);
    } else {
        lemma_lex_le_skip(a.drop_first(), b.drop_first(), (n - 1) as nat);
        assert(a.drop_first().skip(n - 1) == a.skip(n as int));
        assert(b.drop_first().skip(n - 1) == b.skip(n as int));
    }
}

/// Computes [`keyword_le`].
pub fn keyword_before(a: &str, b: &str) -> (r: bool)
    ensures
        r == keyword_le(a@, b@),
{
    let x = chars_of(a);
    let y = chars_of(b);
    let ghost la = lower(a@);
    let ghost lb = lower(b@);
    let mut i: usize = 0;
    while i < x.len() && i < y.len()
        invariant
            x@ == a@,
            y@ == b@,
            la == lower(a@),
            lb == lower(b@),
            i <= x.len(),
            i <= y.len(),
            forall|k: int| 0 <= k < i ==> la[k] == lb[k],
        decreases x.len() - i,
    {
        let p = to_lower_char(x[i]);
        let q = to_lower_char(y[i]);
        if p != q {
            proof {
                lemma_lex_le_skip(la, lb, i as nat);
                assert(la.skip(i as int)[0] == p);
                assert(lb.skip(i as int)[0] == q);
            }
            return p < q;
        }
        i = i + 1;
    }
    proof {
        lemma_lex_le_skip(la, lb, i as nat);
        if i < x.len() {
            assert(lb.skip(i as int).len() == 0);
            assert(la.skip(i as int).len() > 0);
        } else {
            assert(la.skip(i as int).len() == 0);
        }
    }
    x.len() <= y.len()
}

} // verus!
