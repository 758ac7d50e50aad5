//! Small verified helpers on strings, stated over their views as sequences
//! of characters.

use vstd::prelude::*;

verus! {

/// `String::push` appends one character to the end of the string.
pub assume_specification[ String::push ](s: &mut String, ch: char)
    ensures
        final(s)@ == old(s)@.push(ch),
;

/// The views of a sequence of strings, in order.
pub open spec fn views(v: Seq<String>) -> Seq<Seq<char>> {
    v.map_values(|s: String| s@)
}

/// Pushing a string onto a sequence pushes its view onto the views.
pub proof fn lemma_views_push(v: Seq<String>, s: String)
    ensures
        views(v.push(s)) == views(v).push(s@),
{
    assert(views(v.push(s)) =~= views(v).push(s@));
}

/// The characters of `s`, in order.
pub fn chars_of(s: &str) -> (v: Vec<char>)
    ensures
        v@ == s@,
{
    let mut v: Vec<char> = Vec::new();
    for c in it: s.chars()
        invariant
            it.seq() == s@,
            v@ == s@.take(it.index() as int),
    {
        assert(s@.take(it.index() + 1) == s@.take(it.index()).push(c));
        v.push(c);
    }
    assert(s@.take(s@.len() as int) == s@);
    v
}

/// The string made of the characters `chars[from..to]`.
pub fn string_of(chars: &Vec<char>, from: usize, to: usize) -> (s: String)
    requires
        from <= to <= chars.len(),
    ensures
        s@ == chars@.subrange(from as int, to as int),
{
    let mut s = String::new();
    let mut i: usize = from;
    while i < to
        invariant
            from <= i <= to <= chars.len(),
            s@ == chars@.subrange(from as int, i as int),
        decreases to - i,
    {
        s.push(chars[i]);
        i = i + 1;
        assert(chars@.subrange(from as int, i as int) == chars@.subrange(from as int, i - 1).push(
            chars@[i - 1],
        ));
    }
    s
}

/// True when `c` occurs in `s`.
pub fn contains_char(s: &str, c: char) -> (b: bool)
    ensures
        b == s@.contains(c),
{
    let mut found = false;
    for d in it: s.chars()
        invariant
            it.seq() == s@,
            found == s@.take(it.index() as int).contains(c),
    {
        assert(s@.take(it.index() + 1) == s@.take(it.index()).push(d));
        if d == c {
            found = true;
            assert(s@.take(it.index() + 1)[it.index()] == c);
        }
    }
    assert(s@.take(s@.len() as int) == s@);
    found
}

/// The lower-case form of an ASCII upper-case letter; any other character
/// stands for itself.
pub open spec fn lower_char(c: char) -> char {
    if 'A' <= c <= 'Z' {
        ((c as u8) + 32) as char
    } else {
        c
    }
}

/// `s` with every ASCII upper-case letter replaced by its lower-case form.
pub open spec fn lower(s: Seq<char>) -> Seq<char> {
    s.map_values(|c: char| lower_char(c))
}

/// Computes [`lower_char`].
pub fn to_lower_char(c: char) -> (l: char)
    ensures
        l == lower_char(c),
{
    if 'A' <= c && c <= 'Z' {
        ((c as u8) + 32) as char
    } else {
        c
    }
}

/// Computes [`lower`].
pub fn to_lower(s: &str) -> (l: String)
    ensures
        l@ == lower(s@),
{
    let mut l = String::new();
    for c in it: s.chars()
        invariant
            it.seq() == s@,
            l@ == lower(s@.take(it.index() as int)),
    {
        assert(s@.take(it.index() + 1) == s@.take(it.index()).push(c));
        assert(lower(s@.take(it.index()).push(c)) == lower(s@.take(it.index())).push(
            lower_char(c),
        ));
        l.push(to_lower_char(c));
    }
    assert(s@.take(s@.len() as int) == s@);
    l
}

/// True for the characters that count as white space: the characters with
/// the Unicode property `White_Space`.
pub open spec fn is_white_space(c: char) -> bool {
    ||| '\u{9}' <= c <= '\u{d}'
    ||| c == ' '
    ||| c == '\u{85}'
    ||| c == '\u{a0}'
    ||| c == '\u{1680}'
    ||| '\u{2000}' <= c <= '\u{200a}'
    ||| c == '\u{2028}'
    ||| c == '\u{2029}'
    ||| c == '\u{202f}'
    ||| c == '\u{205f}'
    ||| c == '\u{3000}'
}

/// A set of characters to take off the ends of a text.
#[derive(Clone, Copy, Debug, PartialEq, Eq, Structural)]
pub enum CharClass {
    /// One character.
    Only(char),
    /// One character or another.
    Either(char, char),
    /// White space.
    WhiteSpace,
}

/// True when `c` belongs to the class.
pub open spec fn in_class(class: CharClass, c: char) -> bool {
    match class {
        CharClass::Only(x) => c == x,
        CharClass::Either(x, y) => c == x || c == y,
        CharClass::WhiteSpace => is_white_space(c),
    }
}

/// The length of the longest prefix of `s` made of characters of the class.
pub open spec fn leading_run(s: Seq<char>, class: CharClass) -> nat
    decreases s.len(),
{
    if s.len() > 0 && in_class(class, s[0]) {
        1 + leading_run(s.drop_first(), class)
    } else {
        0
    }
}

/// The length of the longest suffix of `s` made of characters of the class.
pub open spec fn trailing_run(s: Seq<char>, class: CharClass) -> nat
    decreases s.len(),
{
    if s.len() > 0 && in_class(class, s.last()) {
        1 + trailing_run(s.drop_last(), class)
    } else {
        0
    }
}

/// `s` without its longest prefix made of characters of the class.
pub open spec fn without_leading(s: Seq<char>, class: CharClass) -> Seq<char> {
    s.skip(leading_run(s, class) as int)
}

/// `s` without its longest suffix made of characters of the class.
pub open spec fn without_trailing(s: Seq<char>, class: CharClass) -> Seq<char> {
    s.take(s.len() - trailing_run(s, class))
}

/// `s` without its longest prefix and its longest suffix made of characters
/// of the class.
pub open spec fn trim_of(s: Seq<char>, class: CharClass) -> Seq<char> {
    without_trailing(without_leading(s, class), class)
}

/// `s` without the run of `c` at its start.
pub open spec fn strip_leading(s: Seq<char>, c: char) -> Seq<char> {
    without_leading(s, CharClass::Only(c))
}

/// `s` without the run of `c` at its end.
pub open spec fn strip_trailing(s: Seq<char>, c: char) -> Seq<char> {
    without_trailing(s, CharClass::Only(c))
}

/// `s` without the white space at its start and at its end.
pub open spec fn trimmed(s: Seq<char>) -> Seq<char> {
    trim_of(s, CharClass::WhiteSpace)
}

/// A run of `n` characters of the class that ends the sequence or is
/// followed by a character outside the class is the whole leading run.
pub proof fn lemma_leading_run(s: Seq<char>, class: CharClass, n: nat)
    requires
        n <= s.len(),
        forall|i: int| 0 <= i < n ==> in_class(class, s[i]),
        n == s.len() || !in_class(class, s[n as int]),
    ensures
        leading_run(s, class) == n,
    decreases n,
{
    if n > 0 {
        lemma_leading_run(s.drop_first(), class, (n - 1) as nat);
    }
}

/// A run of `n` characters of the class that starts the sequence or is
/// preceded by a character outside the class is the whole trailing run.
pub proof fn lemma_trailing_run(s: Seq<char>, class: CharClass, n: nat)
    requires
        n <= s.len(),
        forall|i: int| s.len() - n <= i < s.len() ==> in_class(class, s[i]),
        n == s.len() || !in_class(class, s[s.len() - n - 1]),
    ensures
        trailing_run(s, class) == n,
    decreases n,
{
    if n > 0 {
        lemma_trailing_run(s.drop_last(), class, (n - 1) as nat);
    }
}

/// The leading run lies within the sequence, and where it ends before the
/// sequence does, a character outside the class follows it.
pub proof fn lemma_leading_run_stops(s: Seq<char>, class: CharClass)
    ensures
        leading_run(s, class) <= s.len(),
        leading_run(s, class) < s.len() ==> !in_class(class, s[leading_run(s, class) as int]),
    decreases s.len(),
{
    if s.len() > 0 && in_class(class, s[0]) {
        lemma_leading_run_stops(s.drop_first(), class);
    }
}

/// The trailing run lies within the sequence, and where it starts behind
/// the start of the sequence, a character outside the class precedes it.
pub proof fn lemma_trailing_run_stops(s: Seq<char>, class: CharClass)
    ensures
        trailing_run(s, class) <= s.len(),
        trailing_run(s, class) < s.len() ==> !in_class(
            class,
            s[s.len() - trailing_run(s, class) - 1],
        ),
    decreases s.len(),
{
    if s.len() > 0 && in_class(class, s.last()) {
        lemma_trailing_run_stops(s.drop_last(), class);
    }
}

/// What trimming leaves is a stretch of the text, and it neither begins nor
/// ends with a character of the class.
pub proof fn lemma_trim_of(s: Seq<char>, class: CharClass)
    ensures
        ({
            let a = leading_run(s, class) as int;
            let b = s.len() - trailing_run(without_leading(s, class), class);
            0 <= a <= b <= s.len() && trim_of(s, class) == s.subrange(a, b)
        }),
        trim_of(s, class).len() > 0 ==> !in_class(class, trim_of(s, class)[0]) && !in_class(
            class,
            trim_of(s, class).last(),
        ),
{
    lemma_leading_run_stops(s, class);
    let a = leading_run(s, class) as int;
    let rest = s.skip(a);
    lemma_trailing_run_stops(rest, class);
    let b = s.len() - trailing_run(rest, class);
    assert(trim_of(s, class) == s.subrange(a, b));
    if trim_of(s, class).len() > 0 {
        assert(trim_of(s, class)[0] == s[a]);
        assert(trim_of(s, class).last() == rest[rest.len() - trailing_run(rest, class) - 1]);
    }
}

/// Decides whether `c` counts as white space.
pub fn white_space(c: char) -> (b: bool)
    ensures
        b == is_white_space(c),
{
    ('\u{9}' <= c && c <= '\u{d}') || c == ' ' || c == '\u{85}' || c == '\u{a0}' || c == '\u{1680}'
        || ('\u{2000}' <= c && c <= '\u{200a}') || c == '\u{2028}' || c == '\u{2029}' || c
        == '\u{202f}' || c == '\u{205f}' || c == '\u{3000}'
}

/// Decides whether `c` belongs to the class.
pub fn is_in_class(class: CharClass, c: char) -> (b: bool)
    ensures
        b == in_class(class, c),
{
    match class {
        CharClass::Only(x) => c == x,
        CharClass::Either(x, y) => c == x || c == y,
        CharClass::WhiteSpace => white_space(c),
    }
}

/// Where the text begins once its leading run of the class is taken off.
fn start_of(chars: &Vec<char>, class: CharClass) -> (a: usize)
    ensures
        a == leading_run(chars@, class),
        a <= chars.len(),
{
    let mut a: usize = 0;
    while a < chars.len() && is_in_class(class, chars[a])
        invariant
            a <= chars.len(),
            forall|i: int| 0 <= i < a ==> in_class(class, chars@[i]),
        decreases chars.len() - a,
    {
        a = a + 1;
    }
    proof {
        lemma_leading_run(chars@, class, a as nat);
    }
    a
}

/// Where the text `chars[from..]` ends once its trailing run of the class
/// is taken off.
fn end_of(chars: &Vec<char>, from: usize, class: CharClass) -> (b: usize)
    requires
        from <= chars.len(),
    ensures
        from <= b <= chars.len(),
        chars.len() - b == trailing_run(chars@.skip(from as int), class),
{
    let mut b: usize = chars.len();
    while b > from && is_in_class(class, chars[b - 1])
        invariant
            from <= b <= chars.len(),
            forall|i: int| b <= i < chars.len() ==> in_class(class, chars@[i]),
        decreases b,
    {
        b = b - 1;
    }
    proof {
        lemma_trailing_run(chars@.skip(from as int), class, (chars.len() - b) as nat);
    }
    b
}

/// Takes the characters of the class off both ends of `s`. What is left
/// neither begins nor ends with one of them.
pub fn trim_class(s: &str, class: CharClass) -> (t: String)
    ensures
        t@ == trim_of(s@, class),
        t@.len() > 0 ==> !in_class(class, t@[0]) && !in_class(class, t@.last()),
{
    let chars = chars_of(s);
    let a = start_of(&chars, class);
    let b = end_of(&chars, a, class);
    proof {
        lemma_trim_of(chars@, class);
    }
    string_of(&chars, a, b)
}

/// Takes the white space off both ends of `s`.
pub fn trim(s: &str) -> (t: String)
    ensures
        t@ == trimmed(s@),
{
    trim_class(s, CharClass::WhiteSpace)
}

/// Takes every `c` off the start of `s`.
pub fn trim_start(s: &str, c: char) -> (t: String)
    ensures
        t@ == strip_leading(s@, c),
{
    let chars = chars_of(s);
    let a = start_of(&chars, CharClass::Only(c));
    assert(chars@.subrange(a as int, chars.len() as int) == chars@.skip(a as int));
    string_of(&chars, a, chars.len())
}

/// Takes every `c` off the end of `s`.
pub fn trim_end(s: &str, c: char) -> (t: String)
    ensures
        t@ == strip_trailing(s@, c),
{
    let chars = chars_of(s);
    let b = end_of(&chars, 0, CharClass::Only(c));
    assert(chars@.skip(0) == chars@);
    assert(chars@.subrange(0, b as int) == chars@.take(b as int));
    string_of(&chars, 0, b)
}

/// True when `s` begins with `prefix`.
pub fn starts_with(s: &str, prefix: &str) -> (b: bool)
    ensures
        b == prefix@.is_prefix_of(s@),
{
    let text = chars_of(s);
    let head = chars_of(prefix);
    if head.len() > text.len() {
        return false;
    }
    let mut i: usize = 0;
    while i < head.len()
        invariant
            i <= head.len() <= text.len(),
            text@ == s@,
            head@ == prefix@,
            forall|k: int| 0 <= k < i ==> head@[k] == text@[k],
        decreases head.len() - i,
    {
        if head[i] != text[i] {
            assert(text@.subrange(0, head.len() as int)[i as int] != head@[i as int]);
            return false;
        }
        i = i + 1;
    }
    assert(head@ =~= text@.subrange(0, head.len() as int));
    true
}

} // verus!
