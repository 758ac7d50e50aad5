//! Deciding which search terms name a programming language and which a
//! technology keyword.
//!
//! The decision for a term rests on how many documents match it in a few
//! fields of the index. Fetching those counts is the caller's work: the
//! [`Classifier`] names the next probe to make and takes its counts back.

use vstd::prelude::*;
use crate::guard::is_safe;
use crate::text::{contains_char, lemma_views_push, views};
use crate::tokens::{search_terms, split_terms};

verus! {

/// The largest number of search terms that a search accepts: the limit to
/// start a [`Classifier`] with.
pub const MAX_SEARCH_TERMS: usize = 4;

/// A field of the index that a term can be matched against.
#[derive(Clone, Copy, Debug, PartialEq, Eq, Structural)]
pub enum Field {
    /// The language of a technology.
    Language,
    /// The last segment of each code reference.
    RefsKeyword,
    /// The last segment of each package name.
    PkgsKeyword,
    /// The full, dotted code references.
    Refs,
    /// The full, dotted package names.
    Pkgs,
}

/// The name of a field in the index.
pub open spec fn field_name(f: Field) -> Seq<char> {
    match f {
        Field::Language => "report.tech.language.keyword"@,
        Field::RefsKeyword => "report.tech.refs_kw.k.keyword"@,
        Field::PkgsKeyword => "report.tech.pkgs_kw.k.keyword"@,
        Field::Refs => "report.tech.refs.k.keyword"@,
        Field::Pkgs => "report.tech.pkgs.k.keyword"@,
    }
}

impl Field {
    /// The name of the field in the index.
    pub fn name(self) -> (n: &'static str)
        ensures
            n@ == field_name(self),
    {
        match self {
            Field::Language => "report.tech.language.keyword",
            Field::RefsKeyword => "report.tech.refs_kw.k.keyword",
            Field::PkgsKeyword => "report.tech.pkgs_kw.k.keyword",
            Field::Refs => "report.tech.refs.k.keyword",
            Field::Pkgs => "report.tech.pkgs.k.keyword",
        }
    }
}

/// What a search term turned out to be.
#[derive(Clone, Copy, Debug, PartialEq, Eq, Structural)]
pub enum TermKind {
    /// The term names a programming language.
    Language,
    /// The term names a package or a code reference.
    Keyword,
    /// The term matched nothing and takes no part in the search.
    Dropped,
}

/// A qualified name is one with a dot in it, such as `system.text.json`.
pub open spec fn is_qualified(term: Seq<char>) -> bool {
    term.contains('.')
}

/// The fields to probe for a term. A qualified name is looked up in the
/// full references and packages and never in the language field; any other
/// term in the language field and the two keyword fields.
pub open spec fn probe_fields(term: Seq<char>) -> Seq<Field> {
    if is_qualified(term) {
        seq![Field::Refs, Field::Pkgs]
    } else {
        seq![Field::Language, Field::RefsKeyword, Field::PkgsKeyword]
    }
}

/// The kind of a term, from the counts of its probe fields in their order.
pub open spec fn term_kind(term: Seq<char>, counts: Seq<u64>) -> TermKind {
    if is_qualified(term) {
        if counts[0] > 0 || counts[1] > 0 {
            TermKind::Keyword
        } else {
            TermKind::Dropped
        }
    } else if counts[0] > 0 {
        TermKind::Language
    } else if counts[1] > 0 || counts[2] > 0 {
        TermKind::Keyword
    } else {
        TermKind::Dropped
    }
}

/// A qualified name is never looked up in the language field and is never
/// taken for a language, whatever the counts.
pub proof fn lemma_qualified_is_no_language(term: Seq<char>, counts: Seq<u64>)
    requires
        is_qualified(term),
    ensures
        !probe_fields(term).contains(Field::Language),
        term_kind(term, counts) != TermKind::Language,
{
    let fields = probe_fields(term);
    assert forall|i: int| 0 <= i < fields.len() implies fields[i] != Field::Language by {}
}

/// Computes [`probe_fields`].
pub fn fields_to_probe(term: &str) -> (fields: Vec<Field>)
    ensures
        fields@ == probe_fields(term@),
{
    let mut fields: Vec<Field> = Vec::new();
    if contains_char(term, '.') {
        fields.push(Field::Refs);
        fields.push(Field::Pkgs);
    } else {
        fields.push(Field::Language);
        fields.push(Field::RefsKeyword);
        fields.push(Field::PkgsKeyword);
    }
    assert(fields@ =~= probe_fields(term@));
    fields
}

/// Computes [`term_kind`]. `counts` holds one count for each probe field of
/// the term.
pub fn decide(term: &str, counts: &Vec<u64>) -> (kind: TermKind)
    requires
        counts.len() == probe_fields(term@).len(),
    ensures
        kind == term_kind(term@, counts@),
{
    if contains_char(term, '.') {
        if counts[0] > 0 || counts[1] > 0 {
            TermKind::Keyword
        } else {
            TermKind::Dropped
        }
    } else if counts[0] > 0 {
        TermKind::Language
    } else if counts[1] > 0 || counts[2] > 0 {
        TermKind::Keyword
    } else {
        TermKind::Dropped
    }
}

/// How far a classification has come: the terms still to look at, and the
/// languages and keywords accepted so far.
pub struct Progress {
    /// The terms not yet examined, in the order of the raw search string.
    pub pending: Seq<Seq<char>>,
    /// The largest number of terms that may be accepted.
    pub max_terms: nat,
    /// The accepted languages, in the order in which they were examined.
    pub langs: Seq<Seq<char>>,
    /// The accepted keywords, in the order in which they were examined.
    pub keywords: Seq<Seq<char>>,
}

impl Progress {
    /// The state before any term has been examined.
    pub open spec fn start(terms: Seq<Seq<char>>, max_terms: nat) -> Progress {
        Progress { pending: terms, max_terms, langs: Seq::empty(), keywords: Seq::empty() }
    }

    /// The number of terms accepted so far.
    pub open spec fn accepted(self) -> nat {
        self.langs.len() + self.keywords.len()
    }

    /// True when no further term will be examined.
    pub open spec fn finished(self) -> bool {
        self.pending.len() == 0 || self.accepted() >= self.max_terms
    }

    /// The term to examine next.
    pub open spec fn current(self) -> Seq<char> {
        self.pending[0]
    }

    /// The state after the current term was examined with these counts.
    pub open spec fn record(self, counts: Seq<u64>) -> Progress {
        let term = self.current();
        let rest = self.pending.drop_first();
        match term_kind(term, counts) {
            TermKind::Language => Progress { pending: rest, langs: self.langs.push(term), ..self },
            TermKind::Keyword => Progress {
                pending: rest,
                keywords: self.keywords.push(term),
                ..self
            },
            TermKind::Dropped => Progress { pending: rest, ..self },
        }
    }

    /// The state after the answers were fed in, one for each term examined,
    /// until the classification finished or the answers ran out.
    pub open spec fn run(self, answers: Seq<Seq<u64>>) -> Progress
        decreases answers.len(),
    {
        if self.finished() || answers.len() == 0 {
            self
        } else {
            self.record(answers[0]).run(answers.drop_first())
        }
    }

    /// What holds of every state of a classification: no more terms are
    /// accepted than allowed, no language is a qualified name, and every
    /// term passes the injection guard.
    pub open spec fn wf(self) -> bool {
        &&& self.accepted() <= self.max_terms
        &&& forall|i: int| 0 <= i < self.langs.len() ==> !is_qualified(#[trigger] self.langs[i])
        &&& forall|i: int| 0 <= i < self.langs.len() ==> is_safe(#[trigger] self.langs[i])
        &&& forall|i: int| 0 <= i < self.keywords.len() ==> is_safe(#[trigger] self.keywords[i])
        &&& forall|i: int| 0 <= i < self.pending.len() ==> is_safe(#[trigger] self.pending[i])
    }
}

/// Examining one more term keeps the state well-formed.
pub proof fn lemma_record_wf(p: Progress, counts: Seq<u64>)
    requires
        p.wf(),
        !p.finished(),
    ensures
        p.record(counts).wf(),
        p.record(counts).pending == p.pending.drop_first(),
{
    let q = p.record(counts);
    assert(is_safe(p.pending[0]));
    assert forall|i: int| 0 <= i < q.pending.len() implies is_safe(#[trigger] q.pending[i]) by {
        assert(q.pending[i] == p.pending[i + 1]);
    }
}

/// However the probes are answered, a classification never accepts more
/// than `max_terms` terms, never takes a qualified name for a language, and
/// accepts only terms that pass the injection guard.
pub proof fn lemma_run_wf(p: Progress, answers: Seq<Seq<u64>>)
    requires
        p.wf(),
    ensures
        p.run(answers).wf(),
        p.run(answers).accepted() <= p.max_terms,
        p.run(answers).max_terms == p.max_terms,
    decreases answers.len(),
{
    if !(p.finished() || answers.len() == 0) {
        lemma_record_wf(p, answers[0]);
        lemma_run_wf(p.record(answers[0]), answers.drop_first());
    }
}

/// Where each of the first terms matches in one of its fields, as many as
/// there is room for, exactly those are accepted and the later ones are not
/// examined.
pub proof fn lemma_first_terms_win(p: Progress, answers: Seq<Seq<u64>>)
    requires
        p.accepted() <= p.max_terms,
        p.max_terms - p.accepted() <= p.pending.len() <= answers.len(),
        forall|i: int|
            0 <= i < p.max_terms - p.accepted() ==> term_kind(p.pending[i], #[trigger] answers[i])
                != TermKind::Dropped,
    ensures
        p.run(answers).accepted() == p.max_terms,
        p.run(answers).pending == p.pending.skip(p.max_terms - p.accepted()),
    decreases answers.len(),
{
    if p.finished() || answers.len() == 0 {
        assert(p.pending.skip(0) == p.pending);
    } else {
        let q = p.record(answers[0]);
        let rest = answers.drop_first();
        assert(term_kind(p.pending[0], answers[0]) != TermKind::Dropped);
        assert(q.accepted() == p.accepted() + 1);
        assert forall|i: int| 0 <= i < q.max_terms - q.accepted() implies term_kind(
            q.pending[i],
            #[trigger] rest[i],
        ) != TermKind::Dropped by {
            assert(rest[i] == answers[i + 1]);
            assert(q.pending[i] == p.pending[i + 1]);
        }
        lemma_first_terms_win(q, rest);
        assert(q.pending.skip(q.max_terms - q.accepted()) == p.pending.skip(
            p.max_terms - p.accepted(),
        ));
    }
}

/// Those of `terms` that are of the given kind, in their order, where
/// `answers` holds the counts of each term at the index of the term.
pub open spec fn chosen(terms: Seq<Seq<char>>, answers: Seq<Seq<u64>>, kind: TermKind) -> Seq<
    Seq<char>,
>
    decreases terms.len(),
{
    if terms.len() == 0 {
        Seq::empty()
    } else if term_kind(terms.last(), answers[terms.len() - 1]) == kind {
        chosen(terms.drop_last(), answers, kind).push(terms.last())
    } else {
        chosen(terms.drop_last(), answers, kind)
    }
}

/// Choosing among a first term and those that follow it.
proof fn lemma_chosen_first(terms: Seq<Seq<char>>, answers: Seq<Seq<u64>>, kind: TermKind)
    requires
        0 < terms.len() <= answers.len(),
    ensures
        chosen(terms, answers, kind) == (if term_kind(terms[0], answers[0]) == kind {
            seq![terms[0]]
        } else {
            Seq::empty()
        }) + chosen(terms.drop_first(), answers.drop_first(), kind),
    decreases terms.len(),
{
    let head = if term_kind(terms[0], answers[0]) == kind {
        seq![terms[0]]
    } else {
        Seq::empty()
    };
    if terms.len() == 1 {
        assert(terms.drop_last().len() == 0);
        assert(terms.drop_first().len() == 0);
        assert(chosen(terms.drop_last(), answers, kind) == Seq::<Seq<char>>::empty());
        assert(chosen(terms.drop_first(), answers.drop_first(), kind) == Seq::<Seq<char>>::empty());
        assert(Seq::<Seq<char>>::empty().push(terms[0]) == seq![terms[0]]);
        assert(chosen(terms, answers, kind) == head + Seq::<Seq<char>>::empty());
    } else {
        let front = terms.drop_last();
        lemma_chosen_first(front, answers, kind);
        assert(front.drop_first() == terms.drop_first().drop_last());
        assert(front[0] == terms[0]);
        assert(terms.drop_first().last() == terms.last());
        assert(answers.drop_first()[terms.drop_first().len() - 1] == answers[terms.len() - 1]);
        let tail = chosen(front.drop_first(), answers.drop_first(), kind);
        if term_kind(terms.last(), answers[terms.len() - 1]) == kind {
            assert((head + tail).push(terms.last()) == head + tail.push(terms.last()));
        }
    }
}

/// The accepted languages and keywords stand in the order of the raw search
/// string: a classification examines the terms from the first on, and what
/// it accepts are, in their order, the examined terms of each kind.
pub proof fn lemma_run_order(p: Progress, answers: Seq<Seq<u64>>)
    ensures
        ({
            let r = p.run(answers);
            let n = p.pending.len() - r.pending.len();
            &&& 0 <= n <= answers.len()
            &&& r.pending == p.pending.skip(n)
            &&& r.langs == p.langs + chosen(p.pending.take(n), answers, TermKind::Language)
            &&& r.keywords == p.keywords + chosen(p.pending.take(n), answers, TermKind::Keyword)
        }),
    decreases answers.len(),
{
    if p.finished() || answers.len() == 0 {
        assert(p.pending.skip(0) == p.pending);
        assert(p.pending.take(0).len() == 0);
        assert(p.langs + Seq::<Seq<char>>::empty() == p.langs);
        assert(p.keywords + Seq::<Seq<char>>::empty() == p.keywords);
    } else {
        let q = p.record(answers[0]);
        let rest = answers.drop_first();
        let r = q.run(rest);
        lemma_run_order(q, rest);
        let m = q.pending.len() - r.pending.len();
        let n = m + 1;
        let examined = p.pending.take(n);
        assert(q.pending == p.pending.drop_first());
        assert(q.pending.skip(m) == p.pending.skip(n));
        assert(examined.drop_first() == q.pending.take(m));
        assert(examined[0] == p.pending[0]);
        lemma_chosen_first(examined, answers, TermKind::Language);
        lemma_chosen_first(examined, answers, TermKind::Keyword);
        let first = p.pending[0];
        let langs = chosen(q.pending.take(m), rest, TermKind::Language);
        let keywords = chosen(q.pending.take(m), rest, TermKind::Keyword);
        assert(p.langs.push(first) + langs == p.langs + (seq![first] + langs));
        assert(p.keywords.push(first) + keywords == p.keywords + (seq![first] + keywords));
        assert(Seq::<Seq<char>>::empty() + langs == langs);
        assert(Seq::<Seq<char>>::empty() + keywords == keywords);
    }
}

/// A probe to make: how many documents match `term` in each of `fields`?
pub struct Probe {
    /// The search term.
    pub term: String,
    /// The fields to count matches in, in the order in which the counts are
    /// handed back.
    pub fields: Vec<Field>,
}

/// The outcome of a classification.
pub struct ClassifiedTerms {
    /// The terms that name packages or code references.
    pub keywords: Vec<String>,
    /// The terms that name programming languages.
    pub langs: Vec<String>,
}

/// A classification in progress.
pub struct Classifier {
    /// The search terms of the raw search string.
    pub terms: Vec<String>,
    /// The index in `terms` of the term to examine next.
    pub next: usize,
    /// The largest number of terms that may be accepted.
    pub max_terms: usize,
    /// The accepted languages.
    pub langs: Vec<String>,
    /// The accepted keywords.
    pub keywords: Vec<String>,
}

impl View for Classifier {
    type V = Progress;

    open spec fn view(&self) -> Progress {
        Progress {
            pending: views(self.terms@).skip(self.next as int),
            max_terms: self.max_terms as nat,
            langs: views(self.langs@),
            keywords: views(self.keywords@),
        }
    }
}

impl Classifier {
    /// The invariant of a classifier.
    pub open spec fn wf(&self) -> bool {
        &&& self.next <= self.terms.len()
        &&& self@.wf()
    }

    /// Starts the classification of a raw search string, of which at most
    /// `max_terms` terms will be accepted.
    pub fn new(raw: &str, max_terms: usize) -> (c: Classifier)
        ensures
            c.wf(),
            c@ == Progress::start(search_terms(raw@), max_terms as nat),
    {
        let terms = split_terms(raw);
        let c = Classifier { terms, next: 0, max_terms, langs: Vec::new(), keywords: Vec::new() };
        proof {
            assert(views(c.terms@).skip(0) == views(c.terms@));
            assert(views(c.langs@) == Seq::<Seq<char>>::empty());
            assert(views(c.keywords@) == Seq::<Seq<char>>::empty());
            assert forall|i: int| 0 <= i < c@.pending.len() implies is_safe(
                #[trigger] c@.pending[i],
            ) by {
                assert(c@.pending[i] == c.terms[i]@);
            }
        }
        c
    }

    /// True when no further term will be examined.
    pub fn is_finished(&self) -> (b: bool)
        requires
            self.wf(),
        ensures
            b == self@.finished(),
    {
        self.next >= self.terms.len() || self.langs.len() + self.keywords.len() >= self.max_terms
    }

    /// The probe whose counts decide the next term, or `None` when the
    /// classification has finished.
    pub fn next_probe(&self) -> (p: Option<Probe>)
        requires
            self.wf(),
        ensures
            p is None <==> self@.finished(),
            p matches Some(probe) ==> probe.term@ == self@.current() && probe.fields@
                == probe_fields(self@.current()),
    {
        if self.is_finished() {
            None
        } else {
            let term = self.terms[self.next].clone();
            let fields = fields_to_probe(term.as_str());
            Some(Probe { term, fields })
        }
    }

    /// Takes the counts of the probe that [`Classifier::next_probe`] named,
    /// one for each of its fields, and moves on to the next term.
    pub fn record(&mut self, counts: &Vec<u64>)
        requires
            old(self).wf(),
            !old(self)@.finished(),
            counts.len() == probe_fields(old(self)@.current()).len(),
        ensures
            final(self).wf(),
            final(self)@ == old(self)@.record(counts@),
    {
        let term = self.terms[self.next].clone();
        let kind = decide(term.as_str(), counts);
        proof {
            lemma_record_wf(self@, counts@);
            assert(views(self.terms@).skip(self.next + 1) == views(self.terms@).skip(
                self.next as int,
            ).drop_first());
        }
        match kind {
            TermKind::Language => {
                proof {
                    lemma_views_push(self.langs@, term);
                }
                self.langs.push(term);
            },
            TermKind::Keyword => {
                proof {
                    lemma_views_push(self.keywords@, term);
                }
                self.keywords.push(term);
            },
            TermKind::Dropped => {},
        }
        self.next = self.next + 1;
    }

    /// The languages and keywords accepted so far.
    pub fn finish(self) -> (r: ClassifiedTerms)
        ensures
            views(r.langs@) == self@.langs,
            views(r.keywords@) == self@.keywords,
    {
        ClassifiedTerms { keywords: self.keywords, langs: self.langs }
    }
}

} // verus!
