//! The texts of the queries sent to the search backend.

use vstd::prelude::*;
use vstd::string::StringExecFns;
use crate::classify::{field_name, is_qualified, Field};
use crate::error::SearchError;
use crate::guard::{is_safe, is_unsafe};
use crate::text::{contains_char, lemma_views_push, views};

verus! {

/// `parts` in order, with `sep` between each two of them.
pub open spec fn joined(parts: Seq<Seq<char>>, sep: Seq<char>) -> Seq<char>
    decreases parts.len(),
{
    if parts.len() == 0 {
        Seq::empty()
    } else if parts.len() == 1 {
        parts[0]
    } else {
        joined(parts.drop_last(), sep) + sep + parts.last()
    }
}

/// Computes [`joined`].
pub fn join(parts: &Vec<String>, sep: &str) -> (out: String)
    ensures
        out@ == joined(views(parts@), sep@),
{
    let mut out = String::new();
    let mut i: usize = 0;
    assert(views(parts@).take(0) == Seq::<Seq<char>>::empty());
    while i < parts.len()
        invariant
            i <= parts.len(),
            out@ == joined(views(parts@).take(i as int), sep@),
        decreases parts.len() - i,
    {
        proof {
            let next = views(parts@).take(i + 1);
            assert(next.drop_last() == views(parts@).take(i as int));
            assert(next.last() == parts[i as int]@);
        }
        if i > 0 {
            out.append(sep);
        }
        out.append(parts[i].as_str());
        i = i + 1;
    }
    assert(views(parts@).take(parts.len() as int) == views(parts@));
    out
}

/// The address that match counts are asked from.
pub open spec fn match_count_endpoint_text(es_url: Seq<char>, index: Seq<char>) -> Seq<char> {
    es_url + "/"@ + index + "/_search?filter_path=aggregations.total.buckets"@
}

/// The address that match counts of an index are asked from.
pub fn match_count_endpoint(es_url: &str, index: &str) -> (address: String)
    ensures
        address@ == match_count_endpoint_text(es_url@, index@),
{
    let mut address = String::from_str(es_url);
    address.append("/");
    address.append(index);
    address.append("/_search?filter_path=aggregations.total.buckets");
    address
}

/// The query that counts the documents whose `field` matches `value`. It
/// asks for no documents, only for their number.
pub open spec fn match_count_text(field: Seq<char>, value: Seq<char>) -> Seq<char> {
    r#"{"query":{"match":{""#@ + field + r#"":""#@ + value + r#""}},"size":0}"#@
}

/// Builds the query that counts the documents whose `field` matches `value`.
/// The value is held to the injection guard; the name of the field is the
/// caller's and is taken as it is.
pub fn match_count_query(field: &str, value: &str) -> (r: Result<String, SearchError>)
    ensures
        !is_safe(value@) ==> r == Err::<String, _>(SearchError::Validation),
        is_safe(value@) ==> (r matches Ok(q) && q@ == match_count_text(field@, value@)),
{
    if is_unsafe(value) {
        return Err(SearchError::Validation);
    }
    let mut q = String::from_str(r#"{"query":{"match":{""#);
    q.append(field);
    q.append(r#"":""#);
    q.append(value);
    q.append(r#""}},"size":0}"#);
    Ok(q)
}

/// One query for each field, in the order of the fields; the value is held
/// to the injection guard.
pub fn match_count_queries(fields: &Vec<Field>, value: &str) -> (r: Result<
    Vec<String>,
    SearchError,
>)
    ensures
        !is_safe(value@) ==> r == Err::<Vec<String>, _>(SearchError::Validation),
        is_safe(value@) ==> (r matches Ok(queries) && queries.len() == fields.len()
            && forall|i: int|
            0 <= i < fields.len() ==> (#[trigger] queries[i])@ == match_count_text(
                field_name(fields[i]),
                value@,
            )),
{
    if is_unsafe(value) {
        return Err(SearchError::Validation);
    }
    let mut queries: Vec<String> = Vec::new();
    let mut i: usize = 0;
    while i < fields.len()
        invariant
            i <= fields.len(),
            queries.len() == i,
            is_safe(value@),
            forall|k: int|
                0 <= k < i ==> (#[trigger] queries[k])@ == match_count_text(
                    field_name(fields[k]),
                    value@,
                ),
        decreases fields.len() - i,
    {
        match match_count_query(fields[i].name(), value) {
            Ok(q) => {
                queries.push(q);
            },
            Err(e) => {
                return Err(e);
            },
        }
        i = i + 1;
    }
    Ok(queries)
}

/// The counts of a batch of probes, in the order in which the probes were
/// made, whatever the order in which they were answered. One failure fails
/// the batch: the error is that of the first probe that failed.
pub fn collect_counts(answers: Vec<Result<u64, SearchError>>) -> (r: Result<
    Vec<u64>,
    SearchError,
>)
    ensures
        match r {
            Ok(counts) => counts.len() == answers.len() && forall|i: int|
                0 <= i < answers.len() ==> #[trigger] answers[i] == Ok::<u64, SearchError>(
                    counts[i],
                ),
            Err(e) => exists|i: int|
                0 <= i < answers.len() && #[trigger] answers[i] == Err::<u64, _>(e) && forall|
                    k: int,
                |
                    0 <= k < i ==> (#[trigger] answers[k]) is Ok,
        },
{
    let mut counts: Vec<u64> = Vec::new();
    let mut i: usize = 0;
    while i < answers.len()
        invariant
            i <= answers.len(),
            counts.len() == i,
            forall|k: int|
                0 <= k < i ==> #[trigger] answers[k] == Ok::<u64, SearchError>(counts[k]),
        decreases answers.len() - i,
    {
        match answers[i] {
            Ok(n) => {
                counts.push(n);
            },
            Err(e) => {
                return Err(e);
            },
        }
        i = i + 1;
    }
    Ok(counts)
}

/// A condition that a document must meet to be found.
pub enum Clause {
    /// The field matches the value.
    Match { field: Field, value: String },
    /// One of the two fields matches the query.
    MultiMatch { query: String, first: Field, second: Field },
}

/// A [`Clause`] with its texts as sequences of characters.
pub enum ClauseView {
    Match { field: Field, value: Seq<char> },
    MultiMatch { query: Seq<char>, first: Field, second: Field },
}

impl View for Clause {
    type V = ClauseView;

    open spec fn view(&self) -> ClauseView {
        match *self {
            Clause::Match { field, value } => ClauseView::Match { field, value: value@ },
            Clause::MultiMatch { query, first, second } => ClauseView::MultiMatch {
                query: query@,
                first,
                second,
            },
        }
    }
}

/// The views of a sequence of clauses, in order.
pub open spec fn clause_views(clauses: Seq<Clause>) -> Seq<ClauseView> {
    clauses.map_values(|c: Clause| c@)
}

/// The clause of a language: a match on the language field.
pub open spec fn language_clause(lang: Seq<char>) -> ClauseView {
    ClauseView::Match { field: Field::Language, value: lang }
}

/// The clause of a keyword. A qualified name is looked for in the full
/// package names and code references, any other keyword in their last
/// segments.
pub open spec fn keyword_clause(keyword: Seq<char>) -> ClauseView {
    if is_qualified(keyword) {
        ClauseView::MultiMatch { query: keyword, first: Field::Pkgs, second: Field::Refs }
    } else {
        ClauseView::MultiMatch {
            query: keyword,
            first: Field::PkgsKeyword,
            second: Field::RefsKeyword,
        }
    }
}

/// The clauses of a search: one for each language, then one for each
/// keyword.
pub open spec fn clauses_for(langs: Seq<Seq<char>>, keywords: Seq<Seq<char>>) -> Seq<ClauseView> {
    langs.map_values(|l: Seq<char>| language_clause(l)) + keywords.map_values(
        |k: Seq<char>| keyword_clause(k),
    )
}

/// The text of a clause.
pub open spec fn clause_text(clause: ClauseView) -> Seq<char> {
    match clause {
        ClauseView::Match { field, value } => r#"{"match":{""#@ + field_name(field) + r#"":""#@
            + value + r#""}}"#@,
        ClauseView::MultiMatch { query, first, second } => r#"{"multi_match":{"query":""#@ + query
            + r#"","fields":[""#@ + field_name(first) + r#"",""#@ + field_name(second)
            + r#""]}}"#@,
    }
}

/// What stands before the clauses in a search for developers: at most 24
/// documents that meet every clause.
pub const MATCH_QUERY_HEAD: &'static str =
    r#"{"size":24,"track_scores":true,"query":{"bool":{"must":["#;

/// What stands behind the clauses in a search for developers: those open to
/// offers first, and among them the latest profiles first.
pub const MATCH_QUERY_TAIL: &'static str =
    r#"]}},"sort":[{"hireable":{"order":"desc"}},{"report.timestamp":{"order":"desc"}}]}"#;

/// The text of the search for the developers that meet every clause.
pub open spec fn match_query_text(clauses: Seq<ClauseView>) -> Seq<char> {
    MATCH_QUERY_HEAD@ + joined(clauses.map_values(|c: ClauseView| clause_text(c)), ","@)
        + MATCH_QUERY_TAIL@
}

/// Each language is looked for in the language field and nowhere else; each
/// qualified keyword in the full package names and code references; each
/// other keyword in the last segments of those.
pub proof fn lemma_clause_targets(langs: Seq<Seq<char>>, keywords: Seq<Seq<char>>)
    ensures
        clauses_for(langs, keywords).len() == langs.len() + keywords.len(),
        forall|i: int|
            0 <= i < langs.len() ==> #[trigger] clauses_for(langs, keywords)[i]
                == (ClauseView::Match { field: Field::Language, value: langs[i] }),
        forall|j: int|
            0 <= j < keywords.len() && is_qualified(keywords[j]) ==> #[trigger] clauses_for(
                langs,
                keywords,
            )[langs.len() + j] == (ClauseView::MultiMatch {
                query: keywords[j],
                first: Field::Pkgs,
                second: Field::Refs,
            }),
        forall|j: int|
            0 <= j < keywords.len() && !is_qualified(keywords[j]) ==> #[trigger] clauses_for(
                langs,
                keywords,
            )[langs.len() + j] == (ClauseView::MultiMatch {
                query: keywords[j],
                first: Field::PkgsKeyword,
                second: Field::RefsKeyword,
            }),
{
}

/// Builds the clauses of a search from its languages and keywords. The
/// terms are taken as they are: holding them to the injection guard is the
/// work of whoever classified them.
pub fn build_clauses(langs: &Vec<String>, keywords: &Vec<String>) -> (clauses: Vec<Clause>)
    ensures
        clause_views(clauses@) == clauses_for(views(langs@), views(keywords@)),
{
    let mut clauses: Vec<Clause> = Vec::new();
    let ghost lang_clauses = views(langs@).map_values(|l: Seq<char>| language_clause(l));
    let ghost keyword_clauses = views(keywords@).map_values(|k: Seq<char>| keyword_clause(k));
    let mut i: usize = 0;
    while i < langs.len()
        invariant
            i <= langs.len(),
            lang_clauses == views(langs@).map_values(|l: Seq<char>| language_clause(l)),
            clause_views(clauses@) == lang_clauses.take(i as int),
        decreases langs.len() - i,
    {
        let clause = Clause::Match { field: Field::Language, value: langs[i].clone() };
        assert(clause_views(clauses@.push(clause)) == clause_views(clauses@).push(clause@));
        assert(lang_clauses.take(i + 1) == lang_clauses.take(i as int).push(clause@));
        clauses.push(clause);
        i = i + 1;
    }
    assert(lang_clauses.take(langs.len() as int) == lang_clauses);
    let mut j: usize = 0;
    while j < keywords.len()
        invariant
            j <= keywords.len(),
            keyword_clauses == views(keywords@).map_values(|k: Seq<char>| keyword_clause(k)),
            clause_views(clauses@) == lang_clauses + keyword_clauses.take(j as int),
        decreases keywords.len() - j,
    {
        let query = keywords[j].clone();
        let clause = if contains_char(query.as_str(), '.') {
            Clause::MultiMatch { query, first: Field::Pkgs, second: Field::Refs }
        } else {
            Clause::MultiMatch { query, first: Field::PkgsKeyword, second: Field::RefsKeyword }
        };
        assert(clause_views(clauses@.push(clause)) == clause_views(clauses@).push(clause@));
        assert(keyword_clauses.take(j + 1) == keyword_clauses.take(j as int).push(clause@));
        assert((lang_clauses + keyword_clauses.take(j as int)).push(clause@) == lang_clauses
            + keyword_clauses.take(j + 1));
        clauses.push(clause);
        j = j + 1;
    }
    assert(keyword_clauses.take(keywords.len() as int) == keyword_clauses);
    clauses
}

/// Writes a clause out.
pub fn render_clause(clause: &Clause) -> (text: String)
    ensures
        text@ == clause_text(clause@),
{
    match clause {
        Clause::Match { field, value } => {
            let mut text = String::from_str(r#"{"match":{""#);
            text.append(field.name());
            text.append(r#"":""#);
            text.append(value.as_str());
            text.append(r#""}}"#);
            text
        },
        Clause::MultiMatch { query, first, second } => {
            let mut text = String::from_str(r#"{"multi_match":{"query":""#);
            text.append(query.as_str());
            text.append(r#"","fields":[""#);
            text.append(first.name());
            text.append(r#"",""#);
            text.append(second.name());
            text.append(r#""]}}"#);
            text
        },
    }
}

/// Writes out the search for the developers that meet every clause.
pub fn render_match_query(clauses: &Vec<Clause>) -> (query: String)
    ensures
        query@ == match_query_text(clause_views(clauses@)),
{
    let ghost texts = clause_views(clauses@).map_values(|c: ClauseView| clause_text(c));
    let mut rendered: Vec<String> = Vec::new();
    let mut i: usize = 0;
    while i < clauses.len()
        invariant
            i <= clauses.len(),
            texts == clause_views(clauses@).map_values(|c: ClauseView| clause_text(c)),
            views(rendered@) == texts.take(i as int),
        decreases clauses.len() - i,
    {
        let text = render_clause(&clauses[i]);
        proof {
            lemma_views_push(rendered@, text);
            assert(texts.take(i + 1) == texts.take(i as int).push(text@));
        }
        rendered.push(text);
        i = i + 1;
    }
    assert(texts.take(clauses.len() as int) == texts);
    let mut query = String::from_str(MATCH_QUERY_HEAD);
    query.append(join(&rendered, ",").as_str());
    query.append(MATCH_QUERY_TAIL);
    query
}

/// The text of the search for the developers who use every one of the
/// languages and keywords.
pub fn build_match_query(langs: &Vec<String>, keywords: &Vec<String>) -> (query: String)
    ensures
        query@ == match_query_text(clauses_for(views(langs@), views(keywords@))),
{
    render_match_query(&build_clauses(langs, keywords))
}

/// The search terms as one line for the reader: the languages, then the
/// keywords, with a space between each two.
pub fn combined_search_terms(langs: &Vec<String>, keywords: &Vec<String>) -> (line: String)
    ensures
        line@ == joined(views(langs@) + views(keywords@), " "@),
{
    let mut all: Vec<String> = Vec::new();
    let mut i: usize = 0;
    while i < langs.len()
        invariant
            i <= langs.len(),
            views(all@) == views(langs@).take(i as int),
        decreases langs.len() - i,
    {
        let term = langs[i].clone();
        proof {
            lemma_views_push(all@, term);
            assert(views(langs@).take(i + 1) == views(langs@).take(i as int).push(term@));
        }
        all.push(term);
        i = i + 1;
    }
    assert(views(langs@).take(langs.len() as int) == views(langs@));
    let mut j: usize = 0;
    while j < keywords.len()
        invariant
            j <= keywords.len(),
            views(all@) == views(langs@) + views(keywords@).take(j as int),
        decreases keywords.len() - j,
    {
        let term = keywords[j].clone();
        proof {
            lemma_views_push(all@, term);
            assert(views(keywords@).take(j + 1) == views(keywords@).take(j as int).push(term@));
            assert((views(langs@) + views(keywords@).take(j as int)).push(term@) == views(langs@)
                + views(keywords@).take(j + 1));
        }
        all.push(term);
        j = j + 1;
    }
    assert(views(keywords@).take(keywords.len() as int) == views(keywords@));
    join(&all, " ")
}

} // verus!
