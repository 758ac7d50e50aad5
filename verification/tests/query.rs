use stm_html::classify::Field;
use stm_html::error::SearchError;
use stm_html::query::{
    build_clauses, build_match_query, collect_counts, combined_search_terms, join,
    match_count_endpoint, match_count_queries, match_count_query, render_clause,
    render_match_query, Clause,
};
use stm_html::transport::{Method, SearchRequest, TransportError};

fn strings(items: &[&str]) -> Vec<String> {
    items.iter().map(|s| s.to_string()).collect()
}

#[test]
fn match_query_targets_language_and_keyword_fields() {
    let query = build_match_query(&strings(&["csharp"]), &strings(&["xml"]));
    assert_eq!(
        query,
        "{\"size\":24,\"track_scores\":true,\"query\":{\"bool\":{\"must\":[{\"match\":{\"report.tech.language.keyword\":\"csharp\"}},{\"multi_match\":{\"query\":\"xml\",\"fields\":[\"report.tech.pkgs_kw.k.keyword\",\"report.tech.refs_kw.k.keyword\"]}}]}},\"sort\":[{\"hireable\":{\"order\":\"desc\"}},{\"report.timestamp\":{\"order\":\"desc\"}}]}"
    );
}

#[test]
fn match_query_targets_qualified_fields_for_a_dotted_keyword() {
    let query = build_match_query(&strings(&[]), &strings(&["system.xml"]));
    assert_eq!(
        query,
        "{\"size\":24,\"track_scores\":true,\"query\":{\"bool\":{\"must\":[{\"multi_match\":{\"query\":\"system.xml\",\"fields\":[\"report.tech.pkgs.k.keyword\",\"report.tech.refs.k.keyword\"]}}]}},\"sort\":[{\"hireable\":{\"order\":\"desc\"}},{\"report.timestamp\":{\"order\":\"desc\"}}]}"
    );
    assert!(!query.contains("_kw"));
    assert!(!query.contains("language"));
}

#[test]
fn match_query_of_a_language_and_three_keywords() {
    let query = build_match_query(&strings(&["rust"]), &strings(&["logger", "clap", "serde"]));
    assert_eq!(
        query,
        r#"{"size":24,"track_scores":true,"query":{"bool":{"must":[{"match":{"report.tech.language.keyword":"rust"}},{"multi_match":{"query":"logger","fields":["report.tech.pkgs_kw.k.keyword","report.tech.refs_kw.k.keyword"]}},{"multi_match":{"query":"clap","fields":["report.tech.pkgs_kw.k.keyword","report.tech.refs_kw.k.keyword"]}},{"multi_match":{"query":"serde","fields":["report.tech.pkgs_kw.k.keyword","report.tech.refs_kw.k.keyword"]}}]}},"sort":[{"hireable":{"order":"desc"}},{"report.timestamp":{"order":"desc"}}]}"#
    );
}

#[test]
fn match_query_without_terms_has_no_clause() {
    assert_eq!(
        build_match_query(&strings(&[]), &strings(&[])),
        r#"{"size":24,"track_scores":true,"query":{"bool":{"must":[]}},"sort":[{"hireable":{"order":"desc"}},{"report.timestamp":{"order":"desc"}}]}"#
    );
}

#[test]
fn clauses_come_languages_first() {
    let clauses = build_clauses(&strings(&["go", "rust"]), &strings(&["a.b", "c"]));
    assert_eq!(clauses.len(), 4);
    assert!(matches!(&clauses[0], Clause::Match { field: Field::Language, value } if value == "go"));
    assert!(matches!(&clauses[1], Clause::Match { field: Field::Language, value } if value == "rust"));
    assert!(matches!(
        &clauses[2],
        Clause::MultiMatch { query, first: Field::Pkgs, second: Field::Refs } if query == "a.b"
    ));
    assert!(matches!(
        &clauses[3],
        Clause::MultiMatch { query, first: Field::PkgsKeyword, second: Field::RefsKeyword } if query == "c"
    ));
    assert_eq!(render_match_query(&clauses), build_match_query(&strings(&["go", "rust"]), &strings(&["a.b", "c"])));
}

#[test]
fn clause_texts_are_exact() {
    assert_eq!(
        render_clause(&Clause::Match { field: Field::Language, value: "rust".to_string() }),
        r#"{"match":{"report.tech.language.keyword":"rust"}}"#
    );
    assert_eq!(
        render_clause(&Clause::MultiMatch {
            query: "a.b".to_string(),
            first: Field::Pkgs,
            second: Field::Refs
        }),
        r#"{"multi_match":{"query":"a.b","fields":["report.tech.pkgs.k.keyword","report.tech.refs.k.keyword"]}}"#
    );
}

#[test]
fn count_query_holds_field_and_value() {
    assert_eq!(
        match_count_query("report.tech.language.keyword", "rust"),
        Ok(r#"{"query":{"match":{"report.tech.language.keyword":"rust"}},"size":0}"#.to_string())
    );
    assert_eq!(
        match_count_query("f", ""),
        Ok(r#"{"query":{"match":{"f":""}},"size":0}"#.to_string())
    );
}

#[test]
fn count_query_refuses_an_unsafe_value() {
    assert_eq!(match_count_query("f", "a\"b"), Err(SearchError::Validation));
    assert_eq!(match_count_query("f", "a b"), Err(SearchError::Validation));
    assert_eq!(
        match_count_queries(&vec![Field::Language, Field::Refs], "x}"),
        Err(SearchError::Validation)
    );
    assert_eq!(match_count_queries(&vec![], "x}"), Err(SearchError::Validation));
}

#[test]
fn count_queries_follow_the_order_of_the_fields() {
    let queries =
        match_count_queries(&vec![Field::PkgsKeyword, Field::Language, Field::RefsKeyword], "c#")
            .unwrap();
    assert_eq!(
        queries,
        vec![
            r#"{"query":{"match":{"report.tech.pkgs_kw.k.keyword":"c#"}},"size":0}"#,
            r#"{"query":{"match":{"report.tech.language.keyword":"c#"}},"size":0}"#,
            r#"{"query":{"match":{"report.tech.refs_kw.k.keyword":"c#"}},"size":0}"#,
        ]
    );
    assert_eq!(match_count_queries(&vec![], "x"), Ok(vec![]));
}

#[test]
fn counts_keep_the_order_of_the_fields() {
    // the answers of three probes of which the second came back first and the first last
    let mut arrived: Vec<(usize, Result<u64, SearchError>)> = vec![(1, Ok(5)), (2, Ok(15)), (0, Ok(30))];
    arrived.sort_by_key(|a| a.0);
    let answers: Vec<Result<u64, SearchError>> = arrived.into_iter().map(|a| a.1).collect();
    assert_eq!(collect_counts(answers), Ok(vec![30, 5, 15]));
    assert_eq!(collect_counts(vec![]), Ok(vec![]));
}

#[test]
fn one_failed_count_fails_the_batch() {
    assert_eq!(
        collect_counts(vec![Ok(1), Err(SearchError::DataShape), Ok(3)]),
        Err(SearchError::DataShape)
    );
    assert_eq!(
        collect_counts(vec![
            Ok(1),
            Err(SearchError::Transport(TransportError::BadStatus)),
            Err(SearchError::Validation)
        ]),
        Err(SearchError::Transport(TransportError::BadStatus))
    );
}

#[test]
fn endpoints_are_built_from_address_and_index() {
    let search = SearchRequest { index: "dev".to_string(), body: Some("{}".to_string()) };
    assert_eq!(search.endpoint("https://x.es.amazonaws.com"), "https://x.es.amazonaws.com/dev/_search");
    assert_eq!(search.method(), Method::Post);
    let count = SearchRequest { index: "dev".to_string(), body: None };
    assert_eq!(count.method(), Method::Get);
    assert_eq!(count.endpoint("https://x.es.amazonaws.com"), "https://x.es.amazonaws.com/dev/_count");
    assert_eq!(
        match_count_endpoint("https://x.es.amazonaws.com", "dev"),
        "https://x.es.amazonaws.com/dev/_search?filter_path=aggregations.total.buckets"
    );
}

#[test]
fn join_puts_the_separator_between() {
    assert_eq!(join(&strings(&[]), ","), "");
    assert_eq!(join(&strings(&["a"]), ","), "a");
    assert_eq!(join(&strings(&["a", "b", "c"]), ", "), "a, b, c");
    assert_eq!(join(&strings(&["", ""]), "-"), "-");
}

#[test]
fn combined_terms_list_languages_first() {
    assert_eq!(combined_search_terms(&strings(&["rust"]), &strings(&["logger", "clap"])), "rust logger clap");
    assert_eq!(combined_search_terms(&strings(&[]), &strings(&["clap"])), "clap");
    assert_eq!(combined_search_terms(&strings(&[]), &strings(&[])), "");
}
