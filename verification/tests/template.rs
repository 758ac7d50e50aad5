use stm_html::template::{
    engineer_by_login, substitute, PLACEHOLDER, SEARCH_ENGINEER_BY_LOGIN, SEARCH_TOP_USERS,
};

#[test]
fn substitute_replaces_every_placeholder() {
    assert_eq!(substitute("a%b%c", "X"), "aXbXc");
}

#[test]
fn substitute_handles_placeholders_at_the_ends_and_in_a_row() {
    assert_eq!(substitute("%", "rust"), "rust");
    assert_eq!(substitute("%%", "ab"), "abab");
    assert_eq!(substitute("%x%", "-"), "-x-");
    assert_eq!(substitute("x%", ""), "x");
}

#[test]
fn substitute_leaves_no_placeholder() {
    let out = substitute("{\"a\":\"%\",\"b\":\"%\"}", "v1.2");
    assert_eq!(out, "{\"a\":\"v1.2\",\"b\":\"v1.2\"}");
    assert!(!out.contains(PLACEHOLDER));
}

#[test]
fn engineer_query_holds_the_login() {
    assert_eq!(
        engineer_by_login("rimutaka"),
        "{\"query\":{\"term\":{\"login.keyword\":{\"value\":\"rimutaka\"}}}}"
    );
    assert_eq!(engineer_by_login("rimutaka"), SEARCH_ENGINEER_BY_LOGIN.replace('%', "rimutaka"));
}

#[test]
fn templates_are_as_defined() {
    assert_eq!(SEARCH_ENGINEER_BY_LOGIN.matches('%').count(), 1);
    assert_eq!(
        SEARCH_TOP_USERS,
        "{\"size\":24,\"query\":{\"match\":{\"hireable\":{\"query\":\"true\"}}},\"sort\":[{\"report.timestamp\":{\"order\":\"desc\"}}]}"
    );
}
