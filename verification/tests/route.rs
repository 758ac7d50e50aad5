use stm_html::config::Config;
use stm_html::route::{route, route_for_login, Route, MAX_PATH_LEN, PAGE_TTL};
use stm_html::text::{starts_with, trim_end, trim_start};

#[test]
fn config_takes_white_space_and_the_last_slash_off() {
    let config = Config::new("  https://x.us-east-1.es.amazonaws.com/ \n", " dev_idx ", "\trepo_idx");
    assert_eq!(config.es_url, "https://x.us-east-1.es.amazonaws.com");
    assert_eq!(config.dev_idx, "dev_idx");
    assert_eq!(config.repo_idx, "repo_idx");
}

#[test]
fn config_takes_every_slash_off_the_end() {
    let config = Config::new("https://x///", "a b", "");
    assert_eq!(config.es_url, "https://x");
    assert_eq!(config.dev_idx, "a b");
    assert_eq!(config.repo_idx, "");
    assert_eq!(trim_end("///", '/'), "");
    assert_eq!(trim_end("a/b", '/'), "a/b");
    assert_eq!(trim_start("//a/", '/'), "a/");
    assert_eq!(trim_start("", '/'), "");
}

#[test]
fn the_empty_path_is_the_home_page() {
    assert_eq!(route("/", ""), Route::Home);
    assert_eq!(route("", ""), Route::Home);
    assert_eq!(route("/", "a"), Route::Home);
}

#[test]
fn a_query_is_a_search() {
    assert_eq!(route("/", "rust+clap"), Route::Search);
    assert_eq!(route("", "ab"), Route::Search);
}

#[test]
fn a_path_names_a_developer() {
    assert_eq!(route("/rimutaka", ""), Route::Developer { login: "rimutaka".to_string() });
    assert_eq!(route("/rimutaka/", "rust"), Route::Developer { login: "rimutaka".to_string() });
    assert_eq!(route(" //rimutaka// ", ""), Route::Developer { login: "rimutaka".to_string() });
    assert_eq!(route("//", ""), Route::Developer { login: String::new() });
}

#[test]
fn a_safe_login_leads_to_the_developer() {
    assert_eq!(
        route_for_login("rimutaka".to_string()),
        Route::Developer { login: "rimutaka".to_string() }
    );
    assert_eq!(route_for_login(String::new()), Route::Developer { login: String::new() });
    assert_eq!(route_for_login("a\"b".to_string()), Route::NotFound);
    assert_eq!(route_for_login("a b".to_string()), Route::NotFound);
    assert_eq!(route_for_login("a/b".to_string()), Route::NotFound);
}

#[test]
fn white_space_around_a_path_does_not_count() {
    assert_eq!(route("\u{a0}/rimutaka/\u{3000}", ""), Route::Developer { login: "rimutaka".to_string() });
    assert_eq!(route("/ rimutaka /", ""), Route::Developer { login: "rimutaka".to_string() });
    assert_eq!(route("/a b/", ""), Route::NotFound);
}

#[test]
fn a_login_with_unsafe_characters_is_not_found() {
    assert_eq!(route("/a\"b", ""), Route::NotFound);
    assert_eq!(route("/a/b", ""), Route::NotFound);
    assert_eq!(route("/a b", ""), Route::NotFound);
    assert_eq!(route("/{}", "rust"), Route::NotFound);
}

#[test]
fn static_pages_and_long_paths_are_not_found() {
    assert_eq!(route("/about/us.html", ""), Route::NotFound);
    assert_eq!(route("/robots.txt", "rust"), Route::NotFound);
    assert_eq!(route("/about", ""), Route::Developer { login: "about".to_string() });
    let long = format!("/{}", "a".repeat(MAX_PATH_LEN));
    assert_eq!(route(&long, ""), Route::NotFound);
    let longest = format!("/{}", "a".repeat(MAX_PATH_LEN - 1));
    assert_eq!(route(&longest, ""), Route::Developer { login: "a".repeat(MAX_PATH_LEN - 1) });
}

#[test]
fn the_length_of_a_path_counts_bytes() {
    let path = format!("/{}", "é".repeat(50));
    assert_eq!(path.chars().count(), 51);
    assert_eq!(route(&path, ""), Route::NotFound);
}

#[test]
fn pages_have_a_template_and_a_status() {
    assert_eq!(Route::NotFound.template_name(), "404.html");
    assert_eq!(Route::NotFound.http_status(), 404);
    assert_eq!(Route::Home.template_name(), "home.html");
    assert_eq!(Route::Home.http_status(), 200);
    assert_eq!(Route::Search.template_name(), "keyword.html");
    assert_eq!(Route::Search.http_status(), 200);
    let dev = Route::Developer { login: "x".to_string() };
    assert_eq!(dev.template_name(), "dev.html");
    assert_eq!(dev.http_status(), 200);
    assert_eq!(PAGE_TTL, 600);
}

#[test]
fn starts_with_compares_characters() {
    assert!(starts_with("/about/x", "/about/"));
    assert!(starts_with("abc", ""));
    assert!(starts_with("abc", "abc"));
    assert!(!starts_with("ab", "abc"));
    assert!(!starts_with("/About/", "/about/"));
}
