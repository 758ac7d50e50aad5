//! Which page a request asks for.

use vstd::prelude::*;
use vstd::utf8::encode_utf8;
use crate::guard::{is_safe, is_unsafe};
use crate::text::{
    starts_with, strip_leading, strip_trailing, trim, trim_end, trim_start, trimmed,
};

verus! {

/// No path longer than this many bytes is looked at.
pub const MAX_PATH_LEN: usize = 100;

/// The number of seconds for which a page may be kept by caches.
pub const PAGE_TTL: u32 = 600;

/// The page that a request asks for.
#[derive(Debug, PartialEq, Eq)]
pub enum Route {
    /// Nothing that this service has.
    NotFound,
    /// The profile of the developer with this login.
    Developer { login: String },
    /// The developers found for the search string.
    Search,
    /// The home page.
    Home,
}

/// A [`Route`] with its login as a sequence of characters.
pub enum RouteView {
    NotFound,
    Developer { login: Seq<char> },
    Search,
    Home,
}

impl View for Route {
    type V = RouteView;

    open spec fn view(&self) -> RouteView {
        match *self {
            Route::NotFound => RouteView::NotFound,
            Route::Developer { login } => RouteView::Developer { login: login@ },
            Route::Search => RouteView::Search,
            Route::Home => RouteView::Home,
        }
    }
}

impl Route {
    /// The name of the template that shows the page.
    pub fn template_name(&self) -> (name: &'static str)
        ensures
            name@ == (match self@ {
                RouteView::NotFound => "404.html"@,
                RouteView::Developer { .. } => "dev.html"@,
                RouteView::Search => "keyword.html"@,
                RouteView::Home => "home.html"@,
            }),
    {
        match self {
            Route::NotFound => "404.html",
            Route::Developer { .. } => "dev.html",
            Route::Search => "keyword.html",
            Route::Home => "home.html",
        }
    }

    /// The status that the page is answered with.
    pub fn http_status(&self) -> (status: u32)
        ensures
            status == (if self@ is NotFound {
                404u32
            } else {
                200u32
            }),
    {
        match self {
            Route::NotFound => 404,
            _ => 200,
        }
    }
}

/// The login that a path names: the path without the white space and the
/// `/` around it.
pub open spec fn login_of(path: Seq<char>) -> Seq<char> {
    trimmed(strip_leading(strip_trailing(trimmed(path), '/'), '/'))
}

/// True for the paths of the pages that are served from elsewhere.
pub open spec fn is_static_path(path: Seq<char>) -> bool {
    "/about/"@.is_prefix_of(path) || "/robots.txt"@.is_prefix_of(path)
}

/// The page of the developer that a login names: the profile where the
/// login passes the injection guard, else nothing.
pub open spec fn login_route(login: Seq<char>) -> RouteView {
    if is_safe(login) {
        RouteView::Developer { login }
    } else {
        RouteView::NotFound
    }
}

/// The page that a request with this path and this query asks for. A path
/// of more than one byte names a developer; without one, a query of more
/// than one byte is a search.
pub open spec fn route_of(path: Seq<char>, query: Seq<char>) -> RouteView {
    if encode_utf8(path).len() > MAX_PATH_LEN || is_static_path(path) {
        RouteView::NotFound
    } else if encode_utf8(path).len() > 1 {
        login_route(login_of(path))
    } else if encode_utf8(query).len() > 1 {
        RouteView::Search
    } else {
        RouteView::Home
    }
}

/// Decides which page the login of a developer leads to.
pub fn route_for_login(login: String) -> (r: Route)
    ensures
        r@ == login_route(login@),
{
    if is_unsafe(login.as_str()) {
        Route::NotFound
    } else {
        Route::Developer { login }
    }
}

/// Decides which page a request asks for.
pub fn route(url_path: &str, url_query: &str) -> (r: Route)
    ensures
        r@ == route_of(url_path@, url_query@),
{
    let path_len = url_path.as_bytes().len();
    let query_len = url_query.as_bytes().len();
    if path_len > MAX_PATH_LEN {
        return Route::NotFound;
    }
    if starts_with(url_path, "/about/") || starts_with(url_path, "/robots.txt") {
        return Route::NotFound;
    }
    if path_len > 1 {
        let without_end = trim_end(trim(url_path).as_str(), '/');
        let without_start = trim_start(without_end.as_str(), '/');
        return route_for_login(trim(without_start.as_str()));
    }
    if query_len > 1 {
        Route::Search
    } else {
        Route::Home
    }
}

} // verus!
