//! Taking an endpoint of the search backend apart: its host, its path and
//! the region that its requests are signed for.

use vstd::prelude::*;
use std::str::FromStr;
use crate::text::{chars_of, string_of};

verus! {

/// The suffix that every host of the search backend ends with.
pub const DOMAIN_SUFFIX: &'static str = ".es.amazonaws.com";

/// `s` with `suffix` taken off its end for as long as it ends with it.
pub open spec fn strip_suffix_all(s: Seq<char>, suffix: Seq<char>) -> Seq<char>
    decreases s.len(),
{
    if suffix.len() > 0 && suffix.is_suffix_of(s) {
        strip_suffix_all(s.take(s.len() - suffix.len()), suffix)
    } else {
        s
    }
}

/// The length of the last label of a dotted name: the number of characters
/// other than `.` at its end.
pub open spec fn last_label_len(s: Seq<char>) -> nat
    decreases s.len(),
{
    if s.len() > 0 && s.last() != '.' {
        1 + last_label_len(s.drop_last())
    } else {
        0
    }
}

/// The part of `s` behind its last `.`, or `None` where it holds no `.`.
pub open spec fn after_last_dot(s: Seq<char>) -> Option<Seq<char>> {
    if last_label_len(s) >= s.len() {
        None
    } else {
        Some(s.skip(s.len() - last_label_len(s)))
    }
}

/// The region that requests to `host` are signed for: the label just before
/// the backend's domain suffix.
pub open spec fn signing_region(host: Seq<char>) -> Option<Seq<char>> {
    after_last_dot(strip_suffix_all(host, DOMAIN_SUFFIX@))
}

/// A run of `n` characters other than `.` that starts the sequence or is
/// preceded by a `.` is the last label.
pub proof fn lemma_last_label(s: Seq<char>, n: nat)
    requires
        n <= s.len(),
        forall|i: int| s.len() - n <= i < s.len() ==> s[i] != '.',
        n == s.len() || s[s.len() - n - 1] == '.',
    ensures
        last_label_len(s) == n,
    decreases n,
{
    if n > 0 {
        lemma_last_label(s.drop_last(), (n - 1) as nat);
    }
}

/// The last label holds no `.`, and a `.` stands just before it.
pub proof fn lemma_after_last_dot(s: Seq<char>)
    ensures
        last_label_len(s) <= s.len(),
        after_last_dot(s) matches Some(label) ==> !label.contains('.') && s[s.len() - label.len()
            - 1] == '.',
        after_last_dot(s) is None <==> !s.contains('.'),
    decreases s.len(),
{
    if s.len() > 0 && s.last() != '.' {
        let t = s.drop_last();
        lemma_after_last_dot(t);
        let n = last_label_len(s);
        if n < s.len() {
            let label = s.skip(s.len() - n);
            let shorter = t.skip(t.len() - (n - 1));
            assert forall|i: int| 0 <= i < label.len() implies label[i] != '.' by {
                if i < label.len() - 1 {
                    assert(label[i] == shorter[i]);
                    assert(shorter.contains(shorter[i]));
                }
            }
            assert(t.contains('.'));
            let k = choose|k: int| 0 <= k < t.len() && t[k] == '.';
            assert(s[k] == '.');
        } else {
            assert forall|i: int| 0 <= i < s.len() implies s[i] != '.' by {
                if i < t.len() {
                    assert(t[i] == s[i]);
                    assert(t.contains(t[i]));
                }
            }
        }
    } else if s.len() > 0 {
        assert(s[s.len() - 1] == '.');
        assert(s.skip(s.len() as int).len() == 0);
    }
}

/// True when `chars[..end]` ends with `suffix`.
fn ends_with(chars: &Vec<char>, end: usize, suffix: &Vec<char>) -> (b: bool)
    requires
        end <= chars.len(),
    ensures
        b == suffix@.is_suffix_of(chars@.take(end as int)),
{
    let m = suffix.len();
    if m > end {
        return false;
    }
    let ghost s = chars@.take(end as int);
    let mut i: usize = 0;
    while i < m
        invariant
            i <= m == suffix.len(),
            m <= end <= chars.len(),
            s == chars@.take(end as int),
            forall|k: int| 0 <= k < i ==> suffix@[k] == chars@[end - m + k],
        decreases m - i,
    {
        if suffix[i] != chars[end - m + i] {
            assert(s.subrange(s.len() - m, s.len() as int)[i as int] != suffix@[i as int]);
            return false;
        }
        i = i + 1;
    }
    assert(suffix@ =~= s.subrange(s.len() - m, s.len() as int));
    true
}

/// Computes [`signing_region`].
pub fn region_of_host(host: &str) -> (region: Option<String>)
    ensures
        region is Some <==> signing_region(host@) is Some,
        region matches Some(r) ==> signing_region(host@) == Some(r@),
{
    let chars = chars_of(host);
    let suffix = chars_of(DOMAIN_SUFFIX);
    let m = suffix.len();
    let mut end: usize = chars.len();
    assert(chars@.take(end as int) == chars@);
    while m > 0 && ends_with(&chars, end, &suffix)
        invariant
            end <= chars.len(),
            m == suffix.len(),
            suffix@ == DOMAIN_SUFFIX@,
            strip_suffix_all(chars@.take(end as int), suffix@) == strip_suffix_all(
                chars@,
                suffix@,
            ),
        decreases end,
    {
        assert(chars@.take(end as int).take(end - m) == chars@.take(end - m));
        end = end - m;
    }
    let ghost stem = chars@.take(end as int);
    assert(strip_suffix_all(chars@, suffix@) == stem);
    let mut start: usize = end;
    while start > 0 && chars[start - 1] != '.'
        invariant
            start <= end <= chars.len(),
            forall|i: int| start <= i < end ==> chars@[i] != '.',
        decreases start,
    {
        start = start - 1;
    }
    proof {
        lemma_last_label(stem, (end - start) as nat);
    }
    if start == 0 {
        None
    } else {
        let r = string_of(&chars, start, end);
        assert(stem.skip(start as int) == chars@.subrange(start as int, end as int));
        Some(r)
    }
}

/// What parsing an endpoint as a URI gives: `None` where it is no URI, else
/// the host, if it has one, and the path.
pub uninterp spec fn uri_parts(endpoint: Seq<char>) -> Option<(Option<Seq<char>>, Seq<char>)>;

/// True for the names that stand for a region of the cloud provider.
pub uninterp spec fn known_region(name: Seq<char>) -> bool;

/// The parts of an endpoint, as sequences of characters.
pub open spec fn parts_view(parts: Option<(Option<String>, String)>) -> Option<
    (Option<Seq<char>>, Seq<char>),
> {
    match parts {
        None => None,
        Some((None, path)) => Some((None, path@)),
        Some((Some(host), path)) => Some((Some(host@), path@)),
    }
}

/// Parses `endpoint` with `hyper::Uri::from_maybe_shared` and reads the
/// parsed URI with `Uri::host` and `Uri::path`. The contract claims no more
/// than that the outcome is a function of the endpoint's text, which
/// [`uri_parts`] names.
#[verifier::external_body]
fn parse_endpoint(endpoint: &str) -> (parts: Option<(Option<String>, String)>)
    ensures
        parts_view(parts) == uri_parts(endpoint@),
{
    match hyper::Uri::from_maybe_shared(endpoint.to_owned()) {
        Ok(uri) => Some((uri.host().map(str::to_owned), uri.path().to_owned())),
        Err(_) => None,
    }
}

/// Asks `rusoto_core::Region::from_str` whether `name` is a region. The
/// contract claims no more than that the answer is a function of the name,
/// which [`known_region`] names.
#[verifier::external_body]
fn region_is_known(name: &str) -> (b: bool)
    ensures
        b == known_region(name@),
{
    rusoto_core::Region::from_str(name).is_ok()
}

/// Why an endpoint cannot be called.
#[derive(Clone, Copy, Debug, PartialEq, Eq, Structural)]
pub enum EndpointError {
    /// The endpoint is no URI, or its host has no label before the domain
    /// suffix.
    InvalidUrl,
    /// The endpoint has no host.
    MissingHost,
    /// The label before the domain suffix names no region.
    UnknownRegion,
}

/// Where a request goes and what region it is signed for.
pub struct Target {
    /// The host of the endpoint.
    pub host: String,
    /// The path of the endpoint, without its query.
    pub path: String,
    /// The region to sign for.
    pub region: String,
}

/// A [`Target`] as sequences of characters.
pub struct TargetView {
    pub host: Seq<char>,
    pub path: Seq<char>,
    pub region: Seq<char>,
}

impl View for Target {
    type V = TargetView;

    open spec fn view(&self) -> TargetView {
        TargetView { host: self.host@, path: self.path@, region: self.region@ }
    }
}

/// The target of an endpoint, from the parts that parsing it gave.
pub open spec fn target_of(parts: Option<(Option<Seq<char>>, Seq<char>)>) -> Result<
    TargetView,
    EndpointError,
> {
    match parts {
        None => Err(EndpointError::InvalidUrl),
        Some((None, _)) => Err(EndpointError::MissingHost),
        Some((Some(host), path)) => match signing_region(host) {
            None => Err(EndpointError::InvalidUrl),
            Some(region) => if known_region(region) {
                Ok(TargetView { host, path, region })
            } else {
                Err(EndpointError::UnknownRegion)
            },
        },
    }
}

/// A target or an error, as sequences of characters.
pub open spec fn outcome_view(r: Result<Target, EndpointError>) -> Result<
    TargetView,
    EndpointError,
> {
    match r {
        Ok(t) => Ok(t@),
        Err(e) => Err(e),
    }
}

/// Computes [`target_of`] from the parts of a parsed endpoint.
pub fn target_from_parts(parts: Option<(Option<String>, String)>) -> (r: Result<
    Target,
    EndpointError,
>)
    ensures
        outcome_view(r) == target_of(parts_view(parts)),
{
    match parts {
        None => Err(EndpointError::InvalidUrl),
        Some((None, _)) => Err(EndpointError::MissingHost),
        Some((Some(host), path)) => match region_of_host(host.as_str()) {
            None => Err(EndpointError::InvalidUrl),
            Some(region) => if region_is_known(region.as_str()) {
                Ok(Target { host, path, region })
            } else {
                Err(EndpointError::UnknownRegion)
            },
        },
    }
}

/// Finds the host, the path and the signing region of an endpoint.
pub fn resolve(endpoint: &str) -> (r: Result<Target, EndpointError>)
    ensures
        outcome_view(r) == target_of(uri_parts(endpoint@)),
{
    target_from_parts(parse_endpoint(endpoint))
}

} // verus!
