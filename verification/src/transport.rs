//! The rules of a call to the search backend: which method it uses, what is
//! sent, and how the response is judged. Signing and sending are the
//! caller's work.

use vstd::prelude::*;
use vstd::string::{StrSliceExecFns, StringExecFns};
use vstd::utf8::{encode_utf8, valid_utf8};
use crate::endpoint::{outcome_view, resolve, target_of, uri_parts, EndpointError, Target};

verus! {

/// A parsed JSON document. Nothing in this library looks inside one.
#[verifier::external_type_specification]
#[verifier::external_body]
pub struct ExJsonValue(serde_json::Value);

/// Why a text is no JSON document.
#[verifier::external_type_specification]
#[verifier::external_body]
pub struct ExJsonError(serde_json::Error);

/// The HTTP method of a call.
#[derive(Clone, Copy, Debug, PartialEq, Eq, Structural)]
pub enum Method {
    Get,
    Post,
}

impl Method {
    /// The method as it stands in a request line.
    pub fn name(self) -> (n: &'static str)
        ensures
            n@ == (match self {
                Method::Get => "GET"@,
                Method::Post => "POST"@,
            }),
    {
        match self {
            Method::Get => "GET",
            Method::Post => "POST",
        }
    }
}

/// The content type of every call.
pub const CONTENT_TYPE: &'static str = "application/json";

/// A call is a `GET` when it has no body and a `POST` when it has one.
pub open spec fn method_of(has_body: bool) -> Method {
    if has_body {
        Method::Post
    } else {
        Method::Get
    }
}

/// The address of the search API of an index.
pub open spec fn search_endpoint_text(es_url: Seq<char>, index: Seq<char>) -> Seq<char> {
    es_url + "/"@ + index + "/_search"@
}

/// The address of the count API of an index.
pub open spec fn count_endpoint_text(es_url: Seq<char>, index: Seq<char>) -> Seq<char> {
    es_url + "/"@ + index + "/_count"@
}

/// A request to the search backend: the index it goes to and, for a search,
/// the query. Without a query it asks for the number of documents.
pub struct SearchRequest {
    /// The name of the index.
    pub index: String,
    /// The text of the query, if there is one.
    pub body: Option<String>,
}

impl SearchRequest {
    /// The method of the request: `GET` without a query, `POST` with one.
    pub fn method(&self) -> (m: Method)
        ensures
            m == method_of(self.body is Some),
    {
        if self.body.is_some() {
            Method::Post
        } else {
            Method::Get
        }
    }

    /// The address that the request goes to on the backend at `es_url`.
    pub fn endpoint(&self, es_url: &str) -> (address: String)
        ensures
            address@ == (if self.body is Some {
                search_endpoint_text(es_url@, self.index@)
            } else {
                count_endpoint_text(es_url@, self.index@)
            }),
    {
        let mut address = String::from_str(es_url);
        address.append("/");
        address.append(self.index.as_str());
        if self.body.is_some() {
            address.append("/_search");
        } else {
            address.append("/_count");
        }
        address
    }
}

/// Everything the signer needs to know of a call.
pub struct RequestPlan {
    /// `GET` without a body, `POST` with one.
    pub method: Method,
    /// Host, path and signing region.
    pub target: Target,
    /// The value of the `Content-Type` header.
    pub content_type: &'static str,
    /// The bytes of the body, if there is one.
    pub payload: Option<Vec<u8>>,
    /// The length of the body in bytes, 0 without one. Log lines name a call
    /// by it and never show the body.
    pub payload_size: usize,
}

/// Plans the call of `endpoint` with the given body.
pub fn plan_request(endpoint: &str, body: Option<&str>) -> (r: Result<RequestPlan, EndpointError>)
    ensures
        match target_of(uri_parts(endpoint@)) {
            Err(e) => r matches Err(e2) && e2 == e,
            Ok(target) => {
                &&& r matches Ok(plan)
                &&& plan.target@ == target
                &&& plan.method == method_of(body is Some)
                &&& plan.content_type@ == CONTENT_TYPE@
                &&& match body {
                    Some(text) => plan.payload is Some && plan.payload->0@ == encode_utf8(text@)
                        && plan.payload_size == encode_utf8(text@).len(),
                    None => plan.payload is None && plan.payload_size == 0,
                }
            },
        },
{
    let resolved = resolve(endpoint);
    proof {
        assert(outcome_view(resolved) == target_of(uri_parts(endpoint@)));
    }
    let target = match resolved {
        Ok(t) => t,
        Err(e) => {
            return Err(e);
        },
    };
    match body {
        Some(text) => {
            let bytes = text.as_bytes_vec();
            let size = bytes.len();
            Ok(
                RequestPlan {
                    method: Method::Post,
                    target,
                    content_type: CONTENT_TYPE,
                    payload: Some(bytes),
                    payload_size: size,
                },
            )
        },
        None => Ok(
            RequestPlan {
                method: Method::Get,
                target,
                content_type: CONTENT_TYPE,
                payload: None,
                payload_size: 0,
            },
        ),
    }
}

/// Why a call gave no document.
#[derive(Clone, Copy, Debug, PartialEq, Eq, Structural)]
pub enum TransportError {
    /// The request could not be sent or no response came back.
    Network,
    /// The response had no body.
    EmptyBody,
    /// The status of the response was not a success.
    BadStatus,
    /// The body of the response was no JSON document.
    MalformedBody,
}

/// True for the status codes that stand for success.
pub open spec fn is_success(status: u16) -> bool {
    200 <= status <= 299
}

/// The JSON document that `body` is the text of, or `None` where it is
/// the text of none.
pub uninterp spec fn json_document(body: Seq<u8>) -> Option<serde_json::Value>;

/// True when `body` is the text of a JSON document.
pub open spec fn is_json(body: Seq<u8>) -> bool {
    json_document(body) is Some
}

/// What is wrong with a response, if anything. An empty body is reported
/// before a bad status, and a bad status before a malformed body.
pub open spec fn response_error(status: u16, body: Seq<u8>) -> Option<TransportError> {
    if body.len() == 0 {
        Some(TransportError::EmptyBody)
    } else if !is_success(status) {
        Some(TransportError::BadStatus)
    } else if !is_json(body) {
        Some(TransportError::MalformedBody)
    } else {
        None
    }
}

/// Parses `body` with `serde_json::from_slice`. The contract claims no more
/// than that the outcome is a function of the bytes, which
/// [`json_document`] names.
#[verifier::external_body]
fn parse_json(body: &[u8]) -> (r: Result<serde_json::Value, serde_json::Error>)
    ensures
        match r {
            Ok(document) => json_document(body@) == Some(document),
            Err(_) => json_document(body@) is None,
        },
{
    serde_json::from_slice::<serde_json::Value>(body)
}

/// What is wrong with the status or the size of a response, if anything.
pub fn check_envelope(status: u16, body_len: usize) -> (r: Result<(), TransportError>)
    ensures
        r == (if body_len == 0 {
            Err::<(), _>(TransportError::EmptyBody)
        } else if !is_success(status) {
            Err(TransportError::BadStatus)
        } else {
            Ok(())
        }),
{
    if body_len == 0 {
        Err(TransportError::EmptyBody)
    } else if status < 200 || status > 299 {
        Err(TransportError::BadStatus)
    } else {
        Ok(())
    }
}

/// Turns the outcome of parsing a body into the outcome of the call.
pub fn parsed_document(parsed: Result<serde_json::Value, serde_json::Error>) -> (r: Result<
    serde_json::Value,
    TransportError,
>)
    ensures
        match parsed {
            Ok(document) => r == Ok::<_, TransportError>(document),
            Err(_) => r == Err::<serde_json::Value, _>(TransportError::MalformedBody),
        },
{
    match parsed {
        Ok(document) => Ok(document),
        Err(_) => Err(TransportError::MalformedBody),
    }
}

/// Judges a response: gives its document, or says what is wrong with it.
pub fn classify_response(status: u16, body: &[u8]) -> (r: Result<
    serde_json::Value,
    TransportError,
>)
    ensures
        match r {
            Ok(document) => response_error(status, body@) is None && json_document(body@) == Some(
                document,
            ),
            Err(e) => response_error(status, body@) == Some(e),
        },
{
    match check_envelope(status, body.len()) {
        Err(e) => Err(e),
        Ok(()) => parsed_document(parse_json(body)),
    }
}

/// The bodies of failed calls are logged as they are only below this size.
pub const LOG_BODY_LIMIT: usize = 5000;

/// What to write to the log about the body of a failed call.
#[derive(Debug, PartialEq, Eq)]
pub enum BodyLog {
    /// The body itself.
    Text(String),
    /// The body is short enough and is no text.
    NotText,
    /// The body is too long to log; only its length in bytes is.
    TooLong(usize),
}

/// Decodes `bytes` with `std::str::from_utf8`, which succeeds exactly on
/// valid UTF-8 and then gives the text that those bytes encode.
#[verifier::external_body]
fn text_of(bytes: &[u8]) -> (text: Option<String>)
    ensures
        text is Some <==> valid_utf8(bytes@),
        text matches Some(t) ==> encode_utf8(t@) == bytes@,
{
    match std::str::from_utf8(bytes) {
        Ok(t) => Some(t.to_owned()),
        Err(_) => None,
    }
}

/// Decides what to log about the body of a failed call.
pub fn body_log(body: &[u8]) -> (log: BodyLog)
    ensures
        body.len() >= LOG_BODY_LIMIT ==> log == BodyLog::TooLong(body.len()),
        body.len() < LOG_BODY_LIMIT && !valid_utf8(body@) ==> log == BodyLog::NotText,
        body.len() < LOG_BODY_LIMIT && valid_utf8(body@) ==> (log matches BodyLog::Text(t)
            && encode_utf8(t@) == body@),
{
    if body.len() < LOG_BODY_LIMIT {
        match text_of(body) {
            Some(t) => BodyLog::Text(t),
            None => BodyLog::NotText,
        }
    } else {
        BodyLog::TooLong(body.len())
    }
}

} // verus!
