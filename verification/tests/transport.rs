use stm_html::endpoint::{region_of_host, resolve, target_from_parts, EndpointError, DOMAIN_SUFFIX};
use stm_html::transport::{
    body_log, check_envelope, classify_response, parsed_document, plan_request, BodyLog, Method,
    TransportError, CONTENT_TYPE, LOG_BODY_LIMIT,
};

const ENDPOINT: &str = "https://search-dev.ap-southeast-2.es.amazonaws.com/my_index/_search";

#[test]
fn region_is_the_label_before_the_domain_suffix() {
    assert_eq!(
        region_of_host("search-dev.ap-southeast-2.es.amazonaws.com"),
        Some("ap-southeast-2".to_string())
    );
    assert_eq!(region_of_host("x.us-east-1.es.amazonaws.com"), Some("us-east-1".to_string()));
    assert_eq!(region_of_host("a.b.c"), Some("c".to_string()));
    assert_eq!(region_of_host("a."), Some("".to_string()));
}

#[test]
fn region_needs_a_label_before_the_suffix() {
    assert_eq!(region_of_host("localhost"), None);
    assert_eq!(region_of_host(""), None);
    assert_eq!(region_of_host("us-east-1.es.amazonaws.com"), None);
    assert_eq!(region_of_host(".es.amazonaws.com"), None);
}

#[test]
fn region_ignores_a_repeated_suffix() {
    assert_eq!(
        region_of_host("x.eu-west-1.es.amazonaws.com.es.amazonaws.com"),
        Some("eu-west-1".to_string())
    );
    assert_eq!(
        region_of_host("x.eu-west-1.es.amazonaws.com.es.amazonaws.com"),
        "x.eu-west-1.es.amazonaws.com.es.amazonaws.com"
            .trim_end_matches(DOMAIN_SUFFIX)
            .rsplit('.')
            .next()
            .map(|s| s.to_string())
    );
}

#[test]
fn resolve_finds_host_path_and_region() {
    let target = resolve(ENDPOINT).unwrap();
    assert_eq!(target.host, "search-dev.ap-southeast-2.es.amazonaws.com");
    assert_eq!(target.path, "/my_index/_search");
    assert_eq!(target.region, "ap-southeast-2");
}

#[test]
fn resolve_leaves_the_query_out_of_the_path() {
    let target = resolve(
        "https://search-dev.us-west-2.es.amazonaws.com/dev/_search?filter_path=aggregations.total.buckets",
    )
    .unwrap();
    assert_eq!(target.path, "/dev/_search");
    assert_eq!(target.region, "us-west-2");
}

#[test]
fn resolve_says_what_is_wrong_with_an_endpoint() {
    assert_eq!(resolve("").err(), Some(EndpointError::InvalidUrl));
    assert_eq!(resolve("http://exa mple.com/").err(), Some(EndpointError::InvalidUrl));
    assert_eq!(resolve("/my_index/_search").err(), Some(EndpointError::MissingHost));
    assert_eq!(resolve("https://localhost/my_index").err(), Some(EndpointError::InvalidUrl));
    assert_eq!(
        resolve("https://search-dev.mars-north-1.es.amazonaws.com/x").err(),
        Some(EndpointError::UnknownRegion)
    );
    assert_eq!(resolve("https://example.com/x").err(), Some(EndpointError::UnknownRegion));
}

#[test]
fn target_is_made_from_the_parts_of_an_endpoint() {
    assert_eq!(target_from_parts(None).err(), Some(EndpointError::InvalidUrl));
    assert_eq!(
        target_from_parts(Some((None, "/x".to_string()))).err(),
        Some(EndpointError::MissingHost)
    );
    assert_eq!(
        target_from_parts(Some((Some("nodots".to_string()), "/x".to_string()))).err(),
        Some(EndpointError::InvalidUrl)
    );
    assert_eq!(
        target_from_parts(Some((Some("a.nowhere-1.es.amazonaws.com".to_string()), "/x".to_string())))
            .err(),
        Some(EndpointError::UnknownRegion)
    );
    let target = target_from_parts(Some((
        Some("a.eu-central-1.es.amazonaws.com".to_string()),
        "/idx/_count".to_string(),
    )))
    .unwrap();
    assert_eq!(target.host, "a.eu-central-1.es.amazonaws.com");
    assert_eq!(target.path, "/idx/_count");
    assert_eq!(target.region, "eu-central-1");
}

#[test]
fn a_call_without_a_body_is_a_get() {
    let plan = plan_request(ENDPOINT, None).unwrap();
    assert_eq!(plan.method, Method::Get);
    assert_eq!(plan.method.name(), "GET");
    assert_eq!(plan.payload, None);
    assert_eq!(plan.content_type, "application/json");
    assert_eq!(plan.payload_size, 0);
    assert_eq!(plan.target.region, "ap-southeast-2");
}

#[test]
fn a_call_with_a_body_is_a_post() {
    let plan = plan_request(ENDPOINT, Some("{\"q\":\"é\"}")).unwrap();
    assert_eq!(plan.method, Method::Post);
    assert_eq!(plan.method.name(), "POST");
    assert_eq!(plan.payload, Some("{\"q\":\"é\"}".as_bytes().to_vec()));
    assert_eq!(plan.payload_size, 10);
    assert_eq!(plan.target.path, "/my_index/_search");
    assert_eq!(plan.content_type, CONTENT_TYPE);
    assert_eq!(CONTENT_TYPE, "application/json");
}

#[test]
fn a_call_to_a_bad_endpoint_is_not_planned() {
    assert_eq!(plan_request("", None).err(), Some(EndpointError::InvalidUrl));
    assert_eq!(plan_request("/x", Some("{}")).err(), Some(EndpointError::MissingHost));
}

#[test]
fn an_empty_body_is_reported_first() {
    assert_eq!(classify_response(200, b"").err(), Some(TransportError::EmptyBody));
    assert_eq!(classify_response(500, b"").err(), Some(TransportError::EmptyBody));
    assert_eq!(check_envelope(404, 0), Err(TransportError::EmptyBody));
}

#[test]
fn a_status_other_than_success_is_reported() {
    for status in [100u16, 199, 300, 301, 400, 403, 404, 500, 503] {
        assert_eq!(classify_response(status, b"{}").err(), Some(TransportError::BadStatus));
        assert_eq!(classify_response(status, b"no json").err(), Some(TransportError::BadStatus));
        assert_eq!(check_envelope(status, 2), Err(TransportError::BadStatus));
    }
    for status in [200u16, 201, 204, 299] {
        assert_eq!(check_envelope(status, 2), Ok(()));
        assert!(classify_response(status, b"{}").is_ok());
    }
}

#[test]
fn a_body_that_is_no_json_is_reported() {
    assert_eq!(classify_response(200, b"<html>").err(), Some(TransportError::MalformedBody));
    assert_eq!(classify_response(200, b"{\"a\":").err(), Some(TransportError::MalformedBody));
    assert_eq!(classify_response(200, b"{} {}").err(), Some(TransportError::MalformedBody));
    assert_eq!(classify_response(200, &[0xff, 0xfe]).err(), Some(TransportError::MalformedBody));
}

#[test]
fn a_good_response_gives_its_document() {
    let document = classify_response(200, b"{\"hits\":{\"total\":{\"value\":42}}}").unwrap();
    let value = document
        .get("hits")
        .and_then(|h| h.get("total"))
        .and_then(|t| t.get("value"))
        .and_then(|v| v.as_u64());
    assert_eq!(value, Some(42));
    assert_eq!(classify_response(200, b" [1, 2] ").unwrap().as_array().map(|a| a.len()), Some(2));
}

#[test]
fn a_parsed_document_is_handed_on_as_it_is() {
    let good = serde_json::from_slice::<serde_json::Value>(b"{\"a\":[true]}");
    let same = serde_json::from_slice::<serde_json::Value>(b"{\"a\":[true]}").unwrap();
    assert_eq!(parsed_document(good), Ok(same));
    let bad = serde_json::from_slice::<serde_json::Value>(b"{");
    assert_eq!(parsed_document(bad), Err(TransportError::MalformedBody));
}

#[test]
fn a_short_body_is_logged_as_it_is() {
    assert_eq!(body_log(b"{\"error\":\"denied\"}"), BodyLog::Text("{\"error\":\"denied\"}".to_string()));
    assert_eq!(body_log("naïve".as_bytes()), BodyLog::Text("naïve".to_string()));
    assert_eq!(body_log(b""), BodyLog::Text(String::new()));
    let almost = vec![b'a'; LOG_BODY_LIMIT - 1];
    assert_eq!(body_log(&almost), BodyLog::Text("a".repeat(4999)));
}

#[test]
fn a_short_body_that_is_no_text_is_not_logged() {
    assert_eq!(body_log(&[0xff, 0xfe, 0x00]), BodyLog::NotText);
    assert_eq!(body_log(&[b'a', 0xc3]), BodyLog::NotText);
}

#[test]
fn a_long_body_is_logged_by_its_length() {
    assert_eq!(LOG_BODY_LIMIT, 5000);
    assert_eq!(body_log(&vec![b'a'; 5000]), BodyLog::TooLong(5000));
    assert_eq!(body_log(&vec![0xff; 6001]), BodyLog::TooLong(6001));
}
