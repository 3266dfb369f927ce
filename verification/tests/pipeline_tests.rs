use og_fetcher::pipeline::{
    body_response, fetch_failure_response, handler, identity_response, respond, user_agent,
    FetchOutcome,
};
use og_fetcher::response::Response;

fn carries_cors(r: &Response) -> bool {
    r.headers
        .iter()
        .any(|(n, v)| n == "Access-Control-Allow-Origin" && v == "*")
}

#[test]
fn identity_response_is_name_and_version() {
    let r = identity_response();
    assert_eq!(r.status, 200);
    assert_eq!(r.body, "OpenGraph Fetcher 0.1.0");
    assert_eq!(r.body, user_agent());
}

#[test]
fn empty_path_gets_identity_response_with_cors() {
    let r = handler("", None, None);
    assert_eq!(r.status, 200);
    assert_eq!(r.body, "OpenGraph Fetcher 0.1.0");
    assert!(carries_cors(&r));
}

#[test]
fn empty_path_ignores_query() {
    let r = handler("", Some("a=1&b=2"), None);
    assert_eq!(r.status, 200);
    assert_eq!(r.body, "OpenGraph Fetcher 0.1.0");
    assert!(carries_cors(&r));
}

#[test]
fn failure_with_status_keeps_upstream_status() {
    let outcome = FetchOutcome::Failure {
        status: Some(404),
        message: String::from("upstream said no"),
    };
    let r = handler("example.com", None, Some(outcome));
    assert_eq!(r.status, 404);
    assert_eq!(r.body, "upstream said no");
    assert!(carries_cors(&r));
}

#[test]
fn failure_without_status_becomes_bad_request() {
    let outcome = FetchOutcome::Failure {
        status: None,
        message: String::from("connection refused"),
    };
    let r = handler("example.com", None, Some(outcome));
    assert_eq!(r.status, 400);
    assert_eq!(r.body, "connection refused");
    assert!(carries_cors(&r));
}

#[test]
fn fetch_failure_response_is_undecorated() {
    let r = fetch_failure_response(Some(503), String::from("unavailable"));
    assert_eq!(r.status, 503);
    assert_eq!(r.body, "unavailable");
    assert!(r.headers.is_empty());
}

#[test]
fn fetched_html_yields_json_metadata() {
    let html = "<html><head>\
        <meta property=\"og:title\" content=\"Hello\">\
        </head></html>";
    let outcome = FetchOutcome::Success {
        body: html.as_bytes().to_vec(),
    };
    let r = handler("example.com", None, Some(outcome));
    assert_eq!(r.status, 200);
    assert_eq!(r.body, "{\"og:title\":\"Hello\"}");
    assert!(carries_cors(&r));
}

#[test]
fn html_without_og_metas_still_succeeds_with_empty_object() {
    let html = "<html><head><title>plain</title></head><body></body></html>";
    let outcome = FetchOutcome::Success {
        body: html.as_bytes().to_vec(),
    };
    let r = handler("example.com", None, Some(outcome));
    assert_eq!(r.status, 200);
    assert_eq!(r.body, "{}");
    assert!(carries_cors(&r));
}

#[test]
fn invalid_utf8_body_gives_internal_error() {
    let outcome = FetchOutcome::Success {
        body: vec![0xff, 0xfe, 0x00, 0x80],
    };
    let r = handler("example.com", None, Some(outcome));
    assert_eq!(r.status, 500);
    assert!(carries_cors(&r));
}

#[test]
fn body_response_decodes_multibyte_documents() {
    let html = "<html><head>\
        <meta property=\"og:title\" content=\"caf\u{e9}\">\
        </head></html>";
    let r = body_response(html.as_bytes().to_vec());
    assert_eq!(r.status, 200);
    assert_eq!(r.body, "{\"og:title\":\"caf\u{e9}\"}");
}

#[test]
fn responses_depend_only_on_their_own_document() {
    let first = FetchOutcome::Success {
        body: "<meta property=\"og:title\" content=\"one\">".as_bytes().to_vec(),
    };
    let second = FetchOutcome::Success {
        body: "<meta property=\"og:title\" content=\"two\">".as_bytes().to_vec(),
    };
    let r1 = respond(first);
    let r2 = respond(second);
    assert_eq!(r1.body, "{\"og:title\":\"one\"}");
    assert_eq!(r2.body, "{\"og:title\":\"two\"}");
}

#[test]
fn set_header_keeps_a_single_value() {
    let mut r = Response::with_status(200, String::from("body"));
    r.set_header("Access-Control-Allow-Origin", "null");
    r.set_header("Access-Control-Allow-Origin", "*");
    let matching: Vec<_> = r
        .headers
        .iter()
        .filter(|(n, _)| n == "Access-Control-Allow-Origin")
        .collect();
    assert_eq!(matching.len(), 1);
    assert_eq!(matching[0].1, "*");
    assert_eq!(r.status, 200);
    assert_eq!(r.body, "body");
}

#[test]
fn set_header_keeps_other_headers() {
    let mut r = Response::with_status(204, String::new());
    r.set_header("X-One", "1");
    r.set_header("Access-Control-Allow-Origin", "*");
    assert!(r.headers.iter().any(|(n, v)| n == "X-One" && v == "1"));
    assert!(carries_cors(&r));
}
