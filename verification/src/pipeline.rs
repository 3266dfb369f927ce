//! The fetch pipeline: every outcome of a request — no target URL, a failed
//! fetch, or fetched body bytes — mapped to its HTTP response, and the full
//! handler that decorates each response with the permissive cross-origin
//! header.

use vstd::prelude::*;
use vstd::string::*;
use vstd::utf8::{decode_utf8, valid_utf8};
use crate::json::json_of;
use crate::og::{og_map, og_meta_of, parse_open_graph};
use crate::response::{
    has_header, Response, STATUS_BAD_REQUEST, STATUS_INTERNAL_SERVER_ERROR, STATUS_OK,
};

verus! {

/// The service's name and version: the fixed user-agent string of the
/// outbound fetch and the body of the identity response.
pub open spec fn user_agent_view() -> Seq<char> {
    "OpenGraph Fetcher 0.1.0"@
}

/// The service's name and version as a string.
pub fn user_agent() -> (r: String)
    ensures
        r@ == user_agent_view(),
{
    String::from_str("OpenGraph Fetcher 0.1.0")
}

/// The outcome of the outbound GET against the target URL, as the fetching
/// edge reports it: the raw body bytes on success, or a failure with its
/// textual description and the upstream status code when it carries one.
pub enum FetchOutcome {
    Success { body: Vec<u8> },
    Failure { status: Option<u16>, message: String },
}

/// Relies on `String::from_utf8`: it succeeds exactly on input that is
/// valid UTF-8, returns the characters those bytes encode, and on failure
/// its error describes the offending input.
#[verifier::external_body]
fn utf8_body(bytes: Vec<u8>) -> (r: Result<String, String>)
    ensures
        r is Ok <==> valid_utf8(bytes@),
        r matches Ok(s) ==> s@ == decode_utf8(bytes@),
{
    String::from_utf8(bytes).map_err(|e| e.to_string())
}

/// The identity response: 200 with the service's name and version as body.
pub fn identity_response() -> (r: Response)
    ensures
        r.status == STATUS_OK,
        r.body@ == user_agent_view(),
        r.headers@.len() == 0,
{
    Response::with_status(STATUS_OK, user_agent())
}

/// The response for a failed fetch: its description as body, with the
/// upstream status code when the failure carries one and 400 otherwise.
pub fn fetch_failure_response(status: Option<u16>, message: String) -> (r: Response)
    ensures
        r.status == (match status {
            Some(s) => s,
            None => STATUS_BAD_REQUEST,
        }),
        r.body == message,
        r.headers@.len() == 0,
{
    match status {
        Some(s) => Response::with_status(s, message),
        None => Response::with_status(STATUS_BAD_REQUEST, message),
    }
}

/// The response for fetched body bytes: decoded as UTF-8, parsed for Open
/// Graph metadata and serialized as JSON under status 200; bytes that are
/// not valid UTF-8 give status 500 with the decoder's error as body. When
/// the document holds no usable Open Graph pair the body is `{}`.
pub fn body_response(bytes: Vec<u8>) -> (r: Response)
    ensures
        r.headers@.len() == 0,
        valid_utf8(bytes@) ==> r.status == STATUS_OK && r.body@ == json_of(
            og_map(og_meta_of(decode_utf8(bytes@))),
        ),
        valid_utf8(bytes@) && og_map(og_meta_of(decode_utf8(bytes@))).len() == 0 ==> r.body@
            == "{}"@,
        !valid_utf8(bytes@) ==> r.status == STATUS_INTERNAL_SERVER_ERROR,
{
    match utf8_body(bytes) {
        Err(message) => Response::with_status(STATUS_INTERNAL_SERVER_ERROR, message),
        Ok(text) => {
            let data = parse_open_graph(text.as_str());
            match data.to_json() {
                Ok(json) => Response::with_status(STATUS_OK, json),
                Err(message) => Response::with_status(STATUS_INTERNAL_SERVER_ERROR, message),
            }
        },
    }
}

/// One fetch outcome mapped to its response, not yet decorated.
pub fn respond(outcome: FetchOutcome) -> (r: Response)
    ensures
        r.headers@.len() == 0,
        outcome matches FetchOutcome::Failure { status, message } ==> r.status == (match status {
            Some(s) => s,
            None => STATUS_BAD_REQUEST,
        }) && r.body@ == message@,
        outcome matches FetchOutcome::Success { body } ==> (valid_utf8(body@) ==> r.status
            == STATUS_OK && r.body@ == json_of(og_map(og_meta_of(decode_utf8(body@))))),
        outcome matches FetchOutcome::Success { body } ==> (valid_utf8(body@) && og_map(
            og_meta_of(decode_utf8(body@)),
        ).len() == 0 ==> r.body@ == "{}"@),
        outcome matches FetchOutcome::Success { body } ==> (!valid_utf8(body@) ==> r.status
            == STATUS_INTERNAL_SERVER_ERROR),
{
    match outcome {
        FetchOutcome::Success { body } => body_response(body),
        FetchOutcome::Failure { status, message } => fetch_failure_response(status, message),
    }
}

/// The served request pipeline, decorated. `path` is the request path after
/// the leading slash and `query` its raw query string; `outcome` is what
/// the fetch of the resolved target URL returned, and is absent exactly
/// when the path is empty and no fetch happens. The empty path gets the
/// identity response, whatever the query; every response, success or
/// failure, carries `Access-Control-Allow-Origin: *`.
pub fn handler(path: &str, query: Option<&str>, outcome: Option<FetchOutcome>) -> (r: Response)
    requires
        path@.len() == 0 <==> outcome is None,
    ensures
        has_header(r, "Access-Control-Allow-Origin"@, "*"@),
        path@.len() == 0 ==> r.status == STATUS_OK && r.body@ == user_agent_view(),
        outcome matches Some(FetchOutcome::Failure { status, message }) ==> r.status == (
        match status {
            Some(s) => s,
            None => STATUS_BAD_REQUEST,
        }) && r.body@ == message@,
        outcome matches Some(FetchOutcome::Success { body }) ==> (valid_utf8(body@) ==> r.status
            == STATUS_OK && r.body@ == json_of(og_map(og_meta_of(decode_utf8(body@))))),
        outcome matches Some(FetchOutcome::Success { body }) ==> (valid_utf8(body@) && og_map(
            og_meta_of(decode_utf8(body@)),
        ).len() == 0 ==> r.body@ == "{}"@),
        outcome matches Some(FetchOutcome::Success { body }) ==> (!valid_utf8(body@) ==> r.status
            == STATUS_INTERNAL_SERVER_ERROR),
    {
    let mut resp = match outcome {
        None => identity_response(),
        Some(o) => respond(o),
    };
    resp.set_header("Access-Control-Allow-Origin", "*");
    resp
}

} // verus!
