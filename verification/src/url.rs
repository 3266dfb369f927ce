//! URL resolver: derives the fully-qualified target URL from an inbound
//! request's path (with the leading `/` already stripped) and its optional
//! raw query string.

use vstd::prelude::*;
use vstd::string::*;
use crate::strutil::{is_prefix_of, str_starts_with};

verus! {

/// The path already carries an explicit scheme.
pub open spec fn has_scheme(path: Seq<char>) -> bool {
    is_prefix_of("http://"@, path) || is_prefix_of("https://"@, path)
}

/// The target URL derived from a request: `None` for the empty path;
/// otherwise the path, prefixed with `https://` unless it already carries a
/// scheme, with `?` and the raw query appended when a query is present.
pub open spec fn target_of(path: Seq<char>, query: Option<Seq<char>>) -> Option<Seq<char>> {
    if path.len() == 0 {
        None
    } else {
        let base = if has_scheme(path) {
            path
        } else {
            "https://"@ + path
        };
        match query {
            Some(q) => Some(base + "?"@ + q),
            None => Some(base),
        }
    }
}

/// Resolve the target URL for a request path and optional query string.
///
/// The empty path yields no URL: that request is answered with the identity
/// response instead of a fetch.
pub fn parse_query(path: &str, query: Option<&str>) -> (r: Option<String>)
    ensures
        r.deep_view() == target_of(path@, query.deep_view()),
        r is Some <==> path@.len() > 0,
{
    if path.unicode_len() == 0 {
        return None;
    }
    let mut url = String::new();
    if !str_starts_with(path, "https://") && !str_starts_with(path, "http://") {
        url.append("https://");
    }
    url.append(path);
    let ghost base = url@;
    match query {
        Some(q) => {
            url.append("?");
            url.append(q);
            proof {
                assert(url@ =~= base + "?"@ + q@);
            }
        },
        None => {},
    }
    Some(url)
}

} // verus!
