//! The HTTP response model: status code, body text and headers, and the
//! header-setting decoration that is applied to every outgoing response.

use vstd::prelude::*;
use vstd::string::*;
use crate::strutil::str_eq;

verus! {

/// The status code of a successful response.
pub const STATUS_OK: u16 = 200;

/// The status code of an upstream failure that carries no status of its own.
pub const STATUS_BAD_REQUEST: u16 = 400;

/// The status code of a decode or serialization failure.
pub const STATUS_INTERNAL_SERVER_ERROR: u16 = 500;

/// An HTTP response as the pipeline builds it: status code, body text, and
/// the headers set on it.
pub struct Response {
    pub status: u16,
    pub body: String,
    pub headers: Vec<(String, String)>,
}

/// The response carries the header `name` with the value `value`.
pub open spec fn has_header(r: Response, name: Seq<char>, value: Seq<char>) -> bool {
    exists|i: int|
        0 <= i < r.headers.deep_view().len() && r.headers.deep_view()[i] == (name, value)
}

/// The headers of `hs` except every one named `name`.
pub open spec fn headers_without(hs: Seq<(Seq<char>, Seq<char>)>, name: Seq<char>) -> Seq<
    (Seq<char>, Seq<char>),
> {
    hs.filter(|p: (Seq<char>, Seq<char>)| p.0 != name)
}

impl Response {
    /// A headerless response with the given status and body.
    pub fn with_status(status: u16, body: String) -> (r: Response)
        ensures
            r.status == status,
            r.body == body,
            r.headers@.len() == 0,
    {
        Response { status, body, headers: Vec::new() }
    }

    /// Set header `name` to `value`. Any earlier value of the header is
    /// dropped, as an insert into hyper's header map drops it; the status,
    /// the body and the other headers are untouched.
    pub fn set_header(&mut self, name: &str, value: &str)
        ensures
            final(self).status == old(self).status,
            final(self).body == old(self).body,
            final(self).headers.deep_view() == headers_without(
                old(self).headers.deep_view(),
                name@,
            ).push((name@, value@)),
            has_header(*final(self), name@, value@),
    {
        let ghost orig = self.headers.deep_view();
        let n = self.headers.len();
        let mut kept: Vec<(String, String)> = Vec::new();
        let mut i: usize = 0;
        while i < n
            invariant
                i <= n,
                n == self.headers@.len(),
                orig == self.headers.deep_view(),
                kept.deep_view() == headers_without(orig.take(i as int), name@),
            decreases n - i,
        {
            let ghost kept_before = kept.deep_view();
            let keep = !str_eq(self.headers[i].0.as_str(), name);
            if keep {
                let k = self.headers[i].0.clone();
                let v = self.headers[i].1.clone();
                kept.push((k, v));
            }
            proof {
                reveal_with_fuel(Seq::filter, 2);
                let taken = orig.take(i + 1);
                assert(taken.drop_last() =~= orig.take(i as int));
                assert(taken.last() == orig[i as int]);
                assert(orig[i as int] == (
                    self.headers@[i as int].0@,
                    self.headers@[i as int].1@,
                ));
                if keep {
                    assert(orig[i as int].0 != name@);
                    assert(headers_without(taken, name@) == headers_without(
                        orig.take(i as int),
                        name@,
                    ).push(orig[i as int]));
                    assert(kept.deep_view() =~= kept_before.push(orig[i as int]));
                } else {
                    assert(orig[i as int].0 == name@);
                    assert(headers_without(taken, name@) == headers_without(
                        orig.take(i as int),
                        name@,
                    ));
                }
            }
            i = i + 1;
        }
        proof {
            assert(orig.take(n as int) =~= orig);
        }
        kept.push((String::from_str(name), String::from_str(value)));
        self.headers = kept;
        proof {
            let hs = self.headers.deep_view();
            assert(hs =~= headers_without(orig, name@).push((name@, value@)));
            assert(hs[hs.len() - 1] == (name@, value@));
        }
    }
}

} // verus!
