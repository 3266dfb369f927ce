//! JSON serialization of the extracted mapping, through serde_json behind a
//! trusted wrapper.

use vstd::prelude::*;
use crate::entrymap::map_of;

verus! {

/// The JSON object text for a string-to-string mapping, with the keys in
/// sorted order: what serde_json returns for such a mapping.
pub uninterp spec fn json_of(m: Map<Seq<char>, Seq<char>>) -> Seq<char>;

/// Relies on `serde_json::to_string` over a `BTreeMap<String, String>`: the
/// output is a function of the key/value mapping alone (a `BTreeMap`
/// iterates its keys in sorted order, and collecting keeps the last value
/// of a repeated key, as the fold behind `map_of` does), an empty mapping
/// serializes to `{}`, and serialization cannot fail, since it fails only
/// for a failing `Serialize` impl or a map with non-string keys.
#[verifier::external_body]
pub(crate) fn json_encode_entries(entries: &Vec<(String, String)>) -> (r: Result<String, String>)
    ensures
        r is Ok,
        r matches Ok(s) ==> s@ == json_of(map_of(entries.deep_view())),
        r matches Ok(s) ==> (map_of(entries.deep_view()).len() == 0 ==> s@ == "{}"@),
{
    let map: std::collections::BTreeMap<String, String> = entries.iter().cloned().collect();
    serde_json::to_string(&map).map_err(|e| e.to_string())
}

} // verus!
