//! A small Open Graph fetcher core: resolves a target URL from a request
//! path, turns fetched HTML into an Open Graph property mapping, and builds
//! the HTTP response for every outcome of the fetch, decorated with a
//! permissive cross-origin header.

pub mod entrymap;
pub mod json;
pub mod og;
pub mod pipeline;
pub mod response;
pub mod strutil;
pub mod url;
