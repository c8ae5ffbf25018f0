//! Forming the request path under the service's versioned API prefix.

use vstd::prelude::*;
use vstd::string::*;
use crate::strutil::{spec_trim_matches, trim_matches_char};

verus! {

/// The base path and the call path, each stripped of surrounding slashes,
/// joined around the API version segment.
pub open spec fn spec_api_path_of(base_path: Seq<char>, path: Seq<char>) -> Seq<char> {
    spec_trim_matches(base_path, '/') + "/v1/"@ + spec_trim_matches(path, '/')
}

/// Take a service URL's path and an API path we wish to call, and return
/// the path component pointed at said API path.
pub fn make_api_path(base_path: &str, path: &str) -> (r: String)
    ensures
        r@ == spec_api_path_of(base_path@, path@),
{
    let mut out = trim_matches_char(base_path, '/').to_owned();
    out.append("/v1/");
    out.append(trim_matches_char(path, '/'));
    out
}

} // verus!
