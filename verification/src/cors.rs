//! The headers by which the service lets pages of other origins read it.

use vstd::prelude::*;

verus! {

/// Adds the headers for cross-origin access to every response.
#[derive(Clone, Copy, Debug)]
pub struct CORS;

/// The headers for cross-origin access, each with its value: any origin,
/// the four methods that the service knows, any header, and credentials.
pub open spec fn cors_headers() -> Seq<(Seq<char>, Seq<char>)> {
    seq![
        ("Access-Control-Allow-Origin"@, "*"@),
        ("Access-Control-Allow-Methods"@, "POST, GET, PATCH, OPTIONS"@),
        ("Access-Control-Allow-Headers"@, "*"@),
        ("Access-Control-Allow-Credentials"@, "true"@),
    ]
}

impl CORS {
    /// What this addition to the service calls itself.
    pub fn name(&self) -> (name: &'static str)
        ensures
            name@ == "Add CORS headers to responses"@,
    {
        "Add CORS headers to responses"
    }

    /// The headers to set on a response, in the order in which they are set.
    pub fn headers(&self) -> (headers: Vec<(&'static str, &'static str)>)
        ensures
            headers.deep_view() == cors_headers(),
    {
        let mut headers: Vec<(&'static str, &'static str)> = Vec::new();
        headers.push(("Access-Control-Allow-Origin", "*"));
        headers.push(("Access-Control-Allow-Methods", "POST, GET, PATCH, OPTIONS"));
        headers.push(("Access-Control-Allow-Headers", "*"));
        headers.push(("Access-Control-Allow-Credentials", "true"));
        assert(headers.deep_view() =~= cors_headers());
        headers
    }
}

} // verus!
