//! On-demand site checking entry points that work from a URL alone.

use vstd::prelude::*;
use crate::website::has_http_or_https;
use crate::website::has_scheme;

verus! {

/// Namespace for the on-demand site checks.
pub struct Website {}

impl Website {
    /// The submitted text already names its scheme: it opens with
    /// `http://` or `https://`.
    pub fn has_http_s(url: &str) -> (r: bool)
        ensures
            r == has_scheme(url@),
    {
        has_http_or_https(url)
    }
}

} // verus!
