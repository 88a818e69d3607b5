//! Application-wide constants and URL helpers.

use vstd::prelude::*;

verus! {

/// The base address of the backing web service.
pub open spec fn base_url() -> Seq<char> {
    "http://localhost:3000"@
}

/// Appends a path to the base address of the backing web service.
pub fn clipture_to_url(url: &str) -> (r: String)
    ensures
        r@ == base_url() + url@,
{
    let base = String::from_str("http://localhost:3000");
    base.concat(url)
}

} // verus!
