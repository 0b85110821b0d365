use vstd::prelude::*;
use crate::text::same_text;

verus! {

/// Checks the `Accept` header of a request.
pub struct VerifyAcceptHeader;

/// The media types that the registry answers in.
pub open spec fn acceptable(accept: Seq<char>) -> bool {
    ||| accept == "application/vnd.schemaregistry+json"@
    ||| accept == "application/vnd.schemaregistry.v1+json"@
    ||| accept == "application/json"@
}

impl VerifyAcceptHeader {
    /// Whether the header is there and names one of the registry's media
    /// types, letter for letter.
    pub fn is_valid(accept: Option<&str>) -> (valid: bool)
        ensures
            valid == (accept matches Some(value) && acceptable(value@)),
    {
        match accept {
            Some(s) => same_text(s, "application/vnd.schemaregistry+json") || same_text(
                s,
                "application/vnd.schemaregistry.v1+json",
            ) || same_text(s, "application/json"),
            None => false,
        }
    }
}

} // verus!
