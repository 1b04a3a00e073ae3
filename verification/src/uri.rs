//! Parsing addresses with the `http` crate.

use http::uri::{InvalidUri, Uri};
use std::str::FromStr;
use vstd::prelude::*;

verus! {

#[verifier::external_type_specification]
#[verifier::external_body]
pub struct ExUri(Uri);

#[verifier::external_type_specification]
#[verifier::external_body]
pub struct ExInvalidUri(InvalidUri);

/// What `Uri::from_str` gives back for a text.
pub uninterp spec fn uri_from_text(text: Seq<char>) -> Result<Uri, InvalidUri>;

/// `Uri::from_str` of the `http` crate: parses a text into a URI or rejects
/// it.  Which texts it accepts, and the URI it builds, are named, not
/// stated: the result depends on the text alone.
#[verifier::external_body]
pub(crate) fn parse_uri(text: &str) -> (res: Result<Uri, InvalidUri>)
    ensures
        res == uri_from_text(text@),
{
    Uri::from_str(text)
}

} // verus!
