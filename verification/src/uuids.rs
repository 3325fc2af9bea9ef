//! Identifiers of services and characteristics, read from their text form.

use vstd::prelude::*;

verus! {

/// The 128-bit value that `uuid::Uuid::parse_str` reads from `text`, or
/// `None` where it refuses the text. The parser looks at the text alone.
pub uninterp spec fn parsed_uuid(text: Seq<char>) -> Option<u128>;

/// `uuid::Uuid::parse_str`, its result handed on as the number that
/// `Uuid::as_u128` gives. Nothing is claimed about which texts are accepted:
/// the answer is the one named by [`parsed_uuid`].
#[verifier::external_body]
pub(crate) fn parse_uuid(text: &str) -> (value: Option<u128>)
    ensures
        value == parsed_uuid(text@),
{
    match uuid::Uuid::parse_str(text) {
        Ok(id) => Some(id.as_u128()),
        Err(_) => None,
    }
}

} // verus!
