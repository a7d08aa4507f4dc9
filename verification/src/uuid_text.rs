//! The UUID parser that reads cabinet identifiers.

use vstd::prelude::*;

verus! {

/// The 128-bit value that `Uuid::parse_str` reads from a text, or `None`
/// where it rejects the text.
pub uninterp spec fn uuid_of_text(text: Seq<char>) -> Option<u128>;

/// Calls `Uuid::parse_str` of the `uuid` crate, which `sqlx` re-exports, and
/// takes the 128-bit value of the identifier with `Uuid::as_u128`; the
/// parser's error is dropped. The parser reads nothing but the text, so the
/// outcome is named by `uuid_of_text`; nothing else is claimed of it.
#[verifier::external_body]
pub(crate) fn parse_uuid(text: &str) -> (parsed: Option<u128>)
    ensures
        parsed == uuid_of_text(text@),
{
    match sqlx::types::Uuid::parse_str(text) {
        Ok(uuid) => Some(uuid.as_u128()),
        Err(_) => None,
    }
}

} // verus!
