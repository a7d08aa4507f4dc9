//! Cabinet identifiers.

use vstd::prelude::*;

use crate::error::Error;
use crate::uuid_text::{parse_uuid, uuid_of_text};

verus! {

/// The identifier of a cabinet: a UUID, held as its 128-bit value.
#[derive(Clone, Copy, Debug, PartialEq, Eq, Hash, Structural)]
pub struct CabinetId {
    pub value: u128,
}

impl CabinetId {
    /// The identifier with the given 128-bit value.
    pub fn from_u128(value: u128) -> (id: CabinetId)
        ensures
            id.value == value,
    {
        CabinetId { value }
    }

    /// The 128-bit value of the identifier.
    pub fn as_u128(&self) -> (value: u128)
        ensures
            value == self.value,
    {
        self.value
    }

    /// What a parsed text stands for: the identifier with the value read, or
    /// `UuidParseFailure` where no value was read.
    pub open spec fn of_parsed(parsed: Option<u128>) -> Result<CabinetId, Error> {
        match parsed {
            Some(value) => Ok(CabinetId { value }),
            None => Err(Error::UuidParseFailure),
        }
    }

    /// Turns the outcome of the UUID parser into an identifier. A value
    /// becomes the identifier that holds it; a rejected text becomes
    /// `UuidParseFailure`.
    pub fn from_parsed(parsed: Option<u128>) -> (r: Result<CabinetId, Error>)
        ensures
            r == Self::of_parsed(parsed),
    {
        match parsed {
            Some(value) => Ok(CabinetId { value }),
            None => Err(Error::UuidParseFailure),
        }
    }

    /// Reads a cabinet identifier from the text of a UUID. Fails with
    /// `UuidParseFailure` exactly where the UUID parser rejects the text.
    pub fn parse(text: &str) -> (r: Result<CabinetId, Error>)
        ensures
            r == Self::of_parsed(uuid_of_text(text@)),
    {
        Self::from_parsed(parse_uuid(text))
    }
}

} // verus!
