//! The failures that an operation on a waiting line can report.

use vstd::prelude::*;

verus! {

/// Why an operation on a waiting line did not take place.
#[derive(Clone, Copy, Debug, PartialEq, Eq, Structural)]
pub enum Error {
    /// A count of players to serve or to list was smaller than one.
    InvalidArgument,
    /// The name already waits in the line of that cabinet.
    AlreadyQueued,
    /// The name does not wait in the line of that cabinet.
    NotQueued,
    /// The player to postpone is the last one in the line.
    AlreadyLast,
    /// The table refused a row: the name or the position is taken.
    Conflict,
    /// A row that had to be there was not found.
    NotFound,
    /// A text that had to name a cabinet is not a UUID.
    UuidParseFailure,
    /// The storage failed, or retrying did not help.
    Internal,
}

impl Error {
    /// Whether the failure answers a request that the line cannot honour as
    /// it stands, as opposed to a fault of the service.
    pub open spec fn is_rejection(self) -> bool {
        self is InvalidArgument || self is AlreadyQueued || self is NotQueued
            || self is AlreadyLast || self is UuidParseFailure
    }

    /// The HTTP status that reports the failure.
    pub open spec fn status(self) -> int {
        if self.is_rejection() {
            400
        } else {
            500
        }
    }

    /// The text that reports the failure.
    pub open spec fn text(self) -> Seq<char> {
        match self {
            Error::InvalidArgument => "n needed to be greater than 1"@,
            Error::AlreadyQueued => "player name already in queue"@,
            Error::NotQueued => "player name not in queue"@,
            Error::AlreadyLast => "player is already the last one in the queue"@,
            Error::Conflict => "an database error occurred or resource not found"@,
            Error::NotFound => "an database error occurred or resource not found"@,
            Error::UuidParseFailure => "failed to parse uuid"@,
            Error::Internal => "an unspecified internal error occurred"@,
        }
    }

    /// The text that reports the failure.
    pub fn message(&self) -> (message: String)
        ensures
            message@ == self.text(),
    {
        match self {
            Error::InvalidArgument => "n needed to be greater than 1".to_owned(),
            Error::AlreadyQueued => "player name already in queue".to_owned(),
            Error::NotQueued => "player name not in queue".to_owned(),
            Error::AlreadyLast => "player is already the last one in the queue".to_owned(),
            Error::Conflict => "an database error occurred or resource not found".to_owned(),
            Error::NotFound => "an database error occurred or resource not found".to_owned(),
            Error::UuidParseFailure => "failed to parse uuid".to_owned(),
            Error::Internal => "an unspecified internal error occurred".to_owned(),
        }
    }

    /// Whether the failure answers a request that the line cannot honour as
    /// it stands. Such a failure is the caller's; every other one is the
    /// service's.
    pub fn is_client_error(&self) -> (r: bool)
        ensures
            r == self.is_rejection(),
    {
        match self {
            Error::InvalidArgument => true,
            Error::AlreadyQueued => true,
            Error::NotQueued => true,
            Error::AlreadyLast => true,
            Error::UuidParseFailure => true,
            Error::Conflict => false,
            Error::NotFound => false,
            Error::Internal => false,
        }
    }

    /// The HTTP status that reports the failure: 400 for a rejected request,
    /// 500 for a fault of the service.
    pub fn status_code(&self) -> (code: u16)
        ensures
            code == self.status(),
            code == 400 || code == 500,
    {
        if self.is_client_error() {
            400
        } else {
            500
        }
    }
}

} // verus!
