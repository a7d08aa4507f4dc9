//! The envelope in which an answer is handed to the transport layer.

use vstd::prelude::*;

verus! {

/// Whether a request was carried out.
#[derive(Clone, Copy, Debug, PartialEq, Eq, Structural)]
pub enum Status {
    /// The request was carried out.
    Success,
    /// The request failed.
    Error,
}

impl Default for Status {
    fn default() -> (status: Status)
        ensures
            status == Status::Success,
    {
        Status::Success
    }
}

/// An answer: its status, and either the content of a success or the
/// message of a failure.
#[derive(Clone, Debug, PartialEq, Eq)]
pub struct Response<T> {
    pub status: Status,
    pub error: Option<String>,
    pub content: Option<T>,
}

impl<T> Default for Response<T> {
    /// The answer to a request that was carried out and has nothing to
    /// return.
    fn default() -> (response: Response<T>)
        ensures
            response.status == Status::Success,
            response.error is None,
            response.content is None,
    {
        Response { status: Status::Success, error: None, content: None }
    }
}

impl<T> Response<T> {
    /// The answer to a request that was carried out, with what it returns.
    pub fn success(content: T) -> (response: Response<T>)
        ensures
            response.status == Status::Success,
            response.error is None,
            response.content == Some(content),
    {
        Response { status: Status::Success, error: None, content: Some(content) }
    }

    /// The answer to a request that failed, with the message of the failure.
    pub fn error(error: String) -> (response: Response<T>)
        ensures
            response.status == Status::Error,
            response.error == Some(error),
            response.content is None,
    {
        Response { status: Status::Error, error: Some(error), content: None }
    }
}

} // verus!
