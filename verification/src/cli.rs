//! The settings with which the service is started.

use vstd::prelude::*;

verus! {

/// The port on which the service listens where none is given.
pub const DEFAULT_PORT: u16 = 8701;

/// The number of connections to the database that the service keeps at
/// most.
pub const MAX_CONNECTIONS: u32 = 10;

/// The settings of the service, as read from the command line.
#[derive(Clone, Debug, PartialEq, Eq)]
pub struct Args {
    /// The URL of the PostgreSQL server.
    pub pg_url: String,
    /// The port to listen on.
    pub port: Option<u16>,
    /// The host name to listen on.
    pub host: Option<String>,
}

impl Args {
    /// The host name to listen on: the one given, or `localhost`.
    pub fn bind_host(&self) -> (host: String)
        ensures
            host@ == match self.host {
                Some(given) => given@,
                None => "localhost"@,
            },
    {
        match &self.host {
            Some(given) => given.clone(),
            None => "localhost".to_owned(),
        }
    }

    /// The port to listen on: the one given, or `DEFAULT_PORT`.
    pub fn bind_port(&self) -> (port: u16)
        ensures
            port == match self.port {
                Some(given) => given,
                None => DEFAULT_PORT,
            },
    {
        match self.port {
            Some(given) => given,
            None => DEFAULT_PORT,
        }
    }
}

} // verus!
