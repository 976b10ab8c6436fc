//! The library's error types that span layers.

use vstd::prelude::*;
use crate::client::ClientError;
use crate::exchange::TransportError;

verus! {

/// Errors of the server side.
#[derive(Debug, Clone, Copy, PartialEq, Eq, Structural)]
pub enum ServerError {
    /// The transport stopped handing out requests.
    EndpointClosed,
}

/// Any error of the library.
#[derive(Debug)]
pub enum Error {
    Transport(TransportError),
    Client(ClientError),
    Server(ServerError),
}

} // verus!
