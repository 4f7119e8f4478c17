//! The error taxonomy for engine.io associated operations.

use vstd::prelude::*;

verus! {

/// The error type for engine.io associated operations.
///
/// The lower layers (HTTP client, websocket library) report their failures
/// through the driver code outside this crate; inside the crate every fallible
/// operation pins down, in its contract, exactly which of these kinds it
/// returns and when.
#[derive(Clone, Copy, Debug, PartialEq, Eq, Structural)]
pub enum EngineError {
    /// The action could not be performed because of invalid data.
    ///
    /// For example, the opcode of a packet was out of range, the data length
    /// of a payload-packet could not be parsed, or binary data was not valid
    /// base64.
    InvalidData,

    /// The input ended before a complete value could be read.
    UnexpectedEof,

    /// The action could not be performed because the component was in an
    /// invalid state, for example a send after a close.
    InvalidState,

    /// An I/O error occured, for example the server unexpectedly closed
    /// the connection.
    Io,

    /// String data was not valid UTF-8.
    Utf8,

    /// An error occured inside of a websocket.
    WebSocket,
}

} // verus!
