//! A client-side implementation of the engine.io bidirectional message
//! transport protocol (version 3, base64/text branch).
//!
//! The crate centres on the packet codec (single-packet text framing and
//! length-prefixed payload multiplexing), the decision logic of the HTTP
//! long-polling and websocket transports, and the upgrade coordinator that
//! merges the two transports behind one sender/receiver pair.

pub mod base64;
pub mod connection;
pub mod error;
pub mod packet;
pub mod polling;
pub mod socket;
pub mod text;
pub mod transports;
pub mod websocket;

pub use connection::{Receiver, Sender};
pub use error::EngineError;
pub use packet::{OpCode, Packet, Payload};
pub use socket::{Socket, SocketHandler};
pub use transports::{CloseInitiator, Data};
