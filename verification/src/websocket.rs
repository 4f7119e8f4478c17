//! The decision logic of the websocket transport.
//!
//! The websocket library runs on its own thread; the driver outside this
//! crate bridges it through channels and feeds every inbound event into the
//! functions here, which decide the probe handshake and the receive stream.

use crate::error::EngineError;
use crate::packet::{OpCode, Packet, Payload};
use crate::text::str_eq;
use crate::transports::StreamPoll;
use vstd::prelude::*;

verus! {

/// Information about an incoming websocket event.
pub enum Event {
    /// The websocket has been closed.
    Close,
    /// An error occured in the websocket and it will be closed.
    Error,
    /// A websocket message was received and decoded to this packet.
    Packet(Packet),
}

/// The packet that opens the probe handshake on a fresh websocket.
pub fn probe_packet() -> (p: Packet)
    ensures
        p@.opcode == OpCode::Ping,
        p@.payload == crate::packet::PayloadView::String("probe"@),
{
    Packet::with_str(OpCode::Ping, "probe")
}

/// Whether a packet is the answer the probe waits for.
pub open spec fn is_probe_answer(p: crate::packet::PacketView) -> bool {
    p.opcode == OpCode::Pong && p.payload == crate::packet::PayloadView::String("probe"@)
}

/// Judges the first inbound event after the probe ping was sent: the
/// handshake succeeds exactly on a `Pong` packet carrying `probe`.  A close
/// before the answer, a websocket error, and any other packet each fail the
/// probe with their own error.
pub fn probe_response(event: &Event) -> (r: Result<(), EngineError>)
    ensures
        match event {
            Event::Close => r == Err::<(), EngineError>(EngineError::Io),
            Event::Error => r == Err::<(), EngineError>(EngineError::WebSocket),
            Event::Packet(p) => if is_probe_answer(p@) {
                r == Ok::<(), EngineError>(())
            } else {
                r == Err::<(), EngineError>(EngineError::InvalidData)
            },
        },
{
    match event {
        Event::Close => Err(EngineError::Io),
        Event::Error => Err(EngineError::WebSocket),
        Event::Packet(p) => {
            let answer = p.opcode == OpCode::Pong && match &p.payload {
                Payload::String(text) => str_eq(text.as_str(), "probe"),
                Payload::Binary(_) => false,
            };
            if answer {
                Ok(())
            } else {
                Err(EngineError::InvalidData)
            }
        },
    }
}

/// Turns one inbound websocket event into one step of the packet stream:
/// a close ends the stream, an error fails it, a packet is delivered.
pub fn receive_step(event: Event) -> (r: StreamPoll)
    ensures
        match event {
            Event::Close => r is End,
            Event::Error => r == StreamPoll::Failed(EngineError::WebSocket),
            Event::Packet(p) => r == StreamPoll::Packet(p),
        },
{
    match event {
        Event::Close => StreamPoll::End,
        Event::Error => StreamPoll::Failed(EngineError::WebSocket),
        Event::Packet(p) => StreamPoll::Packet(p),
    }
}

/// The URL scheme the websocket dial uses in place of the polling one:
/// `http` becomes `ws` and `https` becomes `wss`; anything else is kept.
pub fn ws_scheme(scheme: &str) -> (r: String)
    ensures
        scheme@ == "http"@ ==> r@ == "ws"@,
        scheme@ == "https"@ ==> r@ == "wss"@,
        scheme@ != "http"@ && scheme@ != "https"@ ==> r@ == scheme@,
{
    proof {
        reveal_strlit("http");
        reveal_strlit("https");
        assert("http"@.len() == 4);
        assert("https"@.len() == 5);
        assert("http"@ != "https"@);
    }
    if str_eq(scheme, "http") {
        String::from_str("ws")
    } else if str_eq(scheme, "https") {
        String::from_str("wss")
    } else {
        scheme.to_owned()
    }
}

} // verus!
