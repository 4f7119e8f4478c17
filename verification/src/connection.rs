//! The upgrade coordinator: the decisions that merge the HTTP long polling
//! and websocket transports under a single sender/receiver pair.
//!
//! The driver outside this crate owns both transports and the probe task;
//! it consults these state machines for every choice the coordinator makes:
//! which transport a send takes, how the two receive streams merge, and how
//! the connection's lifecycle advances.

use crate::error::EngineError;
use crate::packet::{OpCode, Packet};
use crate::transports::StreamPoll;
use vstd::prelude::*;

verus! {

/// The packet sent over the polling transport once the websocket probe has
/// succeeded, asking the server to flush and switch.
pub fn upgrade_packet() -> (p: Packet)
    ensures
        p@.opcode == OpCode::Upgrade,
        p@.payload == crate::packet::PayloadView::String(Seq::<char>::empty()),
{
    proof {
        reveal_strlit("");
        assert(""@ =~= Seq::<char>::empty());
    }
    Packet::with_str(OpCode::Upgrade, "")
}

/// The transport a send goes through.
#[derive(Clone, Copy, Debug, Eq, PartialEq, Structural)]
pub enum SendRoute {
    /// Send one packet per websocket text frame.
    WebSocket,
    /// Post the packets in one payload-wrapped batch.
    Polling,
}

/// The sending half of an engine.io connection.
pub struct Sender {
    /// Whether `close` has been called on this sender.
    pub closed: bool,
}

impl Sender {
    /// A fresh, open sender.
    pub fn new() -> (s: Sender)
        ensures
            !s.closed,
    {
        Sender { closed: false }
    }

    /// Decides where a send goes: over the websocket as soon as the probe
    /// has installed one, else over polling.  After a close, sends fail
    /// with `InvalidState`.
    pub fn route(&self, ws_available: bool) -> (r: Result<SendRoute, EngineError>)
        ensures
            self.closed ==> r == Err::<SendRoute, EngineError>(EngineError::InvalidState),
            !self.closed && ws_available ==> r == Ok::<SendRoute, EngineError>(
                SendRoute::WebSocket,
            ),
            !self.closed && !ws_available ==> r == Ok::<SendRoute, EngineError>(
                SendRoute::Polling,
            ),
    {
        if self.closed {
            Err(EngineError::InvalidState)
        } else if ws_available {
            Ok(SendRoute::WebSocket)
        } else {
            Ok(SendRoute::Polling)
        }
    }

    /// Decides how the connection closes: the close signal always reaches
    /// the polling receive loop, and the transport that currently carries
    /// the connection sends the client's `Close` packet.
    pub fn close(&mut self, ws_available: bool) -> (r: SendRoute)
        ensures
            final(self).closed,
            ws_available ==> r == SendRoute::WebSocket,
            !ws_available ==> r == SendRoute::Polling,
    {
        self.closed = true;
        if ws_available {
            SendRoute::WebSocket
        } else {
            SendRoute::Polling
        }
    }
}

/// The polling-first merge of the two receive streams: whatever the polling
/// stream yields wins; only when it has nothing yet is the websocket stream
/// consulted, and only once the probe has installed one.
pub open spec fn merged(poll_result: StreamPoll, ws_result: Option<StreamPoll>) -> StreamPoll {
    if !(poll_result is NotReady) {
        poll_result
    } else {
        match ws_result {
            Some(w) => w,
            None => StreamPoll::NotReady,
        }
    }
}

/// Whether a merged step is a packet of the transport machinery alone
/// (`Open`, `Ping`, `Upgrade`): such packets are consumed by the unified
/// receiver and never observed by its consumer.
pub open spec fn consumed_internally(step: StreamPoll) -> bool {
    match step {
        StreamPoll::Packet(p) => p@.opcode.spec_is_internal(),
        _ => false,
    }
}

/// Whether a stream step ends the unified stream: its end, its failure, or
/// a server `Close` packet, which is delivered as the last packet.
pub open spec fn terminal(step: StreamPoll) -> bool {
    match step {
        StreamPoll::Packet(p) => p@.opcode == OpCode::Close,
        StreamPoll::NotReady => false,
        StreamPoll::End => true,
        StreamPoll::Failed(_) => true,
    }
}

/// The receiving half of an engine.io connection.
pub struct Receiver {
    /// Whether the unified stream has ended.
    pub done: bool,
}

impl Receiver {
    /// A fresh, open receiver.
    pub fn new() -> (r: Receiver)
        ensures
            !r.done,
    {
        Receiver { done: false }
    }

    /// Merges one poll of the two transports into one step of the unified
    /// stream, polling-first.  A packet of the internal opcodes is consumed
    /// rather than delivered; a `Close` packet, an end or an error ends the
    /// stream.  Once ended, it only reports the end.
    pub fn poll_step(&mut self, poll_result: StreamPoll, ws_result: Option<StreamPoll>) -> (r:
        StreamPoll)
        ensures
            old(self).done ==> r is End && final(self).done,
            !old(self).done && consumed_internally(merged(poll_result, ws_result)) ==> r
                is NotReady && !final(self).done,
            !old(self).done && !consumed_internally(merged(poll_result, ws_result)) ==> r
                == merged(poll_result, ws_result) && final(self).done == terminal(
                merged(poll_result, ws_result),
            ),
    {
        if self.done {
            return StreamPoll::End;
        }
        let step = match poll_result {
            StreamPoll::NotReady => match ws_result {
                Some(w) => w,
                None => StreamPoll::NotReady,
            },
            other => other,
        };
        if let StreamPoll::Packet(p) = &step {
            if p.opcode.is_internal() {
                return StreamPoll::NotReady;
            }
        }
        self.done = match &step {
            StreamPoll::Packet(p) => p.opcode == OpCode::Close,
            StreamPoll::NotReady => false,
            StreamPoll::End => true,
            StreamPoll::Failed(_) => true,
        };
        step
    }
}

/// The lifecycle of a unified connection.
#[derive(Clone, Copy, Debug, Eq, PartialEq, Structural)]
pub enum ConnectionState {
    /// The handshake GET is outstanding.
    Handshaking,
    /// Polling carries the connection; no probe is running.
    Polling,
    /// Polling carries the connection while a websocket probe runs.
    PollingProbing,
    /// Both transports are up; the websocket is preferred.
    Dual,
    /// The connection is over.
    Closed,
}

/// What moves the lifecycle forward.
#[derive(Clone, Copy, Debug, Eq, PartialEq, Structural)]
pub enum ConnectionEvent {
    /// The handshake returned a session descriptor.
    HandshakeDone,
    /// The websocket probe task was spawned.
    ProbeStarted,
    /// The probe received its answer and the upgrade packet was sent.
    ProbeSucceeded,
    /// The probe failed; polling carries on.
    ProbeFailed,
    /// A close was requested, or a server `Close` was observed.
    CloseObserved,
}

/// The lifecycle transition relation: the probe drives the upgrade, a
/// failed probe falls back to polling silently, and a close ends every
/// state.  An event that does not apply leaves the state unchanged.
pub open spec fn transition_spec(s: ConnectionState, e: ConnectionEvent) -> ConnectionState {
    match (s, e) {
        (_, ConnectionEvent::CloseObserved) => ConnectionState::Closed,
        (ConnectionState::Handshaking, ConnectionEvent::HandshakeDone) => ConnectionState::Polling,
        (ConnectionState::Polling, ConnectionEvent::ProbeStarted) => (
        ConnectionState::PollingProbing),
        (ConnectionState::PollingProbing, ConnectionEvent::ProbeSucceeded) => ConnectionState::Dual,
        (ConnectionState::PollingProbing, ConnectionEvent::ProbeFailed) => ConnectionState::Polling,
        (_, _) => s,
    }
}

/// Advances the connection lifecycle by one event.
pub fn transition(s: ConnectionState, e: ConnectionEvent) -> (r: ConnectionState)
    ensures
        r == transition_spec(s, e),
{
    match (s, e) {
        (_, ConnectionEvent::CloseObserved) => ConnectionState::Closed,
        (ConnectionState::Handshaking, ConnectionEvent::HandshakeDone) => ConnectionState::Polling,
        (ConnectionState::Polling, ConnectionEvent::ProbeStarted) => (
        ConnectionState::PollingProbing),
        (ConnectionState::PollingProbing, ConnectionEvent::ProbeSucceeded) => ConnectionState::Dual,
        (ConnectionState::PollingProbing, ConnectionEvent::ProbeFailed) => ConnectionState::Polling,
        (other, _) => other,
    }
}

} // verus!
