//! The decision logic of the HTTP long polling transport.
//!
//! The driver outside this crate owns the HTTP client and the reactor; it
//! feeds every outcome (a response, a timeout, an error, a close signal)
//! into [`Receiver::poll_step`], which decides the next state and what the
//! driver must do, exactly as the polling protocol prescribes.  A request
//! timeout within the server's ping window counts as "no data yet" and is
//! silently re-polled, and packets of the internal opcodes (`Open`, `Ping`,
//! `Upgrade`) are consumed rather than delivered.

use crate::error::EngineError;
use crate::packet::{OpCode, Packet, PacketView, PayloadView, decode_all};
use crate::transports::Data;
use vstd::prelude::*;

verus! {

/// What the driver reports into the polling receive state machine.
pub enum PollEvent {
    /// The consumer polls for a packet while no request outcome is pending.
    Poll,
    /// The outstanding GET completed and its body decoded to these packets.
    Response(Vec<Packet>),
    /// The outstanding GET timed out after `elapsed_ms` milliseconds.
    Timeout { elapsed_ms: u64 },
    /// The outstanding GET failed.
    Failed(EngineError),
    /// The sending half signalled a close.
    CloseSignal,
}

/// What the polling receive state machine asks of the driver.
pub enum PollOutput {
    /// Launch a new polling GET.
    StartRequest,
    /// Nothing to do; wait for the outstanding request.
    NotReady,
    /// Deliver this packet to the consumer.
    Packet(Packet),
    /// The stream has ended.
    End,
    /// Surface this error; the stream is over.
    Failed(EngineError),
}

/// The state of the polling receive half.
pub enum State {
    /// No request is running and no packets are pending.
    Empty,
    /// A GET is outstanding.
    Waiting,
    /// Packets remain to be delivered from the last response.
    Ready(Vec<Packet>),
    /// The stream is over.
    Closed,
}

/// The receiving half of an HTTP long polling connection.
pub struct Receiver {
    /// The session configuration, fixed at construction.
    pub data: Data,
    /// The current protocol state.
    pub state: State,
}

impl Receiver {
    /// A fresh polling receiver: idle, with no packets pending.
    pub fn new(data: Data) -> (r: Receiver)
        ensures
            r.data == data,
            r.state is Empty,
    {
        Receiver { data, state: State::Empty }
    }

    /// Gets the underlying transport configuration.
    pub fn transport_data(&self) -> (r: &Data)
        ensures
            r == &self.data,
    {
        &self.data
    }

    /// Advances the polling state machine by one event.
    ///
    /// A close signal ends the stream at once.  A response is delivered
    /// packet by packet, with the internal opcodes consumed and a `Close`
    /// packet last; a response with nothing to deliver, like a timeout
    /// within the server's ping window, silently starts the next request.
    /// A timeout beyond the ping window, or any other failure, ends the
    /// stream with an error.
    pub fn poll_step(&mut self, event: PollEvent) -> (r: PollOutput)
        requires
            match event {
                PollEvent::Response(_) | PollEvent::Timeout { .. } | PollEvent::Failed(_) => old(
                    self,
                ).state is Waiting,
                _ => true,
            },
        ensures
            final(self).data == old(self).data,
            match event {
                PollEvent::CloseSignal => final(self).state is Closed && r is End,
                PollEvent::Poll => match old(self).state {
                    State::Closed => final(self).state is Closed && r is End,
                    State::Empty => final(self).state is Waiting && r is StartRequest,
                    State::Waiting => final(self).state is Waiting && r is NotReady,
                    State::Ready(ps) => poll_yield(ps, final(self).state, r),
                },
                PollEvent::Response(ps) => poll_yield(ps, final(self).state, r),
                PollEvent::Timeout { elapsed_ms } => if elapsed_ms <= old(self).data.ping_timeout {
                    final(self).state is Waiting && r is StartRequest
                } else {
                    final(self).state is Closed && r == PollOutput::Failed(EngineError::Io)
                },
                PollEvent::Failed(e) => final(self).state is Closed && r == PollOutput::Failed(e),
            },
    {
        if matches!(event, PollEvent::CloseSignal) {
            self.state = State::Closed;
            return PollOutput::End;
        }
        let mut st = State::Closed;
        core::mem::swap(&mut st, &mut self.state);
        match (st, event) {
            (State::Empty, PollEvent::Poll) => {
                self.state = State::Waiting;
                PollOutput::StartRequest
            },
            (State::Waiting, PollEvent::Poll) => {
                self.state = State::Waiting;
                PollOutput::NotReady
            },
            (State::Ready(ps), PollEvent::Poll) => self.yield_front(ps),
            (State::Waiting, PollEvent::Response(ps)) => self.yield_front(ps),
            (State::Waiting, PollEvent::Timeout { elapsed_ms }) => {
                if elapsed_ms <= self.data.ping_timeout {
                    self.state = State::Waiting;
                    PollOutput::StartRequest
                } else {
                    self.state = State::Closed;
                    PollOutput::Failed(EngineError::Io)
                }
            },
            (State::Waiting, PollEvent::Failed(e)) => {
                self.state = State::Closed;
                PollOutput::Failed(e)
            },
            // Unreachable under the precondition: request outcomes only
            // arrive while a request is outstanding.
            (_, _) => {
                self.state = State::Closed;
                PollOutput::End
            },
        }
    }

    /// Delivers the first packet of a response that the consumer may see,
    /// dropping the internal ones before it; when nothing is deliverable,
    /// asks for the next poll cycle.
    fn yield_front(&mut self, ps: Vec<Packet>) -> (r: PollOutput)
        ensures
            final(self).data == old(self).data,
            poll_yield(ps, final(self).state, r),
    {
        let ghost orig = ps@;
        let mut ps = ps;
        proof {
            assert(orig.skip(0) =~= ps@);
        }
        while ps.len() > 0 && ps[0].opcode.is_internal()
            invariant
                ps@.len() <= orig.len(),
                orig.skip(orig.len() - ps@.len()) == ps@,
                forall|k: int|
                    0 <= k < orig.len() - ps@.len() ==> (#[trigger] orig[k])@.opcode.spec_is_internal(),
            decreases ps@.len(),
        {
            let ghost before = ps@;
            ps.remove(0);
            proof {
                assert(ps@ =~= before.skip(1));
                assert(orig[orig.len() - before.len()] == before[0]);
                assert(orig.skip(orig.len() - before.len()).skip(1) =~= orig.skip(
                    orig.len() - ps@.len(),
                ));
            }
        }
        let ghost j = orig.len() - ps@.len() as int;
        if ps.len() == 0 {
            proof {
                lemma_first_deliverable_none(orig);
            }
            self.state = State::Waiting;
            PollOutput::StartRequest
        } else {
            proof {
                assert(orig[j] == ps@[0]);
                lemma_first_deliverable_at(orig, j);
            }
            let ghost ps_cur = ps@;
            let first = ps.remove(0);
            proof {
                assert(ps@ =~= ps_cur.skip(1));
                assert(ps@ =~= orig.skip(j + 1));
            }
            if first.opcode == OpCode::Close {
                self.state = State::Closed;
            } else {
                self.state = State::Ready(ps);
            }
            PollOutput::Packet(first)
        }
    }
}

/// The position of the first packet in `ps` that may reach the consumer
/// (one whose opcode is not internal), or -1 if there is none.
pub open spec fn first_deliverable(ps: Seq<Packet>) -> int
    decreases ps.len(),
{
    if ps.len() == 0 {
        -1
    } else if !ps[0]@.opcode.spec_is_internal() {
        0
    } else {
        let r = first_deliverable(ps.skip(1));
        if r < 0 {
            -1
        } else {
            r + 1
        }
    }
}

proof fn lemma_first_deliverable_at(s: Seq<Packet>, k: int)
    requires
        0 <= k < s.len(),
        !s[k]@.opcode.spec_is_internal(),
        forall|t: int| 0 <= t < k ==> (#[trigger] s[t])@.opcode.spec_is_internal(),
    ensures
        first_deliverable(s) == k,
    decreases k,
{
    if k > 0 {
        assert forall|t: int| 0 <= t < k - 1 implies (#[trigger] s.skip(1)[t])@.opcode.spec_is_internal() by {
            assert(s.skip(1)[t] == s[t + 1]);
        }
        assert(s.skip(1)[k - 1] == s[k]);
        lemma_first_deliverable_at(s.skip(1), k - 1);
    }
}

proof fn lemma_first_deliverable_none(s: Seq<Packet>)
    requires
        forall|t: int| 0 <= t < s.len() ==> (#[trigger] s[t])@.opcode.spec_is_internal(),
    ensures
        first_deliverable(s) < 0,
    decreases s.len(),
{
    if s.len() > 0 {
        assert forall|t: int| 0 <= t < s.skip(1).len() implies (#[trigger] s.skip(1)[t])@.opcode.spec_is_internal() by {
            assert(s.skip(1)[t] == s[t + 1]);
        }
        lemma_first_deliverable_none(s.skip(1));
    }
}

/// How one response's packets must be delivered: packets with internal
/// opcodes are consumed and never returned; a response with nothing left
/// to deliver starts the next request; a `Close` packet is surfaced and
/// ends the stream; any other deliverable packet is surfaced with the rest
/// kept pending.
pub open spec fn poll_yield(ps: Vec<Packet>, after: State, r: PollOutput) -> bool {
    let k = first_deliverable(ps@);
    if k < 0 {
        after is Waiting && r is StartRequest
    } else if ps@[k]@.opcode == OpCode::Close {
        after is Closed && r == PollOutput::Packet(ps@[k])
    } else {
        (after matches State::Ready(rest) && rest@ == ps@.skip(k + 1)) && r == PollOutput::Packet(
            ps@[k],
        )
    }
}

/// Decodes one polling GET response: any non-2xx status is a protocol
/// violation, and the body is a payload-wrapped packet sequence.
pub fn process_poll_response(status: u16, body: &[u8]) -> (r: Result<Vec<Packet>, EngineError>)
    ensures
        !(200 <= status < 300) ==> r == Err::<Vec<Packet>, EngineError>(EngineError::InvalidData),
        200 <= status < 300 ==> {
            &&& !vstd::utf8::valid_utf8(body@) ==> r == Err::<Vec<Packet>, EngineError>(
                EngineError::Utf8,
            )
            &&& vstd::utf8::valid_utf8(body@) ==> match r {
                Ok(ps) => decode_all(vstd::utf8::decode_utf8(body@)) == Ok::<
                    Seq<PacketView>,
                    EngineError,
                >(ps.deep_view()),
                Err(e) => decode_all(vstd::utf8::decode_utf8(body@)) == Err::<
                    Seq<PacketView>,
                    EngineError,
                >(e),
            }
        },
{
    if status < 200 || status >= 300 {
        return Err(EngineError::InvalidData);
    }
    Packet::from_reader_all(body)
}

/// Judges one polling POST response: the server answers a packet upload
/// with any 2xx status and an opaque body; anything else is a protocol
/// violation.
pub fn process_post_response(status: u16) -> (r: Result<(), EngineError>)
    ensures
        200 <= status < 300 ==> r == Ok::<(), EngineError>(()),
        !(200 <= status < 300) ==> r == Err::<(), EngineError>(EngineError::InvalidData),
{
    if status >= 200 && status < 300 {
        Ok(())
    } else {
        Err(EngineError::InvalidData)
    }
}

/// The session descriptor that the handshake body denotes: the session ID,
/// the ping interval and timeout in milliseconds, and the offered upgrades.
/// The result depends on the bytes alone.
pub uninterp spec fn session_of(bytes: Seq<u8>) -> Option<(Seq<char>, u64, u64, Seq<Seq<char>>)>;

/// Relies on rustc-serialize's JSON parser: reads the `sid`, `pingInterval`,
/// `pingTimeout` and `upgrades` fields of a JSON object from the bytes.
#[verifier::external_body]
fn parse_session(bytes: &[u8]) -> (r: Option<Data>)
    ensures
        match r {
            Some(d) => session_of(bytes@) == Some(
                (d.sid@, d.ping_interval, d.ping_timeout, d.upgrades.deep_view()),
            ),
            None => session_of(bytes@) is None,
        },
{
    let text = core::str::from_utf8(bytes).ok()?;
    let json = rustc_serialize::json::Json::from_str(text).ok()?;
    let sid = json.find("sid")?.as_string()?.to_owned();
    let ping_interval = json.find("pingInterval")?.as_u64()?;
    let ping_timeout = json.find("pingTimeout")?.as_u64()?;
    let upgrades = json.find("upgrades")?.as_array()?.iter().map(
        |u| u.as_string().map(str::to_owned),
    ).collect::<Option<Vec<String>>>()?;
    Some(Data::new(sid, ping_interval, ping_timeout, upgrades))
}

/// The bytes a payload carries into the session parser: binary data as is,
/// text as its UTF-8 bytes.
pub open spec fn payload_bytes(p: PacketView) -> Seq<u8> {
    match p.payload {
        PayloadView::Binary(data) => data,
        PayloadView::String(text) => vstd::utf8::encode_utf8(text),
    }
}

/// Whether a packet carries a session descriptor: its payload parses and
/// the session identifier is non-empty, as a session ID must be.
pub open spec fn has_session(p: PacketView) -> bool {
    match session_of(payload_bytes(p)) {
        Some(t) => t.0.len() > 0,
        None => false,
    }
}

/// Picks the session descriptor out of the handshake response: the first
/// packet whose payload parses as one with a non-empty session ID.  If no
/// packet does, the handshake is invalid.
pub fn handshake_data(packets: &Vec<Packet>) -> (r: Result<Data, EngineError>)
    ensures
        ({
            let pvs = packets.deep_view();
            match r {
                Ok(d) => d.sid@.len() > 0 && exists|i: int|
                    0 <= i < pvs.len() && session_of(payload_bytes(#[trigger] pvs[i])) == Some(
                        (d.sid@, d.ping_interval, d.ping_timeout, d.upgrades.deep_view()),
                    ) && (forall|k: int| 0 <= k < i ==> !has_session(#[trigger] pvs[k])),
                Err(e) => e == EngineError::InvalidData && forall|i: int|
                    0 <= i < pvs.len() ==> !has_session(#[trigger] pvs[i]),
            }
        }),
{
    let ghost pvs = packets.deep_view();
    let mut i: usize = 0;
    while i < packets.len()
        invariant
            i <= packets@.len(),
            pvs == packets.deep_view(),
            pvs.len() == packets@.len(),
            forall|k: int| 0 <= k < i ==> !has_session(#[trigger] pvs[k]),
        decreases packets@.len() - i,
    {
        let parsed = match &packets[i].payload {
            crate::packet::Payload::Binary(data) => parse_session(data.as_slice()),
            crate::packet::Payload::String(text) => parse_session(text.as_str().as_bytes()),
        };
        proof {
            assert(pvs[i as int] == packets@[i as int]@);
        }
        match parsed {
            Some(d) => {
                if !d.sid.as_str().is_empty() {
                    return Ok(d);
                }
            },
            None => {
            },
        }
        i = i + 1;
    }
    Err(EngineError::InvalidData)
}

} // verus!
