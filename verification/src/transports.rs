//! State shared by the transports: the session configuration obtained
//! during the handshake, the request query parameters, and the cache-busting
//! random string.

use crate::packet::Packet;
use crate::text::push_char;
use vstd::prelude::*;

verus! {

/// Indicates who started the closing of the connection.
#[derive(Clone, Copy, Debug, Eq, PartialEq, Structural)]
pub enum CloseInitiator {
    /// The client requested to close the connection.
    Client,
    /// The server closed the connection.
    Server,
}

/// One step of a packet stream, as a transport receiver reports it.
#[derive(Clone, Debug)]
pub enum StreamPoll {
    /// A packet is ready.
    Packet(Packet),
    /// Nothing is available yet.
    NotReady,
    /// The stream has ended.
    End,
    /// The stream failed with the given error.
    Failed(crate::error::EngineError),
}

/// Represents the transport configuration that is received during the
/// handshake.
#[derive(Clone, Debug)]
pub struct Data {
    /// How often the server shall be pinged, in milliseconds.
    pub ping_interval: u64,
    /// The ping timeout dictated by the server, in milliseconds.
    pub ping_timeout: u64,
    /// The engine.io session ID.
    pub sid: String,
    /// The transport names the server is willing to upgrade to.
    pub upgrades: Vec<String>,
}

impl Data {
    /// Builds a session configuration from its fields.
    pub fn new(sid: String, ping_interval: u64, ping_timeout: u64, upgrades: Vec<String>) -> (d:
        Data)
        ensures
            d.sid == sid,
            d.ping_interval == ping_interval,
            d.ping_timeout == ping_timeout,
            d.upgrades == upgrades,
    {
        Data { ping_interval, ping_timeout, sid, upgrades }
    }

    /// Gets the interval that states how often the server shall be pinged,
    /// in milliseconds.
    pub fn ping_interval(&self) -> (r: u64)
        ensures
            r == self.ping_interval,
    {
        self.ping_interval
    }

    /// The ping timeout, in milliseconds.
    pub fn ping_timeout(&self) -> (r: u64)
        ensures
            r == self.ping_timeout,
    {
        self.ping_timeout
    }

    /// The current engine.io session ID.
    pub fn sid(&self) -> (r: &str)
        ensures
            r@ == self.sid@,
    {
        self.sid.as_str()
    }

    /// Available upgrades.
    pub fn upgrades(&self) -> (r: &Vec<String>)
        ensures
            r == &self.upgrades,
    {
        &self.upgrades
    }
}

pub open spec fn is_ascii_alnum(c: char) -> bool {
    ('A' as int <= c as int && c as int <= 'Z' as int) || ('a' as int <= c as int && c as int
        <= 'z' as int) || ('0' as int <= c as int && c as int <= '9' as int)
}

/// Relies on rand's `Alphanumeric` distribution: every sample is an ASCII
/// letter or digit.
#[verifier::external_body]
fn random_alnum() -> (c: char)
    ensures
        is_ascii_alnum(c),
{
    rand::RngExt::sample(&mut rand::rng(), rand::distr::Alphanumeric) as char
}

/// Generates a seven characters long random ASCII string for URL
/// randomization and cache busting.
pub fn gen_random_string() -> (r: String)
    ensures
        r@.len() == 7,
        forall|i: int| 0 <= i < r@.len() ==> is_ascii_alnum(#[trigger] r@[i]),
{
    let mut s = String::new();
    let mut i: usize = 0;
    while i < 7
        invariant
            i <= 7,
            s@.len() == i,
            forall|j: int| 0 <= j < s@.len() ==> is_ascii_alnum(#[trigger] s@[j]),
        decreases 7 - i,
    {
        push_char(&mut s, random_alnum());
        i = i + 1;
    }
    s
}

/// The query parameters attached to every request a transport makes: the
/// session ID when one is known, the protocol version, the transport name,
/// a random cache buster and the base64 marker.
pub fn query_params(transport: &str, data: Option<&Data>) -> (r: Vec<(String, String)>)
    ensures
        ({
            let base: int = if data is Some {
                1
            } else {
                0
            };
            &&& r@.len() == base + 4
            &&& (data matches Some(d) ==> r@[0].0@ == "sid"@ && r@[0].1@ == d.sid@)
            &&& r@[base].0@ == "EIO"@ && r@[base].1@ == "3"@
            &&& r@[base + 1].0@ == "transport"@ && r@[base + 1].1@ == transport@
            &&& r@[base + 2].0@ == "t"@ && r@[base + 2].1@.len() == 7 && (forall|i: int|
                0 <= i < r@[base + 2].1@.len() ==> is_ascii_alnum(#[trigger] r@[base + 2].1@[i]))
            &&& r@[base + 3].0@ == "b64"@ && r@[base + 3].1@ == "1"@
        }),
{
    let mut r: Vec<(String, String)> = Vec::new();
    match data {
        Some(d) => {
            r.push((String::from_str("sid"), d.sid.clone()));
        },
        None => {
        },
    }
    r.push((String::from_str("EIO"), String::from_str("3")));
    r.push((String::from_str("transport"), transport.to_owned()));
    r.push((String::from_str("t"), gen_random_string()));
    r.push((String::from_str("b64"), String::from_str("1")));
    r
}

/// The request timeout for one polling cycle: the server-dictated ping
/// interval once a session exists, and a short default during the
/// handshake.
pub fn request_timeout_ms(data: Option<&Data>) -> (r: u64)
    ensures
        match data {
            Some(d) => r == d.ping_interval,
            None => r == 10000,
        },
{
    match data {
        Some(d) => d.ping_interval,
        None => 10000,
    }
}

/// The packets sent to the server when a close is initiated: the client
/// announces the close with a `Close` packet, while a close that the server
/// started needs no answer.
pub fn close_packets(initiator: CloseInitiator) -> (r: Vec<Packet>)
    ensures
        initiator is Client ==> r.deep_view().len() == 1 && r.deep_view()[0].opcode
            == crate::packet::OpCode::Close && r.deep_view()[0].payload
            == crate::packet::PayloadView::String(Seq::<char>::empty()),
        initiator is Server ==> r.deep_view().len() == 0,
{
    let mut r: Vec<Packet> = Vec::new();
    if matches!(initiator, CloseInitiator::Client) {
        proof {
            reveal_strlit("");
            assert(""@ =~= Seq::<char>::empty());
        }
        let p = Packet::with_str(crate::packet::OpCode::Close, "");
        r.push(p);
        proof {
            assert(r.deep_view()[0] == p@);
        }
    }
    r
}

} // verus!
