//! The engine.io packet and its text codec.
//!
//! Only the base64 / text encoding of the protocol is implemented: a packet
//! is a single opcode digit followed by its string payload, or `b`, the
//! digit and the base64 rendering of its binary payload.  For multiplexing,
//! packets are wrapped in a length-prefixed payload encoding whose length
//! counts characters, not bytes.

use crate::base64::{b64_decode, b64_decode_str, b64_encode, b64_encode_append, b64_len,
    lemma_b64_decode_encode, lemma_b64_encode_len};
use crate::error::EngineError;
use crate::text::{all_dec_digits, dec_digit_char, dec_digit_value, dec_rep, dec_value,
    is_dec_digit, push_char, push_decimal, utf8_str};
use vstd::prelude::*;

verus! {

/// A packet opcode.
#[derive(Copy, Clone, Debug, Hash, Eq, PartialEq, Structural)]
pub enum OpCode {
    /// Sent from the server when a new connection is opened.
    Open,
    /// Sent by the client to request the shutdown of the connection.
    Close,
    /// A ping message sent by the client; the server responds with a `Pong`
    /// message containing the same data.
    Ping,
    /// The answer to a ping message.
    Pong,
    /// An actual data message.
    Message,
    /// Sent over the old transport once a new transport has passed its
    /// probe, asking the server to flush and switch.
    Upgrade,
    /// A noop packet, used for forcing a polling cycle.
    Noop,
}

impl OpCode {
    /// The numeric value of the opcode on the wire.
    pub open spec fn value(self) -> u8 {
        match self {
            OpCode::Open => 0,
            OpCode::Close => 1,
            OpCode::Ping => 2,
            OpCode::Pong => 3,
            OpCode::Message => 4,
            OpCode::Upgrade => 5,
            OpCode::Noop => 6,
        }
    }

    /// The ASCII digit of the opcode on the wire.
    pub open spec fn digit_char(self) -> char {
        dec_digit_char(self.value() as int)
    }
}

/// The opcode with the given numeric value, if it is in range.
pub open spec fn opcode_from_value(v: u8) -> Option<OpCode> {
    if v == 0 {
        Some(OpCode::Open)
    } else if v == 1 {
        Some(OpCode::Close)
    } else if v == 2 {
        Some(OpCode::Ping)
    } else if v == 3 {
        Some(OpCode::Pong)
    } else if v == 4 {
        Some(OpCode::Message)
    } else if v == 5 {
        Some(OpCode::Upgrade)
    } else if v == 6 {
        Some(OpCode::Noop)
    } else {
        None
    }
}

/// The opcode denoted by a single character, if it is a digit in range.
pub open spec fn opcode_from_char(c: char) -> Option<OpCode> {
    if is_dec_digit(c) {
        opcode_from_value(dec_digit_value(c) as u8)
    } else {
        None
    }
}

impl OpCode {
    /// Tries to parse an opcode from a scalar value encoded as char.
    pub fn from_char(value: char) -> (r: Result<OpCode, EngineError>)
        ensures
            match opcode_from_char(value) {
                Some(op) => r == Ok::<OpCode, EngineError>(op),
                None => r == Err::<OpCode, EngineError>(EngineError::InvalidData),
            },
    {
        let u = value as u32;
        if 48 <= u && u <= 57 {
            OpCode::from_u8((u - 48) as u8)
        } else {
            Err(EngineError::InvalidData)
        }
    }

    /// Creates a new opcode from the given scalar value.
    pub fn from_u8(value: u8) -> (r: Result<OpCode, EngineError>)
        ensures
            match opcode_from_value(value) {
                Some(op) => r == Ok::<OpCode, EngineError>(op),
                None => r == Err::<OpCode, EngineError>(EngineError::InvalidData),
            },
    {
        if value == 0 {
            Ok(OpCode::Open)
        } else if value == 1 {
            Ok(OpCode::Close)
        } else if value == 2 {
            Ok(OpCode::Ping)
        } else if value == 3 {
            Ok(OpCode::Pong)
        } else if value == 4 {
            Ok(OpCode::Message)
        } else if value == 5 {
            Ok(OpCode::Upgrade)
        } else if value == 6 {
            Ok(OpCode::Noop)
        } else {
            Err(EngineError::InvalidData)
        }
    }

    /// Tries to parse an opcode from its decimal rendering: an optional `+`
    /// sign, then digits whose value fits an eight-bit opcode value.
    pub fn from_str(value: &str) -> (r: Result<OpCode, EngineError>)
        ensures
            value@.len() == 0 ==> r == Err::<OpCode, EngineError>(EngineError::UnexpectedEof),
            value@.len() > 0 ==> match parse_u8(value@) {
                Some(v) => match opcode_from_value(v) {
                    Some(op) => r == Ok::<OpCode, EngineError>(op),
                    None => r == Err::<OpCode, EngineError>(EngineError::InvalidData),
                },
                None => r == Err::<OpCode, EngineError>(EngineError::InvalidData),
            },
    {
        let n = value.unicode_len();
        if n == 0 {
            return Err(EngineError::UnexpectedEof);
        }
        let start: usize = if value.get_char(0) == '+' {
            1
        } else {
            0
        };
        if start == n {
            return Err(EngineError::InvalidData);
        }
        let mut acc: u32 = 0;
        let mut i: usize = start;
        while i < n
            invariant
                start <= i <= n,
                n == value@.len(),
                start < n,
                (start == 1 && value@[0] == '+') || (start == 0 && value@[0] != '+'),
                all_dec_digits(value@.subrange(start as int, i as int)),
                acc <= 255,
                acc == dec_value(value@.subrange(start as int, i as int)),
            decreases n - i,
        {
            let c = value.get_char(i);
            let u = c as u32;
            if u < 48 || u > 57 {
                proof {
                    lemma_parse_u8_digits(value@, start as int, i as int);
                }
                return Err(EngineError::InvalidData);
            }
            proof {
                crate::text::lemma_dec_value_push(
                    value@.subrange(start as int, i as int),
                    value@[i as int],
                );
                assert(value@.subrange(start as int, i as int + 1) =~= value@.subrange(
                    start as int,
                    i as int,
                ).push(value@[i as int]));
            }
            acc = acc * 10 + (u - 48);
            if acc > 255 {
                proof {
                    lemma_parse_u8_overflow(value@, start as int, i as int + 1);
                }
                return Err(EngineError::InvalidData);
            }
            i = i + 1;
        }
        proof {
            if start == 1 {
                assert(value@.subrange(1, n as int) =~= value@.skip(1));
            } else {
                assert(value@.subrange(0, n as int) =~= value@);
            }
            assert(parse_u8(value@) == Some(acc as u8));
        }
        OpCode::from_u8(acc as u8)
    }

    /// Gets the string representation of the opcode: its single digit.
    pub fn string_repr(&self) -> (r: String)
        ensures
            r@ == seq![self.digit_char()],
    {
        let mut s = String::new();
        push_char(&mut s, self.digit_char_exec());
        proof {
            assert(s@ =~= seq![self.digit_char()]);
        }
        s
    }

    /// Whether packets with this opcode belong to the transport machinery
    /// alone.  The handshake, the ping/pong liveness exchange and the
    /// upgrade notification are consumed internally; only the remaining
    /// opcodes may reach the consumer of a unified connection.
    pub open spec fn spec_is_internal(self) -> bool {
        self == OpCode::Open || self == OpCode::Ping || self == OpCode::Upgrade
    }

    /// Whether packets with this opcode are consumed by the transport
    /// machinery rather than delivered.
    #[verifier::when_used_as_spec(spec_is_internal)]
    pub fn is_internal(self) -> (b: bool)
        ensures
            b == self.spec_is_internal(),
    {
        self == OpCode::Open || self == OpCode::Ping || self == OpCode::Upgrade
    }

    /// The ASCII digit of the opcode.
    pub(crate) fn digit_char_exec(&self) -> (c: char)
        ensures
            c == self.digit_char(),
    {
        match self {
            OpCode::Open => '0',
            OpCode::Close => '1',
            OpCode::Ping => '2',
            OpCode::Pong => '3',
            OpCode::Message => '4',
            OpCode::Upgrade => '5',
            OpCode::Noop => '6',
        }
    }
}

/// The value denoted by the decimal rendering of an eight-bit number: an
/// optional `+` sign, then at least one digit, with a value of at most 255.
pub open spec fn parse_u8(s: Seq<char>) -> Option<u8> {
    let digits = if s.len() > 0 && s[0] == '+' {
        s.skip(1)
    } else {
        s
    };
    if digits.len() > 0 && all_dec_digits(digits) && dec_value(digits) <= 255 {
        Some(dec_value(digits) as u8)
    } else {
        None
    }
}

/// A non-digit inside the digit part refutes `parse_u8`.
proof fn lemma_parse_u8_digits(s: Seq<char>, start: int, i: int)
    requires
        0 <= start <= i < s.len(),
        (start == 1 && s[0] == '+') || (start == 0 && s[0] != '+'),
        !is_dec_digit(s[i]),
    ensures
        parse_u8(s) is None,
{
    let digits = if s.len() > 0 && s[0] == '+' {
        s.skip(1)
    } else {
        s
    };
    if start == 1 && s[0] == '+' {
        assert(digits[i - 1] == s[i]);
    } else {
        assert(digits[i] == s[i]);
    }
}

/// A digit prefix whose value already exceeds 255 refutes `parse_u8`.
proof fn lemma_parse_u8_overflow(s: Seq<char>, start: int, i: int)
    requires
        0 <= start <= i <= s.len(),
        (start == 1 && s[0] == '+') || (start == 0 && s[0] != '+'),
        dec_value(s.subrange(start, i)) > 255,
    ensures
        parse_u8(s) is None,
{
    let digits = if s.len() > 0 && s[0] == '+' {
        s.skip(1)
    } else {
        s
    };
    if all_dec_digits(digits) {
        let k = if start == 1 && s[0] == '+' {
            i - 1
        } else {
            i
        };
        assert(s.subrange(start, i) =~= digits.subrange(0, k));
        lemma_dec_value_prefix_le(digits, k);
    }
}

/// The value of a digit string is at least the value of any of its prefixes.
proof fn lemma_dec_value_prefix_le(s: Seq<char>, k: int)
    requires
        0 <= k <= s.len(),
    ensures
        dec_value(s.subrange(0, k)) <= dec_value(s),
    decreases s.len() - k,
{
    if k < s.len() {
        lemma_dec_value_prefix_le(s, k + 1);
        assert(s.subrange(0, k + 1) =~= s.subrange(0, k).push(s[k]));
        crate::text::lemma_dec_value_push(s.subrange(0, k), s[k]);
    } else {
        assert(s.subrange(0, k) =~= s);
    }
}

/// The message's payload.
#[derive(Clone, Debug)]
pub enum Payload {
    /// The message contains binary data.
    Binary(Vec<u8>),
    /// The message contains UTF-8 string data.
    String(String),
}

/// The mathematical shape of a payload: a byte sequence or a character
/// sequence.
pub enum PayloadView {
    Binary(Seq<u8>),
    String(Seq<char>),
}

impl View for Payload {
    type V = PayloadView;

    open spec fn view(&self) -> PayloadView {
        match self {
            Payload::Binary(data) => PayloadView::Binary(data@),
            Payload::String(text) => PayloadView::String(text@),
        }
    }
}

impl DeepView for Payload {
    type V = PayloadView;

    open spec fn deep_view(&self) -> PayloadView {
        self.view()
    }
}

/// Element-by-element byte vector equality.
fn bytes_eq(a: &Vec<u8>, b: &Vec<u8>) -> (r: bool)
    ensures
        r == (a@ == b@),
{
    if a.len() != b.len() {
        return false;
    }
    let mut i: usize = 0;
    while i < a.len()
        invariant
            i <= a@.len(),
            a@.len() == b@.len(),
            forall|j: int| 0 <= j < i ==> a@[j] == b@[j],
        decreases a@.len() - i,
    {
        if a[i] != b[i] {
            return false;
        }
        i = i + 1;
    }
    proof {
        assert(a@ =~= b@);
    }
    true
}

impl PartialEq for Payload {
    fn eq(&self, other: &Payload) -> (r: bool) {
        match (self, other) {
            (Payload::Binary(a), Payload::Binary(b)) => bytes_eq(a, b),
            (Payload::String(a), Payload::String(b)) => *a == *b,
            _ => false,
        }
    }
}

impl Eq for Payload {

}

impl vstd::std_specs::cmp::PartialEqSpecImpl for Payload {
    open spec fn obeys_eq_spec() -> bool {
        true
    }

    open spec fn eq_spec(&self, other: &Payload) -> bool {
        match (self, other) {
            (Payload::Binary(a), Payload::Binary(b)) => a@ == b@,
            (Payload::String(a), Payload::String(b)) => a@ == b@,
            _ => false,
        }
    }
}

/// An engine.io message.
#[derive(Clone, Debug)]
pub struct Packet {
    /// The packet's opcode.
    pub opcode: OpCode,
    /// The packet's payload.
    pub payload: Payload,
}

/// The mathematical shape of a packet.
pub struct PacketView {
    pub opcode: OpCode,
    pub payload: PayloadView,
}

impl View for Packet {
    type V = PacketView;

    open spec fn view(&self) -> PacketView {
        PacketView { opcode: self.opcode, payload: self.payload@ }
    }
}

impl DeepView for Packet {
    type V = PacketView;

    open spec fn deep_view(&self) -> PacketView {
        self.view()
    }
}

impl PartialEq for Packet {
    fn eq(&self, other: &Packet) -> (r: bool) {
        self.opcode == other.opcode && self.payload == other.payload
    }
}

impl Eq for Packet {

}

impl vstd::std_specs::cmp::PartialEqSpecImpl for Packet {
    open spec fn obeys_eq_spec() -> bool {
        true
    }

    open spec fn eq_spec(&self, other: &Packet) -> bool {
        self.opcode == other.opcode && vstd::std_specs::cmp::PartialEqSpec::eq_spec(
            &self.payload,
            &other.payload,
        )
    }
}

/// The single-packet text encoding: the opcode digit and the text, or `b`,
/// the opcode digit and the base64 rendering of the bytes.
pub open spec fn encoded(p: PacketView) -> Seq<char> {
    match p.payload {
        PayloadView::String(text) => seq![p.opcode.digit_char()] + text,
        PayloadView::Binary(data) => seq!['b', p.opcode.digit_char()] + b64_encode(data),
    }
}

/// The serialized length of a packet, in characters.
pub open spec fn encoded_len(p: PacketView) -> nat {
    match p.payload {
        PayloadView::String(text) => 1 + text.len(),
        PayloadView::Binary(data) => 2 + b64_len(data.len()),
    }
}

/// The length formula agrees with the encoding, for every packet.
pub proof fn lemma_encoded_len(p: PacketView)
    ensures
        encoded(p).len() == encoded_len(p),
{
    match p.payload {
        PayloadView::String(_) => {
        },
        PayloadView::Binary(data) => {
            lemma_b64_encode_len(data);
        },
    }
}

impl Packet {
    /// Constructs a new packet.
    pub fn new(opcode: OpCode, payload: Payload) -> (p: Packet)
        ensures
            p@.opcode == opcode,
            p@.payload == payload@,
    {
        Packet { opcode, payload }
    }

    /// Constructs a new packet with binary data.
    pub fn with_binary(opcode: OpCode, payload: Vec<u8>) -> (p: Packet)
        ensures
            p@.opcode == opcode,
            p@.payload == PayloadView::Binary(payload@),
    {
        Packet::new(opcode, Payload::Binary(payload))
    }

    /// Constructs a new packet with string data, copying the string.
    pub fn with_str(opcode: OpCode, payload: &str) -> (p: Packet)
        ensures
            p@.opcode == opcode,
            p@.payload == PayloadView::String(payload@),
    {
        Packet::with_string(opcode, payload.to_owned())
    }

    /// Constructs a new packet with string data.
    pub fn with_string(opcode: OpCode, payload: String) -> (p: Packet)
        ensures
            p@.opcode == opcode,
            p@.payload == PayloadView::String(payload@),
    {
        Packet::new(opcode, Payload::String(payload))
    }

    /// Gets the opcode.
    pub fn opcode(&self) -> (r: OpCode)
        ensures
            r == self@.opcode,
    {
        self.opcode
    }

    /// Gets the payload.
    pub fn payload(&self) -> (r: &Payload)
        ensures
            r@ == self@.payload,
    {
        &self.payload
    }

    /// Tries to compute the length of the packet in characters or in bytes.
    /// This is only possible for a string packet.
    pub fn try_compute_length(&self, as_chars: bool) -> (r: Option<usize>)
        requires
            self.len_in_bounds(),
        ensures
            match self@.payload {
                PayloadView::String(text) => r == Some(
                    (1 + if as_chars {
                        text.len()
                    } else {
                        vstd::utf8::encode_utf8(text).len()
                    }) as usize,
                ),
                PayloadView::Binary(_) => r is None,
            },
    {
        match &self.payload {
            Payload::String(text) => {
                if as_chars {
                    Some(text.as_str().unicode_len() + 1)
                } else {
                    Some(text.as_str().len() + 1)
                }
            },
            Payload::Binary(_) => None,
        }
    }

    /// The machine bound under which a string packet's length fits a
    /// `usize`; binary packets report no length here.
    pub open spec fn len_in_bounds(&self) -> bool {
        match self@.payload {
            PayloadView::String(text) => 1 + text.len() <= usize::MAX && 1 + vstd::utf8::encode_utf8(
                text,
            ).len() <= usize::MAX,
            PayloadView::Binary(_) => true,
        }
    }

    /// Writes the single-packet encoding into `out`.
    pub fn write_to(&self, out: &mut String)
        ensures
            final(out)@ == old(out)@ + encoded(self@),
    {
        match &self.payload {
            Payload::String(text) => {
                push_char(out, self.opcode.digit_char_exec());
                out.append(text.as_str());
                proof {
                    assert(final(out)@ =~= old(out)@ + encoded(self@));
                }
            },
            Payload::Binary(data) => {
                push_char(out, 'b');
                push_char(out, self.opcode.digit_char_exec());
                b64_encode_append(data, out);
                proof {
                    assert(final(out)@ =~= old(out)@ + encoded(self@));
                }
            },
        }
    }
}

impl Default for Packet {
    /// The default packet: an `Open` packet with an empty string payload.
    fn default() -> (p: Packet)
        ensures
            p@.opcode == OpCode::Open,
            p@.payload == PayloadView::String(Seq::<char>::empty()),
    {
        Packet::new(OpCode::Open, Payload::String(String::new()))
    }
}

/// A packet-decode result, seen through the packet's mathematical view.
pub open spec fn packet_result_view(r: Result<Packet, EngineError>) -> Result<
    PacketView,
    EngineError,
> {
    match r {
        Ok(p) => Ok(p@),
        Err(e) => Err(e),
    }
}

/// The packet denoted by a single-packet text buffer: `b`, an opcode digit
/// and base64 for a binary payload; an opcode digit and the raw text for a
/// string payload.
pub open spec fn decode_packet(s: Seq<char>) -> Result<PacketView, EngineError> {
    if s.len() == 0 {
        Err(EngineError::UnexpectedEof)
    } else if s[0] == 'b' {
        if s.len() < 2 {
            Err(EngineError::UnexpectedEof)
        } else {
            match opcode_from_char(s[1]) {
                Some(op) => match b64_decode(s.skip(2)) {
                    Some(bytes) => Ok(
                        PacketView { opcode: op, payload: PayloadView::Binary(bytes) },
                    ),
                    None => Err(EngineError::InvalidData),
                },
                None => Err(EngineError::InvalidData),
            }
        }
    } else {
        match opcode_from_char(s[0]) {
            Some(op) => Ok(PacketView { opcode: op, payload: PayloadView::String(s.skip(1)) }),
            None => Err(EngineError::InvalidData),
        }
    }
}

/// Decoding inverts the single-packet encoding, for every packet.
pub proof fn lemma_decode_encoded(p: PacketView)
    ensures
        decode_packet(encoded(p)) == Ok::<PacketView, EngineError>(p),
{
    let s = encoded(p);
    match p.payload {
        PayloadView::String(text) => {
            assert(s[0] == p.opcode.digit_char());
            assert(opcode_from_char(s[0]) == Some(p.opcode));
            assert(s.skip(1) =~= text);
        },
        PayloadView::Binary(data) => {
            crate::base64::lemma_b64_encode_len(data);
            assert(s[0] == 'b');
            assert(s[1] == p.opcode.digit_char());
            assert(opcode_from_char(s[1]) == Some(p.opcode));
            assert(s.skip(2) =~= b64_encode(data));
            lemma_b64_decode_encode(data);
        },
    }
}

impl Packet {
    /// Parses a packet from a string slice.
    pub fn from_str(buf: &str) -> (r: Result<Packet, EngineError>)
        ensures
            packet_result_view(r) == decode_packet(buf@),
    {
        let n = buf.unicode_len();
        if n == 0 {
            return Err(EngineError::UnexpectedEof);
        }
        let c0 = buf.get_char(0);
        if c0 == 'b' {
            if n < 2 {
                return Err(EngineError::UnexpectedEof);
            }
            let c1 = buf.get_char(1);
            let op = match OpCode::from_char(c1) {
                Ok(op) => op,
                Err(_) => {
                    return Err(EngineError::InvalidData);
                },
            };
            let rest = buf.substring_char(2, n);
            proof {
                assert(rest@ =~= buf@.skip(2));
            }
            match b64_decode_str(rest) {
                Some(bytes) => Ok(Packet::with_binary(op, bytes)),
                None => Err(EngineError::InvalidData),
            }
        } else {
            let op = match OpCode::from_char(c0) {
                Ok(op) => op,
                Err(_) => {
                    return Err(EngineError::InvalidData);
                },
            };
            let rest = buf.substring_char(1, n);
            proof {
                assert(rest@ =~= buf@.skip(1));
            }
            Ok(Packet::with_str(op, rest))
        }
    }

    /// Tries to parse a packet from a whole buffer of UTF-8 bytes.
    pub fn from_reader(buf: &[u8]) -> (r: Result<Packet, EngineError>)
        ensures
            vstd::utf8::valid_utf8(buf@) ==> packet_result_view(r) == decode_packet(
                vstd::utf8::decode_utf8(buf@),
            ),
            !vstd::utf8::valid_utf8(buf@) ==> r == Err::<Packet, EngineError>(EngineError::Utf8),
    {
        match utf8_str(buf) {
            Some(s) => Packet::from_str(s),
            None => Err(EngineError::Utf8),
        }
    }
}

/// The payload-wrapped encoding of one packet: its serialized length in
/// characters, `:`, and the single-packet encoding.
pub open spec fn payload_encoded(p: PacketView) -> Seq<char> {
    dec_rep(encoded(p).len()) + seq![':'] + encoded(p)
}

/// The payload-wrapped encoding of a whole packet list, back to back.
pub open spec fn payloads_encoded(ps: Seq<PacketView>) -> Seq<char>
    decreases ps.len(),
{
    if ps.len() == 0 {
        Seq::<char>::empty()
    } else {
        payload_encoded(ps[0]) + payloads_encoded(ps.skip(1))
    }
}

/// The position of the first `:` in `s`, or -1 if there is none.
pub open spec fn find_colon(s: Seq<char>) -> int
    decreases s.len(),
{
    if s.len() == 0 {
        -1
    } else if s[0] == ':' {
        0
    } else {
        let r = find_colon(s.skip(1));
        if r < 0 {
            -1
        } else {
            r + 1
        }
    }
}

proof fn lemma_find_colon_at(s: Seq<char>, j: int)
    requires
        0 <= j < s.len(),
        s[j] == ':',
        forall|k: int| 0 <= k < j ==> s[k] != ':',
    ensures
        find_colon(s) == j,
    decreases j,
{
    if j > 0 {
        assert forall|k: int| 0 <= k < j - 1 implies s.skip(1)[k] != ':' by {
            assert(s.skip(1)[k] == s[k + 1]);
        }
        assert(s.skip(1)[j - 1] == s[j]);
        lemma_find_colon_at(s.skip(1), j - 1);
    }
}

proof fn lemma_find_colon_none(s: Seq<char>)
    requires
        forall|k: int| 0 <= k < s.len() ==> s[k] != ':',
    ensures
        find_colon(s) < 0,
    decreases s.len(),
{
    if s.len() > 0 {
        assert forall|k: int| 0 <= k < s.skip(1).len() implies s.skip(1)[k] != ':' by {
            assert(s.skip(1)[k] == s[k + 1]);
        }
        lemma_find_colon_none(s.skip(1));
    }
}

/// One step of payload-wrapped decoding: the digits before the first `:`
/// give a character count, and that many characters after the `:` hold one
/// single-packet encoding.  On success the packet is returned together with
/// the total number of characters consumed.
pub open spec fn decode_payload(s: Seq<char>) -> Result<(PacketView, int), EngineError> {
    let j = find_colon(s);
    if j < 0 {
        Err(EngineError::UnexpectedEof)
    } else {
        let prefix = s.take(j);
        if j == 0 || !all_dec_digits(prefix) || dec_value(prefix) > usize::MAX {
            Err(EngineError::InvalidData)
        } else {
            let len = dec_value(prefix) as int;
            let rest = s.skip(j + 1);
            if rest.len() < len {
                Err(EngineError::UnexpectedEof)
            } else {
                match decode_packet(rest.take(len)) {
                    Ok(p) => Ok((p, j + 1 + len)),
                    Err(e) => Err(e),
                }
            }
        }
    }
}

/// Payload-wrapped decoding of a whole buffer: packets are decoded until an
/// `UnexpectedEof` ends the stream; any other error aborts with that error.
pub open spec fn decode_all(s: Seq<char>) -> Result<Seq<PacketView>, EngineError>
    decreases s.len(),
{
    match decode_payload(s) {
        Err(EngineError::UnexpectedEof) => Ok(Seq::<PacketView>::empty()),
        Err(e) => Err(e),
        Ok((p, c)) => if 1 <= c <= s.len() {
            match decode_all(s.skip(c)) {
                Ok(rest) => Ok(seq![p] + rest),
                Err(e) => Err(e),
            }
        } else {
            Err(EngineError::InvalidData)
        },
    }
}

impl Packet {
    /// Computes the serialized length of the packet in characters.
    pub fn compute_length(&self) -> (n: usize)
        requires
            encoded_len(self@) <= usize::MAX,
        ensures
            n == encoded_len(self@),
    {
        match &self.payload {
            Payload::String(text) => 1 + text.as_str().unicode_len(),
            Payload::Binary(data) => {
                let len = data.len();
                let groups = len / 3 + if len % 3 == 0 {
                    0
                } else {
                    1
                };
                proof {
                    assert(groups == (len + 2) / 3);
                }
                2 + groups * 4
            },
        }
    }

    /// Writes the packet in payload-wrapped form into `out`.
    pub fn write_payload_to(&self, out: &mut String)
        requires
            encoded_len(self@) <= usize::MAX,
        ensures
            final(out)@ == old(out)@ + payload_encoded(self@),
    {
        let n = self.compute_length();
        proof {
            lemma_encoded_len(self@);
        }
        push_decimal(out, n);
        push_char(out, ':');
        self.write_to(out);
        proof {
            assert(final(out)@ =~= old(out)@ + payload_encoded(self@));
        }
    }

    /// Tries to parse one payload-wrapped packet from `buf`, beginning at
    /// character position `start`.  On success, returns the packet and the
    /// position just past it.
    pub fn from_reader_payload(buf: &str, start: usize) -> (r: Result<
        (Packet, usize),
        EngineError,
    >)
        requires
            start <= buf@.len(),
        ensures
            match r {
                Ok((p, end)) => start < end <= buf@.len() && decode_payload(
                    buf@.skip(start as int),
                ) == Ok::<(PacketView, int), EngineError>((p@, end - start)),
                Err(e) => decode_payload(buf@.skip(start as int)) == Err::<
                    (PacketView, int),
                    EngineError,
                >(e),
            },
    {
        let ghost tail = buf@.skip(start as int);
        let n = buf.unicode_len();
        let mut i: usize = start;
        while i < n && buf.get_char(i) != ':'
            invariant
                start <= i <= n,
                n == buf@.len(),
                forall|k: int| start <= k < i ==> buf@[k] != ':',
            decreases n - i,
        {
            i = i + 1;
        }
        proof {
            assert forall|k: int| 0 <= k < i - start implies tail[k] != ':' by {
                assert(tail[k] == buf@[start + k]);
            }
        }
        if i == n {
            proof {
                lemma_find_colon_none(tail);
            }
            return Err(EngineError::UnexpectedEof);
        }
        let ghost j = i - start;
        proof {
            assert(tail[j] == buf@[i as int]);
            lemma_find_colon_at(tail, j);
        }
        if i == start {
            return Err(EngineError::InvalidData);
        }
        let ghost prefix = tail.take(j);
        proof {
            assert forall|k: int| 0 <= k < j implies prefix[k] == buf@[start + k] by {}
        }
        let mut acc: usize = 0;
        let mut k: usize = start;
        while k < i
            invariant
                start <= k <= i < n,
                n == buf@.len(),
                j == i - start,
                j >= 1,
                find_colon(buf@.skip(start as int)) == j,
                prefix == buf@.skip(start as int).take(j),
                forall|t: int| 0 <= t < j ==> prefix[t] == buf@[start + t],
                all_dec_digits(prefix.take(k - start)),
                acc == dec_value(prefix.take(k - start)),
            decreases i - k,
        {
            let c = buf.get_char(k);
            let u = c as u32;
            proof {
                assert(prefix[k - start] == c);
                crate::text::lemma_dec_value_push(prefix.take(k - start), c);
                assert(prefix.take(k - start + 1) =~= prefix.take(k - start).push(c));
            }
            if u < 48 || u > 57 {
                proof {
                    assert(!is_dec_digit(prefix[k - start]));
                }
                return Err(EngineError::InvalidData);
            }
            let d = (u - 48) as usize;
            if acc > (usize::MAX - d) / 10 {
                proof {
                    assert(dec_value(prefix.take(k - start + 1)) > usize::MAX);
                    lemma_dec_value_prefix_le(prefix, k - start + 1);
                    assert(prefix.take(prefix.len() as int) =~= prefix);
                }
                return Err(EngineError::InvalidData);
            }
            acc = acc * 10 + d;
            k = k + 1;
        }
        proof {
            assert(prefix.take(k - start) =~= prefix);
        }
        let len = acc;
        let after = i + 1;
        if n - after < len {
            proof {
                assert(tail.skip(j + 1).len() < len);
            }
            return Err(EngineError::UnexpectedEof);
        }
        let pstr = buf.substring_char(after, after + len);
        proof {
            assert(pstr@ =~= tail.skip(j + 1).take(len as int));
        }
        match Packet::from_str(pstr) {
            Ok(p) => Ok((p, after + len)),
            Err(e) => Err(e),
        }
    }

    /// Parses a list of payload-wrapped packets from a buffer of UTF-8
    /// bytes, reading until the end of the input.
    pub fn from_reader_all(buf: &[u8]) -> (r: Result<Vec<Packet>, EngineError>)
        ensures
            !vstd::utf8::valid_utf8(buf@) ==> r == Err::<Vec<Packet>, EngineError>(
                EngineError::Utf8,
            ),
            vstd::utf8::valid_utf8(buf@) ==> match r {
                Ok(ps) => decode_all(vstd::utf8::decode_utf8(buf@)) == Ok::<Seq<PacketView>, EngineError>(ps.deep_view()),
                Err(e) => decode_all(vstd::utf8::decode_utf8(buf@)) == Err::<
                    Seq<PacketView>,
                    EngineError,
                >(e),
            },
    {
        let s = match utf8_str(buf) {
            Some(s) => s,
            None => {
                return Err(EngineError::Utf8);
            },
        };
        let n = s.unicode_len();
        let mut results: Vec<Packet> = Vec::new();
        let mut pos: usize = 0;
        proof {
            assert(s@.skip(0) =~= s@);
            assert(results.deep_view() =~= Seq::<PacketView>::empty());
        }
        loop
            invariant
                pos <= n,
                n == s@.len(),
                vstd::utf8::valid_utf8(buf@),
                s@ == vstd::utf8::decode_utf8(buf@),
                match decode_all(s@.skip(pos as int)) {
                    Ok(rest) => decode_all(s@) == Ok::<Seq<PacketView>, EngineError>(results.deep_view() + rest),
                    Err(e) => decode_all(s@) == Err::<Seq<PacketView>, EngineError>(e),
                },
            decreases n - pos,
        {
            match Packet::from_reader_payload(s, pos) {
                Ok((p, end)) => {
                    proof {
                        assert(s@.skip(pos as int).skip(end - pos) =~= s@.skip(end as int));
                        let ghost dv = results.deep_view();
                        if decode_all(s@.skip(end as int)) is Ok {
                            let rest2 = decode_all(s@.skip(end as int)).unwrap();
                            assert((dv.push(p@)) + rest2 =~= dv + (seq![p@] + rest2));
                        }
                    }
                    let ghost old_results = results.deep_view();
                    results.push(p);
                    proof {
                        assert(results.deep_view() =~= old_results.push(p@));
                    }
                    pos = end;
                },
                Err(e) => {
                    match e {
                        EngineError::UnexpectedEof => {
                            proof {
                                assert(decode_all(s@.skip(pos as int)) == Ok::<
                                    Seq<PacketView>,
                                    EngineError,
                                >(Seq::<PacketView>::empty()));
                                assert(results.deep_view() + Seq::<PacketView>::empty()
                                    =~= results.deep_view());
                            }
                            return Ok(results);
                        },
                        _ => {
                            return Err(e);
                        },
                    }
                },
            }
        }
    }
}

/// Writes a whole packet list in payload-wrapped form, back to back, into
/// one buffer.
pub fn encode_payloads(packets: &Vec<Packet>) -> (r: String)
    requires
        forall|i: int|
            0 <= i < packets.deep_view().len() ==> encoded_len(#[trigger] packets.deep_view()[i])
                <= usize::MAX,
    ensures
        r@ == payloads_encoded(packets.deep_view()),
{
    let ghost pvs = packets.deep_view();
    let mut out = String::new();
    let mut idx: usize = 0;
    proof {
        assert(pvs.skip(0) =~= pvs);
    }
    while idx < packets.len()
        invariant
            idx <= packets@.len(),
            pvs == packets.deep_view(),
            pvs.len() == packets@.len(),
            out@ + payloads_encoded(pvs.skip(idx as int)) == payloads_encoded(pvs),
            forall|i: int| 0 <= i < pvs.len() ==> encoded_len(#[trigger] pvs[i]) <= usize::MAX,
        decreases packets@.len() - idx,
    {
        let ghost prev = out@;
        proof {
            assert(pvs.skip(idx as int)[0] == pvs[idx as int]);
            assert(pvs.skip(idx as int).skip(1) =~= pvs.skip(idx as int + 1));
        }
        packets[idx].write_payload_to(&mut out);
        proof {
            assert(prev + payloads_encoded(pvs.skip(idx as int)) =~= out@ + payloads_encoded(
                pvs.skip(idx as int + 1),
            ));
        }
        idx = idx + 1;
    }
    proof {
        assert(pvs.skip(pvs.len() as int) =~= Seq::<PacketView>::empty());
        assert(out@ =~= payloads_encoded(pvs));
    }
    out
}

/// Decoding inverts payload-wrapped encoding, for every packet list whose
/// members' serialized lengths a machine word can hold.
pub proof fn lemma_decode_all_encoded(ps: Seq<PacketView>)
    requires
        forall|i: int| 0 <= i < ps.len() ==> encoded_len(#[trigger] ps[i]) <= usize::MAX,
    ensures
        decode_all(payloads_encoded(ps)) == Ok::<Seq<PacketView>, EngineError>(ps),
    decreases ps.len(),
{
    if ps.len() == 0 {
        assert(ps =~= Seq::<PacketView>::empty());
    } else {
        let p = ps[0];
        let s = payloads_encoded(ps);
        let e = encoded(p);
        let n = e.len();
        let d = dec_rep(n);
        let j = d.len() as int;
        let suffix = payloads_encoded(ps.skip(1));
        lemma_encoded_len(p);
        crate::text::lemma_dec_rep_digits(n);
        crate::text::lemma_dec_value_rep(n);
        assert(s =~= d + seq![':'] + e + suffix);
        assert forall|k: int| 0 <= k < j implies s[k] != ':' by {
            assert(s[k] == d[k]);
            assert(is_dec_digit(d[k]));
        }
        assert(s[j] == ':');
        lemma_find_colon_at(s, j);
        assert(s.take(j) =~= d);
        assert(dec_value(d) == n);
        let rest = s.skip(j + 1);
        assert(rest =~= e + suffix);
        assert(rest.take(n as int) =~= e);
        lemma_decode_encoded(p);
        let c = j + 1 + n;
        assert(s.skip(c) =~= suffix);
        assert forall|i: int| 0 <= i < ps.skip(1).len() implies encoded_len(
            #[trigger] ps.skip(1)[i],
        ) <= usize::MAX by {
            assert(ps.skip(1)[i] == ps[i + 1]);
        }
        lemma_decode_all_encoded(ps.skip(1));
        assert(decode_payload(s) == Ok::<(PacketView, int), EngineError>((p, c)));
        assert(decode_all(s) == Ok::<Seq<PacketView>, EngineError>(seq![p] + ps.skip(1)));
        assert(seq![p] + ps.skip(1) =~= ps);
    }
}

} // verus!
