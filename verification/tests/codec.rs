use engineio::packet::encode_payloads;
use engineio::{EngineError, OpCode, Packet, Payload};

const BINARY_PAYLOAD: [u8; 9] = [1, 2, 3, 4, 6, 7, 8, 9, 10];
const BINARY_PAYLOAD_B64: &str = "AQIDBAYHCAkK";
const STRING_PAYLOAD: &str = "Hello World";

fn encode(p: &Packet) -> String {
    let mut buf = String::new();
    p.write_to(&mut buf);
    buf
}

#[test]
fn opcode_from() {
    assert_eq!(
        OpCode::Ping,
        OpCode::from_u8(2).expect("Could not parse OpCode from int scalar.")
    );
    assert_eq!(
        OpCode::Ping,
        OpCode::from_char('2').expect("Could not parse OpCode from char scalar.")
    );
    assert_eq!(
        OpCode::Ping,
        OpCode::from_str("2").expect("Could not parse OpCode from string scalar.")
    );
}

#[test]
#[should_panic]
fn opcode_from_int_scalar_panic() {
    OpCode::from_u8(7).expect("Invalid char OpCode value to parse yielded an error. Test succeeded.");
}

#[test]
#[should_panic]
fn opcode_from_char_scalar_panic() {
    OpCode::from_char('7')
        .expect("Invalid char OpCode value to parse yielded an error. Test succeeded.");
}

#[test]
#[should_panic]
fn opcode_from_string_scalar_panic() {
    OpCode::from_str("7")
        .expect("Invalid string OpCode value to parse yielded an error. Test succeeded.");
}

#[test]
fn opcode_string_repr() {
    assert_eq!(OpCode::Open.string_repr(), "0");
    assert_eq!(OpCode::Close.string_repr(), "1");
    assert_eq!(OpCode::Ping.string_repr(), "2");
    assert_eq!(OpCode::Pong.string_repr(), "3");
    assert_eq!(OpCode::Message.string_repr(), "4");
    assert_eq!(OpCode::Upgrade.string_repr(), "5");
    assert_eq!(OpCode::Noop.string_repr(), "6");
}

#[test]
fn packet_string_encoding() {
    let p = Packet::with_str(OpCode::Message, STRING_PAYLOAD);
    let p_enc = encode(&p);
    println!("{}", p_enc);
    assert_eq!(p_enc, format!("4{}", STRING_PAYLOAD));
}

#[test]
fn packet_binary_encoding() {
    let p = Packet::with_binary(OpCode::Message, BINARY_PAYLOAD.to_vec());
    let p_enc = encode(&p);
    println!("{}", p_enc);
    assert_eq!(p_enc, format!("b4{}", BINARY_PAYLOAD_B64));
}

#[test]
fn payload_string_encoding() {
    let p = Packet::with_str(OpCode::Message, STRING_PAYLOAD);
    let mut buf = String::new();
    p.write_payload_to(&mut buf);
    assert_eq!(buf, format!("12:4{}", STRING_PAYLOAD));
}

#[test]
fn payload_binary_encoding() {
    let p = Packet::with_binary(OpCode::Message, BINARY_PAYLOAD.to_vec());
    let mut buf = String::new();
    p.write_payload_to(&mut buf);
    assert_eq!(buf, format!("14:b4{}", BINARY_PAYLOAD_B64));
}

fn test_packet_decoding_equality(p: &Packet) {
    let buf = encode(p);
    let p_read =
        Packet::from_reader(buf.as_bytes()).expect("Failed to read packet from buffer.");
    assert_eq!(*p, p_read);
}

#[test]
fn packet_string_decoding() {
    let p = Packet::with_str(OpCode::Message, STRING_PAYLOAD);
    test_packet_decoding_equality(&p);
}

#[test]
fn packet_binary_decoding() {
    let p = Packet::with_binary(OpCode::Message, BINARY_PAYLOAD.to_vec());
    test_packet_decoding_equality(&p);
}

#[test]
fn packet_empty_string_decoding() {
    let p = Packet::from_str("4").expect("Failed to parse empty string packet.");
    if let Payload::String(str) = p.payload {
        assert!(p.opcode == OpCode::Message);
        assert!(str.is_empty());
    } else {
        panic!("String packet was decoded to binary.");
    }
}

#[test]
fn packet_empty_binary_decoding() {
    let p = Packet::from_str("b4").expect("Failed to parse empty string packet.");
    if let Payload::Binary(vec) = p.payload {
        assert!(p.opcode == OpCode::Message);
        assert!(vec.len() == 0);
    } else {
        panic!("Binary packet was decoded to string.");
    }
}

fn test_payload_decoding_equality(p: &Packet) {
    let mut buf = String::new();
    p.write_payload_to(&mut buf);
    let (p_read, end) =
        Packet::from_reader_payload(&buf, 0).expect("Failed to read payload from buffer.");
    assert_eq!(*p, p_read);
    assert_eq!(end, buf.chars().count());
}

#[test]
fn payload_string_decoding() {
    let p = Packet::with_str(OpCode::Message, STRING_PAYLOAD);
    test_payload_decoding_equality(&p);
}

#[test]
fn payload_binary_decoding() {
    let p = Packet::with_binary(OpCode::Message, BINARY_PAYLOAD.to_vec());
    test_payload_decoding_equality(&p);
}

#[test]
fn payload_multiple_decoding_single() {
    let p1 = Packet::with_str(OpCode::Message, STRING_PAYLOAD);
    let p2 = Packet::with_binary(OpCode::Message, BINARY_PAYLOAD.to_vec());
    let mut buf = String::new();
    p1.write_payload_to(&mut buf);
    p2.write_payload_to(&mut buf);

    let (p1_dec, pos) =
        Packet::from_reader_payload(&buf, 0).expect("Failed to decode string packet.");
    let (p2_dec, _) =
        Packet::from_reader_payload(&buf, pos).expect("Failed to decode binary packet.");

    assert_eq!(p1, p1_dec);
    assert_eq!(p2, p2_dec);
}

#[test]
fn payload_multiple_decoding_multiple() {
    let p1 = Packet::with_str(OpCode::Message, STRING_PAYLOAD);
    let p2 = Packet::with_binary(OpCode::Message, BINARY_PAYLOAD.to_vec());
    let mut buf = String::new();
    p1.write_payload_to(&mut buf);
    p2.write_payload_to(&mut buf);

    let dec = Packet::from_reader_all(buf.as_bytes())
        .expect("Failed to read multiple packets from buffer.");
    assert!(dec.len() == 2, "Could not read all packets from buffer.");
    assert_eq!(dec[0], p1);
    assert_eq!(dec[1], p2);
}

#[test]
fn payload_multiple_encoding() {
    let p1 = Packet::with_str(OpCode::Message, STRING_PAYLOAD);
    let p2 = Packet::with_binary(OpCode::Message, BINARY_PAYLOAD.to_vec());
    let mut buf = String::new();
    p1.write_payload_to(&mut buf);
    p2.write_payload_to(&mut buf);

    assert_eq!(
        buf,
        format!("12:4{}14:b4{}", STRING_PAYLOAD, BINARY_PAYLOAD_B64)
    );
}

#[test]
fn two_packet_payload_decode() {
    let buf = "12:4Hello World14:b4AQIDBAYHCAkK";
    let dec = Packet::from_reader_all(buf.as_bytes()).expect("Failed to decode the buffer.");
    assert_eq!(dec.len(), 2);
    assert_eq!(dec[0], Packet::with_str(OpCode::Message, STRING_PAYLOAD));
    assert_eq!(
        dec[1],
        Packet::with_binary(OpCode::Message, BINARY_PAYLOAD.to_vec())
    );
}

#[test]
fn default_packet_is_open_and_empty() {
    let p = Packet::default();
    assert_eq!(p.opcode(), OpCode::Open);
    assert_eq!(p.payload(), &Payload::String(String::new()));
}

#[test]
fn round_trip_every_opcode() {
    let opcodes = [
        OpCode::Open,
        OpCode::Close,
        OpCode::Ping,
        OpCode::Pong,
        OpCode::Message,
        OpCode::Upgrade,
        OpCode::Noop,
    ];
    for op in opcodes {
        test_packet_decoding_equality(&Packet::with_str(op, "some text"));
        test_packet_decoding_equality(&Packet::with_binary(op, vec![0, 255, 7]));
        test_payload_decoding_equality(&Packet::with_str(op, ""));
        test_payload_decoding_equality(&Packet::with_binary(op, Vec::new()));
    }
}

#[test]
fn encode_payloads_round_trip() {
    let packets = vec![
        Packet::with_str(OpCode::Message, STRING_PAYLOAD),
        Packet::with_binary(OpCode::Message, BINARY_PAYLOAD.to_vec()),
        Packet::with_str(OpCode::Noop, ""),
    ];
    let buf = encode_payloads(&packets);
    let dec = Packet::from_reader_all(buf.as_bytes()).expect("Failed to decode batch.");
    assert_eq!(dec, packets);
}

#[test]
fn compute_length_matches_encoding() {
    let cases = vec![
        Packet::with_str(OpCode::Message, STRING_PAYLOAD),
        Packet::with_str(OpCode::Message, ""),
        Packet::with_str(OpCode::Message, "h\u{e9}llo \u{4e16}\u{754c}"),
        Packet::with_binary(OpCode::Message, BINARY_PAYLOAD.to_vec()),
        Packet::with_binary(OpCode::Message, Vec::new()),
        Packet::with_binary(OpCode::Message, vec![1]),
        Packet::with_binary(OpCode::Message, vec![1, 2]),
    ];
    for p in &cases {
        assert_eq!(p.compute_length(), encode(p).chars().count());
    }
}

#[test]
fn try_compute_length_only_for_strings() {
    let s = Packet::with_str(OpCode::Message, "h\u{e9}llo");
    assert_eq!(s.try_compute_length(true), Some(6));
    assert_eq!(s.try_compute_length(false), Some(7));
    let b = Packet::with_binary(OpCode::Message, vec![1, 2, 3]);
    assert_eq!(b.try_compute_length(true), None);
    assert_eq!(b.try_compute_length(false), None);
}

#[test]
fn decode_empty_input_is_eof() {
    assert_eq!(Packet::from_str(""), Err(EngineError::UnexpectedEof));
}

#[test]
fn decode_lone_binary_marker_is_eof() {
    assert_eq!(Packet::from_str("b"), Err(EngineError::UnexpectedEof));
}

#[test]
fn decode_out_of_range_opcode() {
    assert_eq!(Packet::from_str("7x"), Err(EngineError::InvalidData));
}

#[test]
fn decode_bad_base64() {
    assert_eq!(Packet::from_str("b4!!!"), Err(EngineError::InvalidData));
}

#[test]
fn decode_bad_opcode_character() {
    assert_eq!(Packet::from_str("xyz"), Err(EngineError::InvalidData));
}

#[test]
fn decode_invalid_utf8_bytes() {
    assert_eq!(
        Packet::from_reader(&[0xff, 0xfe]),
        Err(EngineError::Utf8)
    );
    assert_eq!(
        Packet::from_reader_all(&[0xff, 0xfe]),
        Err(EngineError::Utf8)
    );
}

#[test]
fn decode_payload_bad_length_prefix() {
    assert_eq!(
        Packet::from_reader_payload("a1:4x", 0),
        Err(EngineError::InvalidData)
    );
    assert_eq!(
        Packet::from_reader_payload(":4x", 0),
        Err(EngineError::InvalidData)
    );
    assert_eq!(
        Packet::from_reader_payload("99999999999999999999999999:4x", 0),
        Err(EngineError::InvalidData)
    );
}

#[test]
fn decode_payload_missing_colon_is_eof() {
    assert_eq!(
        Packet::from_reader_payload("123", 0),
        Err(EngineError::UnexpectedEof)
    );
    assert_eq!(
        Packet::from_reader_payload("", 0),
        Err(EngineError::UnexpectedEof)
    );
}

#[test]
fn decode_payload_truncated_packet_is_eof() {
    assert_eq!(
        Packet::from_reader_payload("5:4ab", 0),
        Err(EngineError::UnexpectedEof)
    );
}

#[test]
fn multibyte_characters_in_payload_framing() {
    let text = "caf\u{e9} \u{4e16}\u{754c} \u{1f600}";
    let p1 = Packet::with_str(OpCode::Message, text);
    let p2 = Packet::with_str(OpCode::Message, "plain");
    let mut buf = String::new();
    p1.write_payload_to(&mut buf);
    p2.write_payload_to(&mut buf);

    let dec = Packet::from_reader_all(buf.as_bytes()).expect("Failed to decode mixed-width batch.");
    assert_eq!(dec.len(), 2);
    assert_eq!(dec[0], p1);
    assert_eq!(dec[1], p2);

    let n: usize = text.chars().count() + 1;
    assert!(buf.starts_with(&format!("{}:4", n)));
}
