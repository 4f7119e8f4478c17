use engineio::connection::{
    ConnectionEvent, ConnectionState, SendRoute, Sender, transition, upgrade_packet,
};
use engineio::polling::{PollEvent, PollOutput, Receiver, handshake_data, process_poll_response};
use engineio::transports::{
    CloseInitiator, Data, StreamPoll, close_packets, gen_random_string, query_params,
    request_timeout_ms,
};
use engineio::websocket::{Event, probe_packet, probe_response, receive_step, ws_scheme};
use engineio::{EngineError, OpCode, Packet, Payload};

fn session() -> Data {
    Data::new(
        String::from("abc"),
        25000,
        60000,
        vec![String::from("websocket")],
    )
}

fn message(text: &str) -> Packet {
    Packet::with_str(OpCode::Message, text)
}

#[test]
fn transport_config_getters() {
    let data = session();
    assert_eq!(data.sid(), "abc");
    assert_eq!(data.ping_interval(), 25000);
    assert_eq!(data.ping_timeout(), 60000);
    assert_eq!(data.upgrades(), &vec![String::from("websocket")]);
}

#[test]
fn handshake() {
    let body =
        "79:0{\"sid\":\"abc\",\"upgrades\":[\"websocket\"],\"pingInterval\":25000,\"pingTimeout\":5000}";
    let packets = Packet::from_reader_all(body.as_bytes()).expect("Failed to decode handshake.");
    assert_eq!(packets.len(), 1);
    assert_eq!(packets[0].opcode(), OpCode::Open);
    let data = handshake_data(&packets).expect("Handshake packet missing.");
    assert_eq!(data.sid(), "abc");
    assert_eq!(data.upgrades(), &vec![String::from("websocket")]);
    assert_eq!(data.ping_interval(), 25000);
    assert_eq!(data.ping_timeout(), 5000);
}

#[test]
fn handshake_skips_unparsable_packets() {
    let first = Packet::with_str(OpCode::Message, "not json");
    let second = Packet::with_str(OpCode::Open, "{\"sid\":\"s1\",\"upgrades\":[],\"pingInterval\":1,\"pingTimeout\":2}");
    let data = handshake_data(&vec![first, second]).expect("Handshake packet missing.");
    assert_eq!(data.sid(), "s1");
    assert_eq!(data.upgrades().len(), 0);
}

#[test]
fn handshake_rejects_empty_sid() {
    let empty_sid =
        Packet::with_str(OpCode::Open, "{\"sid\":\"\",\"upgrades\":[],\"pingInterval\":1,\"pingTimeout\":2}");
    assert!(matches!(
        handshake_data(&vec![empty_sid.clone()]),
        Err(EngineError::InvalidData)
    ));

    let valid =
        Packet::with_str(OpCode::Open, "{\"sid\":\"s2\",\"upgrades\":[],\"pingInterval\":1,\"pingTimeout\":2}");
    let data = handshake_data(&vec![empty_sid, valid]).expect("Handshake packet missing.");
    assert_eq!(data.sid(), "s2");
}

#[test]
fn handshake_missing_is_invalid_data() {
    let packets = vec![message("hello"), Packet::with_binary(OpCode::Message, vec![1, 2])];
    assert!(matches!(
        handshake_data(&packets),
        Err(EngineError::InvalidData)
    ));
}

#[test]
fn poll_response_rejects_bad_status() {
    assert_eq!(
        process_poll_response(404, b"12:4Hello World"),
        Err(EngineError::InvalidData)
    );
    assert_eq!(
        process_poll_response(500, b""),
        Err(EngineError::InvalidData)
    );
}

#[test]
fn poll_response_decodes_body() {
    let ps = process_poll_response(200, b"12:4Hello World").expect("Failed to decode response.");
    assert_eq!(ps.len(), 1);
    assert_eq!(ps[0], message("Hello World"));
    let empty = process_poll_response(204, b"").expect("Empty body should mean no packets.");
    assert_eq!(empty.len(), 0);
}

#[test]
fn silent_repoll_on_short_timeout() {
    let mut rx = Receiver::new(session());
    assert!(matches!(rx.poll_step(PollEvent::Poll), PollOutput::StartRequest));
    assert!(matches!(
        rx.poll_step(PollEvent::Timeout { elapsed_ms: 10000 }),
        PollOutput::StartRequest
    ));
    assert!(matches!(
        rx.poll_step(PollEvent::Timeout { elapsed_ms: 10000 }),
        PollOutput::StartRequest
    ));
    match rx.poll_step(PollEvent::Response(vec![message("hi")])) {
        PollOutput::Packet(p) => assert_eq!(p, message("hi")),
        _ => panic!("Expected the message after the silent re-polls."),
    }
    assert!(matches!(rx.poll_step(PollEvent::Poll), PollOutput::StartRequest));
}

#[test]
fn timeout_beyond_ping_window_fails() {
    let mut rx = Receiver::new(session());
    assert!(matches!(rx.poll_step(PollEvent::Poll), PollOutput::StartRequest));
    assert!(matches!(
        rx.poll_step(PollEvent::Timeout { elapsed_ms: 60001 }),
        PollOutput::Failed(EngineError::Io)
    ));
    assert!(matches!(rx.poll_step(PollEvent::Poll), PollOutput::End));
}

#[test]
fn close_packet_is_surfaced_then_stream_ends() {
    let mut rx = Receiver::new(session());
    assert!(matches!(rx.poll_step(PollEvent::Poll), PollOutput::StartRequest));
    let close = Packet::with_str(OpCode::Close, "");
    match rx.poll_step(PollEvent::Response(vec![close.clone(), message("late")])) {
        PollOutput::Packet(p) => assert_eq!(p, close),
        _ => panic!("Expected the close packet to be surfaced."),
    }
    assert!(matches!(rx.poll_step(PollEvent::Poll), PollOutput::End));
}

#[test]
fn internal_packets_are_consumed_by_polling() {
    let mut rx = Receiver::new(session());
    assert!(matches!(rx.poll_step(PollEvent::Poll), PollOutput::StartRequest));
    let response = vec![
        Packet::with_str(OpCode::Open, ""),
        Packet::with_str(OpCode::Ping, ""),
        message("visible"),
        Packet::with_str(OpCode::Upgrade, ""),
        message("also visible"),
    ];
    match rx.poll_step(PollEvent::Response(response)) {
        PollOutput::Packet(p) => assert_eq!(p, message("visible")),
        _ => panic!("Expected the first deliverable packet."),
    }
    match rx.poll_step(PollEvent::Poll) {
        PollOutput::Packet(p) => assert_eq!(p, message("also visible")),
        _ => panic!("Expected the second deliverable packet."),
    }
    assert!(matches!(rx.poll_step(PollEvent::Poll), PollOutput::StartRequest));
}

#[test]
fn all_internal_response_repolls() {
    let mut rx = Receiver::new(session());
    assert!(matches!(rx.poll_step(PollEvent::Poll), PollOutput::StartRequest));
    let response = vec![
        Packet::with_str(OpCode::Ping, ""),
        Packet::with_str(OpCode::Upgrade, ""),
    ];
    assert!(matches!(
        rx.poll_step(PollEvent::Response(response)),
        PollOutput::StartRequest
    ));
}

#[test]
fn internal_packets_are_consumed_by_unified_receiver() {
    let mut rx = engineio::Receiver::new();
    let ping = Packet::with_str(OpCode::Ping, "liveness");
    assert!(matches!(
        rx.poll_step(StreamPoll::NotReady, Some(StreamPoll::Packet(ping))),
        StreamPoll::NotReady
    ));
    let open = Packet::with_str(OpCode::Open, "");
    assert!(matches!(
        rx.poll_step(StreamPoll::Packet(open), None),
        StreamPoll::NotReady
    ));
    match rx.poll_step(StreamPoll::Packet(message("after")), None) {
        StreamPoll::Packet(p) => assert_eq!(p, message("after")),
        _ => panic!("The stream must continue after consumed packets."),
    }
}

#[test]
fn close_signal_ends_polling() {
    let mut rx = Receiver::new(session());
    assert!(matches!(rx.poll_step(PollEvent::CloseSignal), PollOutput::End));
    assert!(matches!(rx.poll_step(PollEvent::Poll), PollOutput::End));
}

#[test]
fn polling_failure_is_surfaced() {
    let mut rx = Receiver::new(session());
    assert!(matches!(rx.poll_step(PollEvent::Poll), PollOutput::StartRequest));
    assert!(matches!(
        rx.poll_step(PollEvent::Failed(EngineError::Io)),
        PollOutput::Failed(EngineError::Io)
    ));
}

#[test]
fn cache_buster_is_seven_alphanumerics() {
    let s = gen_random_string();
    assert_eq!(s.chars().count(), 7);
    assert!(s.chars().all(|c| c.is_ascii_alphanumeric()));
}

#[test]
fn query_parameters_without_session() {
    let params = query_params("polling", None);
    assert_eq!(params.len(), 4);
    assert_eq!(params[0].0, "EIO");
    assert_eq!(params[0].1, "3");
    assert_eq!(params[1].0, "transport");
    assert_eq!(params[1].1, "polling");
    assert_eq!(params[2].0, "t");
    assert_eq!(params[2].1.chars().count(), 7);
    assert_eq!(params[3].0, "b64");
    assert_eq!(params[3].1, "1");
}

#[test]
fn query_parameters_with_session() {
    let data = session();
    let params = query_params("websocket", Some(&data));
    assert_eq!(params.len(), 5);
    assert_eq!(params[0].0, "sid");
    assert_eq!(params[0].1, "abc");
    assert_eq!(params[1].1, "3");
    assert_eq!(params[2].1, "websocket");
}

#[test]
fn request_timeout_selection() {
    assert_eq!(request_timeout_ms(None), 10000);
    assert_eq!(request_timeout_ms(Some(&session())), 25000);
}

#[test]
fn close_packets_by_initiator() {
    let client = close_packets(CloseInitiator::Client);
    assert_eq!(client.len(), 1);
    assert_eq!(client[0].opcode(), OpCode::Close);
    assert_eq!(client[0].payload(), &Payload::String(String::new()));
    assert_eq!(close_packets(CloseInitiator::Server).len(), 0);
}

#[test]
fn probe_round() {
    let ping = probe_packet();
    assert_eq!(ping.opcode(), OpCode::Ping);
    assert_eq!(ping.payload(), &Payload::String(String::from("probe")));

    let pong = Packet::with_str(OpCode::Pong, "probe");
    assert!(probe_response(&Event::Packet(pong)).is_ok());
}

#[test]
fn probe_rejects_wrong_answers() {
    assert_eq!(probe_response(&Event::Close), Err(EngineError::Io));
    assert_eq!(probe_response(&Event::Error), Err(EngineError::WebSocket));
    assert_eq!(
        probe_response(&Event::Packet(message("probe"))),
        Err(EngineError::InvalidData)
    );
    assert_eq!(
        probe_response(&Event::Packet(Packet::with_str(OpCode::Pong, "wrong"))),
        Err(EngineError::InvalidData)
    );
}

#[test]
fn websocket_receive_steps() {
    assert!(matches!(receive_step(Event::Close), StreamPoll::End));
    assert!(matches!(
        receive_step(Event::Error),
        StreamPoll::Failed(EngineError::WebSocket)
    ));
    match receive_step(Event::Packet(message("x"))) {
        StreamPoll::Packet(p) => assert_eq!(p, message("x")),
        _ => panic!("Expected the packet through."),
    }
}

#[test]
fn websocket_scheme_rewrite() {
    assert_eq!(ws_scheme("http"), "ws");
    assert_eq!(ws_scheme("https"), "wss");
    assert_eq!(ws_scheme("ftp"), "ftp");
}

#[test]
fn upgrade_success_ordering() {
    let mut rx = engineio::Receiver::new();
    let m1 = message("first");
    let m2 = message("second");
    let m3 = message("third");

    match rx.poll_step(StreamPoll::Packet(m1.clone()), None) {
        StreamPoll::Packet(p) => assert_eq!(p, m1),
        _ => panic!("Expected the first polling packet."),
    }
    match rx.poll_step(StreamPoll::Packet(m2.clone()), Some(StreamPoll::Packet(m3.clone()))) {
        StreamPoll::Packet(p) => assert_eq!(p, m2),
        _ => panic!("Polling must be drained before the websocket."),
    }
    match rx.poll_step(StreamPoll::NotReady, Some(StreamPoll::Packet(m3.clone()))) {
        StreamPoll::Packet(p) => assert_eq!(p, m3),
        _ => panic!("Expected the websocket packet once polling is idle."),
    }
}

#[test]
fn upgrade_failure_falls_back() {
    assert!(probe_response(&Event::Error).is_err());

    let tx = Sender::new();
    assert_eq!(tx.route(false), Ok(SendRoute::Polling));

    let mut rx = engineio::Receiver::new();
    assert!(matches!(
        rx.poll_step(StreamPoll::NotReady, None),
        StreamPoll::NotReady
    ));
    match rx.poll_step(StreamPoll::Packet(message("still here")), None) {
        StreamPoll::Packet(p) => assert_eq!(p, message("still here")),
        _ => panic!("Polling must keep delivering after a failed probe."),
    }
}

#[test]
fn sender_routes_and_closes() {
    let mut tx = Sender::new();
    assert_eq!(tx.route(true), Ok(SendRoute::WebSocket));
    assert_eq!(tx.route(false), Ok(SendRoute::Polling));
    assert_eq!(tx.close(true), SendRoute::WebSocket);
    assert_eq!(tx.route(true), Err(EngineError::InvalidState));
    assert_eq!(tx.route(false), Err(EngineError::InvalidState));
}

#[test]
fn unified_stream_ends_on_close_packet() {
    let mut rx = engineio::Receiver::new();
    let close = Packet::with_str(OpCode::Close, "");
    match rx.poll_step(StreamPoll::Packet(close.clone()), None) {
        StreamPoll::Packet(p) => assert_eq!(p, close),
        _ => panic!("The close packet must be delivered last."),
    }
    assert!(matches!(rx.poll_step(StreamPoll::Packet(message("x")), None), StreamPoll::End));
}

#[test]
fn upgrade_notification_packet() {
    let p = upgrade_packet();
    assert_eq!(p.opcode(), OpCode::Upgrade);
    assert_eq!(p.payload(), &Payload::String(String::new()));
}

#[test]
fn lifecycle_transitions() {
    let s = ConnectionState::Handshaking;
    let s = transition(s, ConnectionEvent::HandshakeDone);
    assert_eq!(s, ConnectionState::Polling);
    let s = transition(s, ConnectionEvent::ProbeStarted);
    assert_eq!(s, ConnectionState::PollingProbing);
    assert_eq!(
        transition(s, ConnectionEvent::ProbeSucceeded),
        ConnectionState::Dual
    );
    assert_eq!(
        transition(s, ConnectionEvent::ProbeFailed),
        ConnectionState::Polling
    );
    assert_eq!(
        transition(ConnectionState::Dual, ConnectionEvent::CloseObserved),
        ConnectionState::Closed
    );
    assert_eq!(
        transition(ConnectionState::Polling, ConnectionEvent::ProbeSucceeded),
        ConnectionState::Polling
    );
}
