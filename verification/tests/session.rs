use rust_socketio::engineio::packet::{Frame, Packet, PacketId};
use rust_socketio::engineio::socket::EngineSocket;
use rust_socketio::engineio::transport::{
    after_poll_cycle, build_query, build_query_path, build_request_url, check_status, find_path,
    get_random_t, read_handshake, read_scheme, select_transport, starts_with,
    to_websocket_address, Channel, Cycle, HandshakeData, Outgoing, Phase, Reaction, Scheme,
    Selection, TransportClient, TransportType,
};
use rust_socketio::engineio::websocket::{
    to_message, AsyncWebsocketGeneralTransport, ProbeState, UpgradeEvent, WsMessage,
};
use rust_socketio::error::Error;

const SERVER_URL: &str = "http://localhost:4201";

fn handshake(upgrades: &[&str]) -> HandshakeData {
    HandshakeData {
        sid: b"X".to_vec(),
        upgrades: upgrades.iter().map(|u| u.as_bytes().to_vec()).collect(),
        ping_interval: 25000,
        ping_timeout: 5000,
    }
}

fn connected(mode: TransportType, upgrades: &[&str]) -> (TransportClient, Selection) {
    let mut c = TransportClient::new();
    c.set_transport_type(mode).unwrap();
    c.open(b"http://localhost:4200".to_vec(), b"abcdef").unwrap().unwrap();
    let opened = c.handshake(handshake(upgrades), 0).unwrap();
    assert!(!opened.call_on_open);
    (c, opened.selection)
}

#[test]
fn test_illegal_actions() {
    let mut sut = EngineSocket::new();

    assert!(sut.emit(Packet::new(PacketId::Close, b"".to_vec()), b"t").is_err());
    assert!(sut.emit_binary_attachment(b"".to_vec(), b"t").is_err());

    let url = SERVER_URL.as_bytes().to_vec();

    assert!(sut.bind(url, b"t").is_ok());

    assert!(sut.on_open().is_err());
    assert!(sut.on_close().is_err());
    assert!(sut.on_packet().is_err());
    assert!(sut.on_data().is_err());
    assert!(sut.on_error().is_err());
}

#[test]
fn callbacks_are_registered_before_the_bind() {
    let mut socket = EngineSocket::new();
    assert!(socket.on_open().is_ok());
    assert!(socket.on_packet().is_ok());
    assert!(socket.on_data().is_ok());
    let c = socket.session().callbacks();
    assert!(c.on_open && c.on_packet && c.on_data);
    assert!(!c.on_close && !c.on_error);
    let url = socket.bind(SERVER_URL.as_bytes().to_vec(), b"123456").unwrap();
    assert_eq!(
        url,
        b"http://localhost:4201/engine.io/?EIO=4&transport=polling&t=123456".to_vec()
    );
    assert!(!socket.is_connected());
    assert!(matches!(
        socket.bind(SERVER_URL.as_bytes().to_vec(), b"123456"),
        Err(Error::IllegalActionAfterOpen)
    ));
    assert!(matches!(
        socket.emit(Packet::new(PacketId::Message, b"Hello World".to_vec()), b"t"),
        Err(Error::ActionBeforeOpen)
    ));
    socket.session().handshake(handshake(&[]), 0).unwrap();
    assert!(socket.is_connected());
    assert!(socket.emit(Packet::new(PacketId::Message, b"Hello World".to_vec()), b"t").is_ok());
    assert!(socket.emit(Packet::new(PacketId::Pong, Vec::new()), b"t").is_ok());
    assert!(socket.emit_binary_attachment(vec![1, 2], b"t").is_ok());
    assert!(socket.close(b"t").is_some());
    assert!(!socket.is_connected());
    assert!(socket.close(b"t").is_none());
}

#[test]
fn addresses_that_are_no_url() {
    for bad in ["ftp://localhost", "localhost:4200", "", "http//x", "http://exa mple.com"] {
        let mut c = TransportClient::new();
        match c.open(bad.as_bytes().to_vec(), b"t") {
            Err(Error::InvalidUrl(a)) => assert_eq!(a, bad.as_bytes().to_vec()),
            _ => panic!("{} was taken for a URL", bad),
        }
        assert_eq!(c.phase(), Phase::Disconnected);
    }
    for good in ["http://localhost:4200", "https://example.com/path", "ws://h", "wss://h:1/x"] {
        let mut c = TransportClient::new();
        assert!(c.open(good.as_bytes().to_vec(), b"t").unwrap().is_some());
        assert_eq!(c.phase(), Phase::Handshaking);
    }
}

#[test]
fn opening_with_a_given_answer_of_the_parser() {
    let mut c = TransportClient::new();
    match c.open_parsed(b"http://h".to_vec(), b"t", false) {
        Err(Error::InvalidUrl(a)) => assert_eq!(a, b"http://h".to_vec()),
        _ => panic!("an address that does not parse was taken"),
    }
    assert!(matches!(
        c.open_parsed(b"gopher://h".to_vec(), b"t", true),
        Err(Error::InvalidUrl(_))
    ));
    assert_eq!(c.phase(), Phase::Disconnected);
    let url = c.open_parsed(b"http://h".to_vec(), b"t", true).unwrap().unwrap();
    assert_eq!(url, b"http://h/engine.io/?EIO=4&transport=polling&t=t".to_vec());
    assert_eq!(c.phase(), Phase::Handshaking);
    c.handshake(handshake(&[]), 0).unwrap();
    assert_eq!(c.open_parsed(b"http://other".to_vec(), b"t", false).unwrap(), None);
}

#[test]
fn endpoints() {
    let url = |address: &[u8]| build_request_url(address, Channel::Polling, None, b"T");
    assert_eq!(url(b"http://h:1"), b"http://h:1/engine.io/?EIO=4&transport=polling&t=T".to_vec());
    assert_eq!(url(b"http://h:1/"), b"http://h:1/engine.io/?EIO=4&transport=polling&t=T".to_vec());
    assert_eq!(
        url(b"https://h/custom/"),
        b"https://h/custom/?EIO=4&transport=polling&t=T".to_vec()
    );
    assert_eq!(url(b"ws://h/x"), b"ws://h/x?EIO=4&transport=polling&t=T".to_vec());
    assert_eq!(find_path(b"http://h:1/a/b"), 10);
    assert_eq!(find_path(b"http://h:1"), 10);
    assert_eq!(find_path(b"nothing"), 7);
    assert_eq!(
        build_request_url(b"wss://h", Channel::Websocket, Some(&b"S".to_vec()), b"T"),
        b"wss://h/engine.io/?EIO=4&transport=websocket&sid=S&t=T".to_vec()
    );
    assert_eq!(
        build_query(Channel::Polling, Some(&b"S".to_vec()), b"T"),
        b"?EIO=4&transport=polling&sid=S&t=T".to_vec()
    );
}

#[test]
fn schemes() {
    assert_eq!(read_scheme(b"http://x"), Some(Scheme::Http));
    assert_eq!(read_scheme(b"https://x"), Some(Scheme::Https));
    assert_eq!(read_scheme(b"ws://x"), Some(Scheme::Ws));
    assert_eq!(read_scheme(b"wss://x"), Some(Scheme::Wss));
    assert_eq!(read_scheme(b"HTTP://x"), None);
    assert_eq!(read_scheme(b"http:/x"), None);
    assert_eq!(read_scheme(b""), None);
    assert!(starts_with(b"abc", b""));
    assert!(starts_with(b"abc", b"abc"));
    assert!(!starts_with(b"abc", b"abcd"));
    assert!(!starts_with(b"abc", b"b"));
    assert_eq!(to_websocket_address(b"http://localhost:4200"), b"ws://localhost:4200".to_vec());
    assert_eq!(to_websocket_address(b"https://a.b/c"), b"wss://a.b/c".to_vec());
    assert_eq!(to_websocket_address(b"ws://a"), b"ws://a".to_vec());
    assert_eq!(to_websocket_address(b"wss://a"), b"wss://a".to_vec());
    assert_eq!(to_websocket_address(b"other"), b"other".to_vec());
}

#[test]
fn query_paths() {
    assert_eq!(
        build_query_path(Channel::Polling, None, b"abcdef"),
        b"/engine.io/?EIO=4&transport=polling&t=abcdef".to_vec()
    );
    assert_eq!(
        build_query_path(Channel::Polling, Some(&b"X".to_vec()), b"abcdef"),
        b"/engine.io/?EIO=4&transport=polling&sid=X&t=abcdef".to_vec()
    );
    assert_eq!(
        build_query_path(Channel::Websocket, Some(&b"X".to_vec()), b"abcdef"),
        b"/engine.io/?EIO=4&transport=websocket&sid=X&t=abcdef".to_vec()
    );
}

#[test]
fn random_t_is_a_fresh_digest() {
    let a = get_random_t();
    let b = get_random_t();
    assert_eq!(a.len(), 40);
    assert!(a.len() >= 6);
    assert!(a.iter().all(|c| c.is_ascii_digit() || (b'a'..=b'f').contains(c)));
    assert_ne!(a, b);
}

#[test]
fn handshake_is_taken_from_the_open_packet() {
    let response = b"0{\"sid\":\"X\",\"upgrades\":[],\"pingInterval\":25000,\"pingTimeout\":5000}";
    assert_eq!(
        read_handshake(response).unwrap(),
        b"{\"sid\":\"X\",\"upgrades\":[],\"pingInterval\":25000,\"pingTimeout\":5000}".to_vec()
    );
    assert_eq!(read_handshake(b"0{}\x1e40").unwrap(), b"{}".to_vec());
    for bad in [&b""[..], b"4{}", b"{}", b"9", b"0{}\x1e"] {
        match read_handshake(bad) {
            Err(Error::HandshakeError(r)) => assert_eq!(r, bad.to_vec()),
            _ => panic!("a handshake was read from a response without one"),
        }
    }
}

#[test]
fn handshake_that_fails_disconnects() {
    let mut c = TransportClient::new();
    c.open(b"http://localhost:4200".to_vec(), b"t").unwrap();
    assert!(matches!(c.handshake_failed(b"junk".to_vec()), Error::HandshakeError(_)));
    assert_eq!(c.phase(), Phase::Disconnected);
    assert!(matches!(c.handshake(handshake(&[]), 0), Err(Error::IllegalActionAfterOpen)));
}

#[test]
fn transport_selection() {
    let ws = vec![b"websocket".to_vec()];
    let none: Vec<Vec<u8>> = vec![];
    let other = vec![b"webtransport".to_vec()];
    assert_eq!(select_transport(TransportType::Polling, &ws), Selection::StayPolling);
    assert_eq!(select_transport(TransportType::Polling, &none), Selection::StayPolling);
    assert_eq!(select_transport(TransportType::Websocket, &ws), Selection::OpenWebsocket);
    assert_eq!(select_transport(TransportType::Websocket, &none), Selection::OpenWebsocket);
    assert_eq!(select_transport(TransportType::WebsocketUpgrade, &ws), Selection::ProbeUpgrade);
    assert_eq!(select_transport(TransportType::WebsocketUpgrade, &none), Selection::StayPolling);
    assert_eq!(select_transport(TransportType::Any, &ws), Selection::ProbeUpgrade);
    assert_eq!(select_transport(TransportType::Any, &other), Selection::StayPolling);
    assert_eq!(select_transport(TransportType::Any, &none), Selection::StayPolling);
}

#[test]
fn bootstrap_to_polling() {
    let (c, s) = connected(TransportType::Any, &[]);
    assert_eq!(s, Selection::StayPolling);
    assert_eq!(c.phase(), Phase::Polling);
    assert!(c.is_connected());
    let message = Packet::new(PacketId::Message, b"2[\"test\",\"hello\"]".to_vec());
    match c.emit(&message, b"123456").unwrap() {
        Outgoing::Post { url, body } => {
            assert_eq!(
                url,
                b"http://localhost:4200/engine.io/?EIO=4&transport=polling&sid=X&t=123456"
                    .to_vec()
            );
            assert_eq!(body, b"42[\"test\",\"hello\"]".to_vec());
        }
        Outgoing::Message(_) => panic!("a polling session sent over a WebSocket"),
    }
    assert_eq!(
        c.poll_request(b"654321").unwrap(),
        b"http://localhost:4200/engine.io/?EIO=4&transport=polling&sid=X&t=654321".to_vec()
    );
}

#[test]
fn bootstrap_and_probe_upgrade() {
    let (mut c, s) = connected(TransportType::Any, &["websocket"]);
    assert_eq!(s, Selection::ProbeUpgrade);
    let url = c.open_websocket(false, b"123456").unwrap();
    assert_eq!(
        url,
        b"ws://localhost:4200/engine.io/?EIO=4&transport=websocket&sid=X&t=123456".to_vec()
    );
    assert_eq!(c.phase(), Phase::Polling);
    match c.upgrade(&UpgradeEvent::Start).unwrap() {
        Frame::Text(t) => assert_eq!(t, b"2probe".to_vec()),
        Frame::Binary(_) => panic!("the probe went out as bytes"),
    }
    assert_eq!(c.phase(), Phase::Upgrading);
    let before = Packet::new(PacketId::Message, b"early".to_vec());
    assert!(matches!(c.emit(&before, b"t").unwrap(), Outgoing::Post { .. }));
    let reply = UpgradeEvent::Reply(Some(Frame::Text(b"3probe".to_vec())));
    match c.upgrade(&reply).unwrap() {
        Frame::Text(t) => assert_eq!(t, b"5".to_vec()),
        Frame::Binary(_) => panic!("the upgrade went out as bytes"),
    }
    assert_eq!(c.phase(), Phase::Websocket);
    let message = Packet::new(PacketId::Message, b"2[\"test\",\"hello\"]".to_vec());
    match c.emit(&message, b"t").unwrap() {
        Outgoing::Message(m) => {
            assert!(!m.binary);
            assert_eq!(m.data, b"42[\"test\",\"hello\"]".to_vec());
        }
        Outgoing::Post { .. } => panic!("an upgraded session sent over polling"),
    }
    match c.emit(&Packet::new_binary(vec![1, 2, 3]), b"t").unwrap() {
        Outgoing::Message(m) => {
            assert!(m.binary);
            assert_eq!(m.data, vec![1, 2, 3]);
        }
        Outgoing::Post { .. } => panic!("an upgraded session sent over polling"),
    }
    assert!(c.poll(b"4late", 1).unwrap().is_empty());
}

#[test]
fn probe_that_is_not_answered_fails() {
    for reply in [
        Some(Frame::Text(b"3".to_vec())),
        Some(Frame::Text(b"2probe".to_vec())),
        Some(Frame::Text(b"3probes".to_vec())),
        Some(Frame::Binary(vec![4, b'p'])),
        Some(Frame::Text(vec![])),
        None,
    ] {
        let (mut c, _) = connected(TransportType::WebsocketUpgrade, &["websocket"]);
        c.open_websocket(false, b"t").unwrap();
        c.upgrade(&UpgradeEvent::Start).unwrap();
        assert!(matches!(
            c.upgrade(&UpgradeEvent::Reply(reply)),
            Err(Error::IllegalWebsocketUpgrade)
        ));
        assert_eq!(c.phase(), Phase::Polling);
        let p = Packet::new(PacketId::Message, b"x".to_vec());
        assert!(matches!(c.emit(&p, b"t").unwrap(), Outgoing::Post { .. }));
    }
}

#[test]
fn probe_events_out_of_turn() {
    let (mut c, _) = connected(TransportType::Any, &["websocket"]);
    assert!(matches!(c.upgrade(&UpgradeEvent::Start), Err(Error::ActionBeforeOpen)));
    c.open_websocket(false, b"t").unwrap();
    let reply = UpgradeEvent::Reply(Some(Frame::Text(b"3probe".to_vec())));
    assert!(matches!(c.upgrade(&reply), Err(Error::IllegalWebsocketUpgrade)));
    assert_eq!(c.phase(), Phase::Polling);
    assert!(c.upgrade(&UpgradeEvent::Start).is_ok());
    assert!(matches!(c.upgrade(&UpgradeEvent::Start), Err(Error::IllegalWebsocketUpgrade)));
    assert_eq!(c.phase(), Phase::Upgrading);
    assert!(matches!(c.open_websocket(false, b"t"), Err(Error::ActionBeforeOpen)));
}

#[test]
fn websocket_without_probe() {
    let (mut c, s) = connected(TransportType::Websocket, &[]);
    assert_eq!(s, Selection::OpenWebsocket);
    c.open_websocket(true, b"t").unwrap();
    assert_eq!(c.phase(), Phase::Websocket);
    let p = Packet::new(PacketId::Message, b"x".to_vec());
    assert!(matches!(c.emit(&p, b"t").unwrap(), Outgoing::Message(_)));
    let mut fresh = TransportClient::new();
    assert!(matches!(fresh.open_websocket(true, b"t"), Err(Error::ActionBeforeOpen)));
}

#[test]
fn websocket_transport_alone() {
    let mut w = AsyncWebsocketGeneralTransport::new(false);
    assert_eq!(w.state(), ProbeState::Idle);
    assert!(matches!(w.emit(b"4x".to_vec(), false), Err(Error::ActionBeforeOpen)));
    w.upgrade(&UpgradeEvent::Start).unwrap();
    assert_eq!(w.state(), ProbeState::Probing);
    w.upgrade(&UpgradeEvent::Reply(Some(Frame::Text(b"3probe".to_vec())))).unwrap();
    assert_eq!(w.state(), ProbeState::Upgraded);
    let m = w.emit(b"4x".to_vec(), false).unwrap();
    assert!(!m.binary);
    assert_eq!(m.data, b"4x".to_vec());
    let b = w.emit(vec![0xff, 0x00], true).unwrap();
    assert!(b.binary);
    assert_eq!(b.data, vec![0xff, 0x00]);
    assert!(matches!(w.emit(vec![0xff], false), Err(Error::InvalidPacket)));

    match w.poll(Some(WsMessage { binary: true, data: vec![4, 5, 6] })).unwrap() {
        Frame::Binary(f) => assert_eq!(f, vec![4, 4, 5, 6]),
        Frame::Text(_) => panic!("bytes came in as text"),
    }
    match w.poll(Some(WsMessage { binary: false, data: b"4hi".to_vec() })).unwrap() {
        Frame::Text(f) => assert_eq!(f, b"4hi".to_vec()),
        Frame::Binary(_) => panic!("text came in as bytes"),
    }
    assert!(matches!(w.poll(None), Err(Error::IncompletePacket)));

    let direct = AsyncWebsocketGeneralTransport::new(true);
    assert_eq!(direct.state(), ProbeState::Upgraded);
}

#[test]
fn what_goes_over_a_websocket_comes_back() {
    let w = AsyncWebsocketGeneralTransport::new(true);
    for p in [
        Packet::new(PacketId::Message, b"hello".to_vec()),
        Packet::new(PacketId::Ping, Vec::new()),
        Packet::new_binary(vec![4, 5, 6]),
        Packet::new_binary(vec![]),
    ] {
        let bytes = if p.binary { p.data.clone() } else { p.encode() };
        let message = w.emit(bytes, p.binary).unwrap();
        let frame = w.poll(Some(message)).unwrap();
        let q = Packet::decode_frame(&frame).unwrap();
        assert_eq!(q.packet_id, p.packet_id);
        assert_eq!(q.binary, p.binary);
        assert_eq!(q.data, p.data);
    }
}

#[test]
fn emit_refuses_what_cannot_go() {
    let (c, _) = connected(TransportType::Polling, &[]);
    let with_separator = Packet::new(PacketId::Message, b"a\x1eb".to_vec());
    assert!(matches!(c.emit(&with_separator, b"t"), Err(Error::InvalidPacket)));
    let not_text = Packet::new(PacketId::Message, vec![0xff]);
    assert!(matches!(c.emit(&not_text, b"t"), Err(Error::InvalidPacket)));
    let fresh = TransportClient::new();
    let p = Packet::new(PacketId::Message, b"x".to_vec());
    assert!(matches!(fresh.emit(&p, b"t"), Err(Error::ActionBeforeOpen)));
    assert!(matches!(fresh.poll_request(b"t"), Err(Error::ActionBeforeOpen)));
}

#[test]
fn poll_hands_out_what_the_packets_ask_for() {
    let mut c = TransportClient::new();
    let mut all = c.callbacks();
    all.on_packet = true;
    all.on_data = true;
    c.set_callbacks(all).unwrap();
    c.open(b"http://localhost:4200".to_vec(), b"t").unwrap();
    c.handshake(handshake(&[]), 0).unwrap();
    let reactions = c.poll(b"4hello\x1e2ping\x1e6", 7).unwrap();
    assert_eq!(reactions.len(), 5);
    assert!(matches!(&reactions[0], Reaction::Packet(p) if p.data == b"hello".to_vec()));
    assert!(matches!(&reactions[1], Reaction::Data(d) if d == &b"hello".to_vec()));
    assert!(matches!(&reactions[2], Reaction::Packet(p) if p.packet_id == PacketId::Ping));
    assert!(matches!(&reactions[3], Reaction::Send(p)
        if p.packet_id == PacketId::Pong && p.data == b"ping".to_vec()));
    assert!(matches!(&reactions[4], Reaction::Packet(p) if p.packet_id == PacketId::Noop));
}

#[test]
fn poll_without_callbacks_only_answers_pings() {
    let (mut c, _) = connected(TransportType::Polling, &[]);
    let reactions = c.poll(b"4hello\x1e2\x1e6\x1e3\x1e5\x1e0", 7).unwrap();
    assert_eq!(reactions.len(), 1);
    assert!(matches!(&reactions[0], Reaction::Send(p)
        if p.packet_id == PacketId::Pong && p.data.is_empty()));
    assert!(c.poll(b"", 8).unwrap().is_empty());
}

#[test]
fn close_from_the_server_ends_the_session() {
    let mut c = TransportClient::new();
    let mut callbacks = c.callbacks();
    callbacks.on_close = true;
    c.set_callbacks(callbacks).unwrap();
    c.open(b"http://localhost:4200".to_vec(), b"t").unwrap();
    c.handshake(handshake(&[]), 0).unwrap();
    let reactions = c.poll(b"2a\x1e1\x1e2b", 7).unwrap();
    assert_eq!(reactions.len(), 2);
    assert!(matches!(&reactions[0], Reaction::Send(_)));
    assert!(matches!(&reactions[1], Reaction::Close));
    assert_eq!(c.phase(), Phase::Closing);
    assert!(matches!(c.poll(b"2", 8), Err(Error::ActionBeforeOpen)));
    assert!(c.close(b"t").is_none());
    assert_eq!(c.phase(), Phase::Disconnected);
}

#[test]
fn close_from_the_server_without_a_callback() {
    let (mut c, _) = connected(TransportType::Polling, &[]);
    let reactions = c.poll(b"1\x1e4late", 7).unwrap();
    assert!(reactions.is_empty());
    assert_eq!(c.phase(), Phase::Closing);
    assert!(!c.is_connected());
}

#[test]
fn on_open_is_called_after_the_handshake() {
    let mut socket = EngineSocket::new();
    socket.on_open().unwrap();
    socket.bind(SERVER_URL.as_bytes().to_vec(), b"t").unwrap();
    let opened = socket.session().handshake(handshake(&["websocket"]), 5).unwrap();
    assert!(opened.call_on_open);
    assert_eq!(opened.selection, Selection::StayPolling);

    let mut quiet = EngineSocket::new();
    quiet.on_close().unwrap();
    quiet.on_error().unwrap();
    quiet.bind(SERVER_URL.as_bytes().to_vec(), b"t").unwrap();
    assert!(!quiet.session().handshake(handshake(&[]), 5).unwrap().call_on_open);
}

#[test]
fn errors_of_a_round_are_for_on_error() {
    let mut socket = EngineSocket::new();
    socket.on_error().unwrap();
    socket.bind(SERVER_URL.as_bytes().to_vec(), b"t").unwrap();
    socket.session().handshake(handshake(&[]), 0).unwrap();
    let verdict = socket.session().after_cycle(&Err(Error::InvalidPacket));
    assert!(verdict.call_on_error);
    assert_eq!(verdict.cycle, Cycle::Retry);
    let verdict = socket.session().after_cycle(&Ok(()));
    assert!(!verdict.call_on_error);
    assert_eq!(verdict.cycle, Cycle::Stop);
    let verdict = socket.session().after_cycle(&Err(Error::HttpError(500)));
    assert!(verdict.call_on_error);
    assert_eq!(verdict.cycle, Cycle::Fail);
    assert!(!socket.is_connected());

    let (mut deaf, _) = connected(TransportType::Polling, &[]);
    assert!(!deaf.after_cycle(&Err(Error::InvalidPacket)).call_on_error);
}

#[test]
fn messages_of_the_websocket_are_read_by_the_session() {
    let (mut c, _) = connected(TransportType::Websocket, &[]);
    assert!(matches!(
        c.read_message(Some(WsMessage { binary: false, data: b"4x".to_vec() })),
        Err(Error::ActionBeforeOpen)
    ));
    c.open_websocket(true, b"t").unwrap();
    match c.read_message(Some(WsMessage { binary: true, data: vec![7, 8] })).unwrap() {
        Frame::Binary(f) => assert_eq!(f, vec![4, 7, 8]),
        Frame::Text(_) => panic!("bytes came in as text"),
    }
    match c.read_message(Some(WsMessage { binary: false, data: b"2".to_vec() })).unwrap() {
        Frame::Text(f) => assert_eq!(f, b"2".to_vec()),
        Frame::Binary(_) => panic!("text came in as bytes"),
    }
    assert!(matches!(c.read_message(None), Err(Error::IncompletePacket)));
}

#[test]
fn frames_become_messages() {
    let text = to_message(Frame::Text(b"2probe".to_vec()));
    assert!(!text.binary);
    assert_eq!(text.data, b"2probe".to_vec());
    let bytes = to_message(Frame::Binary(vec![4, 1, 2]));
    assert!(bytes.binary);
    assert_eq!(bytes.data, vec![1, 2]);
    let empty = to_message(Frame::Binary(vec![]));
    assert!(empty.binary);
    assert!(empty.data.is_empty());
    let p = Packet::new_binary(vec![9, 9]);
    let w = AsyncWebsocketGeneralTransport::new(true);
    match w.poll(Some(to_message(p.encode_frame()))).unwrap() {
        Frame::Binary(f) => assert_eq!(f, vec![4, 9, 9]),
        Frame::Text(_) => panic!("bytes came in as text"),
    }
}

#[test]
fn an_idle_websocket_is_probed() {
    let (mut c, _) = connected(TransportType::Any, &["websocket"]);
    c.open_websocket(false, b"t").unwrap();
    match c.upgrade(&UpgradeEvent::Start) {
        Ok(Frame::Text(t)) => assert_eq!(t, b"2probe".to_vec()),
        _ => panic!("an idle WebSocket was not probed"),
    }
    assert_eq!(c.phase(), Phase::Upgrading);
    assert!(matches!(
        c.upgrade(&UpgradeEvent::Reply(None)),
        Err(Error::IllegalWebsocketUpgrade)
    ));
    assert_eq!(c.phase(), Phase::Polling);
    assert!(matches!(c.upgrade(&UpgradeEvent::Start), Err(Error::IllegalWebsocketUpgrade)));
    assert_eq!(c.phase(), Phase::Polling);
}

#[test]
fn poll_of_a_body_that_cannot_be_read() {
    let (mut c, _) = connected(TransportType::Polling, &[]);
    assert!(matches!(c.poll(b"4a\x1e9", 1), Err(Error::InvalidPacket)));
    assert!(matches!(c.poll(b"4a\x1e", 1), Err(Error::IncompletePacket)));
    assert_eq!(c.phase(), Phase::Polling);
    let mut fresh = TransportClient::new();
    assert!(matches!(fresh.poll(b"4a", 1), Err(Error::ActionBeforeOpen)));
}

#[test]
fn frames_of_the_websocket_are_taken() {
    let (mut c, _) = connected(TransportType::Websocket, &[]);
    c.open_websocket(true, b"t").unwrap();
    let reactions = c.on_frame(&Frame::Text(b"2".to_vec()), 100).unwrap();
    assert_eq!(reactions.len(), 1);
    assert!(matches!(&reactions[0], Reaction::Send(p) if p.packet_id == PacketId::Pong));
    assert!(matches!(c.on_frame(&Frame::Binary(vec![]), 100), Err(Error::IncompletePacket)));
    assert!(c.check_heartbeat(100 + 30000).is_ok());
    assert!(matches!(c.check_heartbeat(100 + 30001), Err(Error::Timeout)));
}

#[test]
fn heartbeat() {
    let (mut c, _) = connected(TransportType::Polling, &[]);
    assert!(c.check_heartbeat(0).is_ok());
    assert!(c.check_heartbeat(30000).is_ok());
    c.poll(b"2", 20000).unwrap();
    assert!(c.check_heartbeat(50000).is_ok());
    assert_eq!(c.phase(), Phase::Polling);
    assert!(matches!(c.check_heartbeat(50001), Err(Error::Timeout)));
    assert_eq!(c.phase(), Phase::Closing);
    assert!(c.check_heartbeat(u64::MAX).is_ok());
    let mut fresh = TransportClient::new();
    assert!(fresh.check_heartbeat(u64::MAX).is_ok());
}

#[test]
fn close_gives_the_close_packet() {
    let (mut c, _) = connected(TransportType::Polling, &[]);
    match c.close(b"123456").unwrap() {
        Outgoing::Post { url, body } => {
            assert_eq!(
                url,
                b"http://localhost:4200/engine.io/?EIO=4&transport=polling&sid=X&t=123456"
                    .to_vec()
            );
            assert_eq!(body, b"1".to_vec());
        }
        Outgoing::Message(_) => panic!("a polling session closed over a WebSocket"),
    }
    assert_eq!(c.phase(), Phase::Disconnected);
    assert!(c.set_transport_type(TransportType::Any).is_ok());
}

#[test]
fn settings_are_refused_once_opened() {
    let (mut c, _) = connected(TransportType::Polling, &[]);
    assert!(matches!(
        c.set_transport_type(TransportType::Any),
        Err(Error::IllegalActionAfterOpen)
    ));
    let cb = c.callbacks();
    assert!(matches!(c.set_callbacks(cb), Err(Error::IllegalActionAfterOpen)));
    assert_eq!(c.open(b"http://other".to_vec(), b"t").unwrap(), None);
    assert_eq!(c.connection_data().as_ref().unwrap().sid, b"X".to_vec());
}

#[test]
fn statuses() {
    assert!(check_status(200).is_ok());
    assert!(check_status(204).is_ok());
    assert!(check_status(299).is_ok());
    assert!(matches!(check_status(199), Err(Error::HttpError(199))));
    assert!(matches!(check_status(300), Err(Error::HttpError(300))));
    assert!(matches!(check_status(404), Err(Error::HttpError(404))));
    assert!(matches!(check_status(500), Err(Error::HttpError(500))));
}

#[test]
fn fatal_errors_close_the_session() {
    let (mut c, _) = connected(TransportType::Polling, &[]);
    assert_eq!(c.after_cycle(&Err(Error::InvalidPacket)).cycle, Cycle::Retry);
    assert_eq!(c.phase(), Phase::Polling);
    assert_eq!(c.after_cycle(&Ok(())).cycle, Cycle::Stop);
    assert_eq!(c.phase(), Phase::Polling);
    assert_eq!(c.after_cycle(&Err(Error::HttpError(502))).cycle, Cycle::Fail);
    assert_eq!(c.phase(), Phase::Closing);
    let mut fresh = TransportClient::new();
    assert_eq!(fresh.after_cycle(&Err(Error::TransportIoError)).cycle, Cycle::Fail);
    assert_eq!(fresh.phase(), Phase::Disconnected);
}

#[test]
fn what_the_polling_loop_does_next() {
    assert_eq!(after_poll_cycle(&Ok(())), Cycle::Stop);
    assert_eq!(after_poll_cycle(&Err(Error::HttpError(500))), Cycle::Fail);
    assert_eq!(after_poll_cycle(&Err(Error::TransportIoError)), Cycle::Fail);
    assert_eq!(after_poll_cycle(&Err(Error::InvalidPacket)), Cycle::Retry);
    assert_eq!(after_poll_cycle(&Err(Error::IncompletePacket)), Cycle::Retry);
    assert_eq!(after_poll_cycle(&Err(Error::Timeout)), Cycle::Retry);
}
