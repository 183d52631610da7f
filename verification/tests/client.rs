use rust_socketio::engineio::packet::Packet as EnginePacket;
use rust_socketio::engineio::packet::PacketId as EnginePacketId;
use rust_socketio::error::Error;
use rust_socketio::outside::JsonItem;
use rust_socketio::socketio::client::{
    build_packet_for_payload, choose_ack_id, contains_id, reap, strip_brackets, strip_quotes,
    Ack, Client, Invocation, State, Target,
};
use rust_socketio::socketio::event::Event;
use rust_socketio::socketio::packet::{decode_header, Packet, PacketId};
use rust_socketio::socketio::payload::Payload;

fn custom(name: &str) -> Event {
    Event::Custom(name.as_bytes().to_vec())
}

fn client(nsp: &str, events: Vec<Event>) -> Client {
    let mut c = Client::new(nsp.as_bytes().to_vec(), events).unwrap();
    c.connect().unwrap();
    c.take_outbound();
    c
}

fn text(p: &Payload) -> String {
    match p {
        Payload::String(s) => String::from_utf8(s.clone()).unwrap(),
        Payload::Binary(_) => panic!("bytes where text was expected"),
    }
}

fn to_event(i: &Invocation) -> &Event {
    match &i.target {
        Target::Event(e) => e,
        Target::Ack(_) => panic!("an ack where an event was expected"),
    }
}

#[test]
fn namespace_must_begin_with_a_slash() {
    assert!(Client::new(b"/admin".to_vec(), vec![]).is_ok());
    match Client::new(b"admin".to_vec(), vec![]) {
        Err(Error::IllegalNamespace(n)) => assert_eq!(n, b"admin".to_vec()),
        _ => panic!("a namespace without a slash was taken"),
    }
    assert!(matches!(Client::new(vec![], vec![]), Err(Error::IllegalNamespace(_))));
}

#[test]
fn registering_after_connect_is_refused() {
    let mut c = Client::new(b"/".to_vec(), vec![]).unwrap();
    assert!(c.on(custom("test")).is_ok());
    assert!(c.is_registered(&custom("test")));
    assert!(!c.is_registered(&Event::Message));
    c.connect().unwrap();
    assert!(matches!(c.on(custom("late")), Err(Error::IllegalActionAfterOpen)));
    assert!(!c.is_registered(&custom("late")));
    assert!(matches!(c.set_namespace(b"/x".to_vec()), Err(Error::IllegalActionAfterOpen)));
}

#[test]
fn connect_sends_the_connect_packet() {
    let mut c = Client::new(b"/".to_vec(), vec![]).unwrap();
    assert_eq!(c.state(), State::Closed);
    c.connect().unwrap();
    assert_eq!(c.state(), State::Connecting);
    let out = c.take_outbound();
    assert_eq!(out.len(), 1);
    assert_eq!(out[0].encode(), b"40".to_vec());

    let mut admin = Client::new(b"/admin".to_vec(), vec![]).unwrap();
    admin.connect().unwrap();
    assert_eq!(admin.take_outbound()[0].encode(), b"40/admin,".to_vec());
}

#[test]
fn emit_before_connect_is_refused() {
    let mut c = Client::new(b"/".to_vec(), vec![]).unwrap();
    assert!(matches!(
        c.emit(custom("test"), Payload::String(b"1".to_vec())),
        Err(Error::ActionBeforeOpen)
    ));
    assert!(matches!(
        c.emit_with_ack(custom("test"), Payload::String(b"1".to_vec()), 10, 0),
        Err(Error::ActionBeforeOpen)
    ));
    assert!(c.take_outbound().is_empty());
}

#[test]
fn text_event_on_the_wire() {
    let mut c = client("/", vec![]);
    c.emit(custom("test"), Payload::String(b"\"hello\"".to_vec())).unwrap();
    let out = c.take_outbound();
    assert_eq!(out.len(), 1);
    assert_eq!(out[0].encode(), b"42[\"test\",\"hello\"]".to_vec());
}

#[test]
fn binary_event_on_the_wire() {
    let mut c = client("/admin", vec![]);
    c.emit(custom("binary"), Payload::Binary(vec![46, 88])).unwrap();
    let out = c.take_outbound();
    assert_eq!(out.len(), 2);
    assert_eq!(out[0].encode(), b"451-/admin,\"binary\"".to_vec());
    assert!(out[1].binary);
    assert_eq!(out[1].data, vec![46, 88]);
}

#[test]
fn emits_leave_in_the_order_of_the_calls() {
    let mut c = client("/", vec![]);
    c.emit(custom("a"), Payload::String(b"1".to_vec())).unwrap();
    c.emit(custom("b"), Payload::Binary(vec![7])).unwrap();
    c.emit(Event::Message, Payload::String(b"3".to_vec())).unwrap();
    let wire: Vec<Vec<u8>> = c.take_outbound().iter().map(|p| p.encode()).collect();
    assert_eq!(
        wire,
        vec![
            b"42[\"a\",1]".to_vec(),
            b"451-\"b\"".to_vec(),
            b"bBw==".to_vec(),
            b"42[\"message\",3]".to_vec(),
        ]
    );
    assert!(c.take_outbound().is_empty());
}

#[test]
fn emit_of_text_that_is_not_utf8_is_refused() {
    let mut c = client("/", vec![]);
    assert!(matches!(
        c.emit(custom("a"), Payload::String(vec![0xff])),
        Err(Error::InvalidPacket)
    ));
    assert!(c.take_outbound().is_empty());
}

#[test]
fn emit_in_a_namespace_with_a_comma_is_refused() {
    let mut c = Client::new(b"/a,b".to_vec(), vec![]).unwrap();
    assert!(matches!(c.connect(), Err(Error::InvalidPacket)));
    assert_eq!(c.state(), State::Closed);
}

#[test]
fn packet_for_a_payload() {
    let p = build_packet_for_payload(
        Payload::String(b"{\"a\":1}".to_vec()),
        &custom("foo"),
        b"/admin",
        Some(5),
    );
    assert_eq!(p.packet_type, PacketId::Event);
    assert_eq!(p.data, Some(b"[\"foo\",{\"a\":1}]".to_vec()));
    assert_eq!(p.id, Some(5));
    assert_eq!(p.attachment_count, 0);
    assert_eq!(p.attachments, None);
    let q = build_packet_for_payload(Payload::Binary(vec![1, 2]), &Event::Message, b"/", None);
    assert_eq!(q.packet_type, PacketId::BinaryEvent);
    assert_eq!(q.data, Some(b"\"message\"".to_vec()));
    assert_eq!(q.attachment_count, 1);
    assert_eq!(q.attachments, Some(vec![vec![1, 2]]));
}

#[test]
fn namespace_isolation() {
    let mut c = client("/admin", vec![custom("msg")]);
    let a = decode_header(b"2/admin,[\"msg\",\"A\"]").unwrap();
    let polled = c.poll_next(Ok(a), 0);
    assert_eq!(polled.calls.len(), 1);
    assert!(to_event(&polled.calls[0]).same_as(&custom("msg")));
    assert_eq!(text(&polled.calls[0].payload), "\"A\"");
    assert!(matches!(polled.item, Some(Ok(_))));

    let b = decode_header(b"2[\"msg\",\"B\"]").unwrap();
    let polled = c.poll_next(Ok(b), 0);
    assert!(polled.calls.is_empty());
    assert!(polled.item.is_none());
}

#[test]
fn connect_for_admin_does_not_route_the_root() {
    let mut c = client("/admin", vec![Event::Connect, Event::Message, Event::Close]);
    for wire in [&b"0"[..], b"2[\"hello\"]", b"1", b"4\"no\"", b"30[]"] {
        let p = decode_header(wire).unwrap();
        assert!(c.handle_socketio_packet(&p, 0).is_empty());
        let polled = c.poll_next(Ok(decode_header(wire).unwrap()), 0);
        assert!(polled.calls.is_empty());
        assert!(polled.item.is_none());
    }
    assert_eq!(c.state(), State::Connecting);
    let p = decode_header(b"0/admin,").unwrap();
    let calls = c.handle_socketio_packet(&p, 0);
    assert_eq!(calls.len(), 1);
    assert!(to_event(&calls[0]).same_as(&Event::Connect));
    assert_eq!(text(&calls[0].payload), "");
    assert_eq!(c.state(), State::Open);
}

#[test]
fn binary_event_reaches_its_handler() {
    let mut c = client("/admin", vec![custom("img")]);
    let mut p = decode_header(b"51-/admin,[\"img\"]").unwrap();
    p.attachments = Some(vec![vec![4, 5, 6]]);
    let calls = c.handle_socketio_packet(&p, 0);
    assert_eq!(calls.len(), 1);
    assert!(to_event(&calls[0]).same_as(&custom("img")));
    match &calls[0].payload {
        Payload::Binary(b) => assert_eq!(b, &vec![4, 5, 6]),
        Payload::String(_) => panic!("text where bytes were expected"),
    }
}

#[test]
fn binary_event_names() {
    let c = client("/", vec![custom("test"), Event::Message]);
    let quoted = Packet::new(
        PacketId::BinaryEvent,
        b"/".to_vec(),
        Some(b"\"test\"".to_vec()),
        None,
        1,
        Some(vec![vec![1, 2, 3]]),
    );
    let calls = c.handle_binary_event(&quoted);
    assert_eq!(calls.len(), 1);
    assert!(to_event(&calls[0]).same_as(&custom("test")));

    let nameless =
        Packet::new(PacketId::BinaryEvent, b"/".to_vec(), None, None, 1, Some(vec![vec![4, 5, 6]]));
    let calls = c.handle_binary_event(&nameless);
    assert_eq!(calls.len(), 1);
    assert!(to_event(&calls[0]).same_as(&Event::Message));

    let unknown = Packet::new(
        PacketId::BinaryEvent,
        b"/".to_vec(),
        Some(b"\"other\"".to_vec()),
        None,
        1,
        Some(vec![vec![1]]),
    );
    assert!(c.handle_binary_event(&unknown).is_empty());

    let bare = Packet::new(
        PacketId::BinaryEvent,
        b"/".to_vec(),
        Some(b"\"test\"".to_vec()),
        None,
        0,
        Some(vec![]),
    );
    assert!(c.handle_binary_event(&bare).is_empty());
}

#[test]
fn brackets_and_quotes_are_stripped() {
    assert_eq!(strip_brackets(b"[\"img\"]"), b"\"img\"".to_vec());
    assert_eq!(strip_brackets(b"\"img\""), b"\"img\"".to_vec());
    assert_eq!(strip_brackets(b"[]"), b"".to_vec());
    assert_eq!(strip_brackets(b"["), b"[".to_vec());
    assert_eq!(strip_brackets(b"[x"), b"[x".to_vec());
    assert_eq!(strip_brackets(b""), b"".to_vec());
    assert_eq!(strip_quotes(b"\"a\"b\"\""), b"ab".to_vec());
    assert_eq!(strip_quotes(b""), b"".to_vec());
}

#[test]
fn event_with_one_element_goes_to_message() {
    let c = client("/", vec![Event::Message]);
    let p = decode_header(b"2[\"Hello from the message event!\"]").unwrap();
    let calls = c.handle_event(&p);
    assert_eq!(calls.len(), 1);
    assert!(to_event(&calls[0]).same_as(&Event::Message));
    assert_eq!(text(&calls[0].payload), "\"Hello from the message event!\"");
}

#[test]
fn event_with_a_name_goes_to_its_handler() {
    let c = client("/", vec![custom("test"), Event::Message]);
    let p = decode_header(b"2[\"test\", {\"b\": [1, 2],  \"a\":true}, 5]").unwrap();
    let calls = c.handle_event(&p);
    assert_eq!(calls.len(), 1);
    assert!(to_event(&calls[0]).same_as(&custom("test")));
    assert_eq!(text(&calls[0].payload), "{\"a\":true,\"b\":[1,2]}");
}

#[test]
fn event_without_handler_goes_to_message() {
    let c = client("/", vec![Event::Message]);
    let p = decode_header(b"2[\"unknown\",1]").unwrap();
    let calls = c.handle_event(&p);
    assert_eq!(calls.len(), 1);
    assert!(to_event(&calls[0]).same_as(&Event::Message));
    assert_eq!(text(&calls[0].payload), "1");

    let nobody = client("/", vec![custom("other")]);
    assert!(nobody.handle_event(&p).is_empty());
}

#[test]
fn event_whose_name_is_no_string_goes_to_message() {
    let c = client("/", vec![Event::Message, custom("5")]);
    let p = decode_header(b"2[5,\"x\"]").unwrap();
    let calls = c.handle_event(&p);
    assert_eq!(calls.len(), 1);
    assert!(to_event(&calls[0]).same_as(&Event::Message));
    assert_eq!(text(&calls[0].payload), "\"x\"");
}

#[test]
fn event_named_message_is_the_message_event() {
    let c = client("/", vec![Event::Message]);
    let p = decode_header(b"2[\"message\",\"x\"]").unwrap();
    let calls = c.handle_event(&p);
    assert_eq!(calls.len(), 1);
    assert!(to_event(&calls[0]).same_as(&Event::Message));
}

#[test]
fn event_whose_body_is_no_array_calls_nobody() {
    let c = client("/", vec![Event::Message]);
    for wire in [&b"2{\"a\":1}"[..], b"2[\"a\"", b"2\"a\"", b"2[]", b"2"] {
        let p = decode_header(wire).unwrap();
        assert!(c.handle_event(&p).is_empty());
    }
}

#[test]
fn event_invocations_for_given_items() {
    let c = client("/", vec![custom("a"), Event::Message]);
    let items = Some(vec![
        JsonItem { text: Some(b"a".to_vec()), json: b"\"a\"".to_vec() },
        JsonItem { text: None, json: b"17".to_vec() },
    ]);
    let calls = c.event_invocations(&items);
    assert_eq!(calls.len(), 1);
    assert!(to_event(&calls[0]).same_as(&custom("a")));
    assert_eq!(text(&calls[0].payload), "17");
    assert!(c.event_invocations(&None).is_empty());
    assert!(c.event_invocations(&Some(vec![])).is_empty());
}

#[test]
fn connect_error_goes_to_the_error_handler() {
    let mut c = client("/", vec![Event::Error]);
    let p = decode_header(b"4{\"message\":\"Not authorized\"}").unwrap();
    let calls = c.handle_socketio_packet(&p, 0);
    assert_eq!(calls.len(), 1);
    assert!(to_event(&calls[0]).same_as(&Event::Error));
    assert_eq!(
        text(&calls[0].payload),
        "Received a ConnectError frame: {\"message\":\"Not authorized\"}"
    );
    let q = decode_header(b"4").unwrap();
    let calls = c.handle_socketio_packet(&q, 0);
    assert_eq!(
        text(&calls[0].payload),
        "Received a ConnectError frame: No error message provided"
    );
}

#[test]
fn disconnect_closes_the_namespace() {
    let mut c = client("/", vec![Event::Close]);
    let p = decode_header(b"1").unwrap();
    let calls = c.handle_socketio_packet(&p, 0);
    assert_eq!(calls.len(), 1);
    assert!(to_event(&calls[0]).same_as(&Event::Close));
    assert_eq!(c.state(), State::Closed);
}

#[test]
fn disconnect_sends_the_disconnect_packet() {
    let mut c = client("/admin", vec![]);
    c.disconnect().unwrap();
    assert_eq!(c.state(), State::Closed);
    assert_eq!(c.take_outbound()[0].encode(), b"41/admin,".to_vec());
}

#[test]
fn errors_of_the_stream_go_to_the_error_handler() {
    let mut c = client("/", vec![Event::Error]);
    let polled = c.poll_next(Err(Error::InvalidPacket), 0);
    assert_eq!(polled.calls.len(), 1);
    assert!(to_event(&polled.calls[0]).same_as(&Event::Error));
    assert_eq!(text(&polled.calls[0].payload), "Got an invalid packet");
    assert!(matches!(polled.item, Some(Err(Error::InvalidPacket))));

    let mut deaf = client("/", vec![]);
    let polled = deaf.poll_next(Err(Error::HttpError(500)), 0);
    assert!(polled.calls.is_empty());
    assert!(matches!(polled.item, Some(Err(Error::HttpError(500)))));
}

#[test]
fn ack_happy_path() {
    let mut c = client("/", vec![]);
    let id = c
        .emit_with_ack_drawn(custom("ping"), Payload::String(b"\"x\"".to_vec()), 2000, 0, 17)
        .unwrap();
    assert_eq!(id, 17);
    assert_eq!(c.take_outbound()[0].encode(), b"4217[\"ping\",\"x\"]".to_vec());
    assert_eq!(c.outstanding_acks().len(), 1);
    assert_eq!(c.outstanding_acks()[0], Ack { id: 17, timeout: 2000, time_started: 0 });

    let answer = decode_header(b"317[\"pong\"]").unwrap();
    let calls = c.handle_socketio_packet(&answer, 1999);
    assert_eq!(calls.len(), 1);
    assert!(matches!(calls[0].target, Target::Ack(17)));
    assert_eq!(text(&calls[0].payload), "\"pong\"");
    assert!(c.outstanding_acks().is_empty());

    let again = decode_header(b"317[\"pong\"]").unwrap();
    assert!(c.handle_socketio_packet(&again, 1999).is_empty());
}

#[test]
fn ack_timeout() {
    let mut c = client("/", vec![]);
    let id = c
        .emit_with_ack_drawn(custom("ping"), Payload::String(b"\"x\"".to_vec()), 2000, 0, 17)
        .unwrap();
    assert_eq!(id, 17);
    let answer = decode_header(b"317[\"pong\"]").unwrap();
    let calls = c.handle_socketio_packet(&answer, 3000);
    assert!(calls.is_empty());
    assert!(c.outstanding_acks().is_empty());
}

#[test]
fn ack_at_the_deadline_is_late() {
    let mut c = client("/", vec![]);
    c.emit_with_ack_drawn(custom("p"), Payload::String(b"1".to_vec()), 2000, 500, 3).unwrap();
    let answer = decode_header(b"33[1]").unwrap();
    assert!(c.handle_socketio_packet(&answer, 2500).is_empty());
    assert!(c.outstanding_acks().is_empty());
    assert!(Ack { id: 1, timeout: 2000, time_started: 500 }.is_live(2499));
    assert!(!Ack { id: 1, timeout: 2000, time_started: 500 }.is_live(2500));
    assert!(!Ack { id: 1, timeout: 0, time_started: 500 }.is_live(500));
    assert!(Ack { id: 1, timeout: u64::MAX, time_started: u64::MAX }.is_live(u64::MAX));
}

#[test]
fn ack_with_only_bytes_is_called_once() {
    let mut c = client("/", vec![]);
    c.emit_with_ack_drawn(custom("p"), Payload::String(b"1".to_vec()), 100, 0, 5).unwrap();
    let answer =
        Packet::new(PacketId::BinaryAck, b"/".to_vec(), None, Some(5), 1, Some(vec![vec![9, 9]]));
    let calls = c.handle_socketio_packet(&answer, 1);
    assert_eq!(calls.len(), 1);
    assert!(matches!(calls[0].target, Target::Ack(5)));
    match &calls[0].payload {
        Payload::Binary(b) => assert_eq!(b, &vec![9, 9]),
        Payload::String(_) => panic!("text where bytes were expected"),
    }
}

#[test]
fn ack_with_text_and_bytes_is_called_twice() {
    let mut c = client("/", vec![]);
    c.emit_with_ack_drawn(custom("p"), Payload::String(b"1".to_vec()), 100, 0, 5).unwrap();
    let answer = Packet::new(
        PacketId::BinaryAck,
        b"/".to_vec(),
        Some(b"[\"t\"]".to_vec()),
        Some(5),
        1,
        Some(vec![vec![9, 9]]),
    );
    let calls = c.handle_socketio_packet(&answer, 1);
    assert_eq!(calls.len(), 2);
    assert_eq!(text(&calls[0].payload), "\"t\"");
    match &calls[1].payload {
        Payload::Binary(b) => assert_eq!(b, &vec![9, 9]),
        Payload::String(_) => panic!("text where bytes were expected"),
    }
    assert!(matches!(calls[1].target, Target::Ack(5)));
}

#[test]
fn ack_without_id_or_for_an_unknown_id_calls_nobody() {
    let mut c = client("/", vec![]);
    c.emit_with_ack_drawn(custom("p"), Payload::String(b"1".to_vec()), 100, 0, 5).unwrap();
    let no_id = decode_header(b"3[1]").unwrap();
    assert!(c.handle_ack(&no_id, 1).is_empty());
    let unknown = decode_header(b"36[1]").unwrap();
    assert!(c.handle_ack(&unknown, 1).is_empty());
    assert_eq!(c.outstanding_acks().len(), 1);
}

#[test]
fn walking_the_list_reaps_what_is_late() {
    let mut c = client("/", vec![]);
    c.emit_with_ack_drawn(custom("a"), Payload::String(b"1".to_vec()), 10, 0, 1).unwrap();
    c.emit_with_ack_drawn(custom("b"), Payload::String(b"1".to_vec()), 100, 0, 2).unwrap();
    c.emit_with_ack_drawn(custom("c"), Payload::String(b"1".to_vec()), 10, 5, 3).unwrap();
    assert_eq!(c.outstanding_acks().len(), 3);
    let unknown = decode_header(b"39[1]").unwrap();
    assert!(c.handle_ack(&unknown, 12).is_empty());
    let ids: Vec<i32> = c.outstanding_acks().iter().map(|a| a.id).collect();
    assert_eq!(ids, vec![2, 3]);
    c.emit_with_ack_drawn(custom("d"), Payload::String(b"1".to_vec()), 10, 50, 3).unwrap();
    let ids: Vec<i32> = c.outstanding_acks().iter().map(|a| a.id).collect();
    assert_eq!(ids, vec![2, 3]);
    assert_eq!(c.outstanding_acks()[1].time_started, 50);
}

#[test]
fn colliding_draw_gets_another_id() {
    let mut c = client("/", vec![]);
    let mut ids = Vec::new();
    for _ in 0..5 {
        ids.push(
            c.emit_with_ack_drawn(custom("a"), Payload::String(b"1".to_vec()), 1000, 0, 1).unwrap(),
        );
    }
    assert_eq!(ids, vec![1, 0, 2, 3, 4]);
    let out_of_range =
        c.emit_with_ack_drawn(custom("a"), Payload::String(b"1".to_vec()), 1000, 0, 1000).unwrap();
    assert_eq!(out_of_range, 5);
    let negative =
        c.emit_with_ack_drawn(custom("a"), Payload::String(b"1".to_vec()), 1000, 0, -4).unwrap();
    assert_eq!(negative, 6);
}

#[test]
fn ids_run_out_when_all_are_outstanding() {
    let mut c = client("/", vec![]);
    for _ in 0..1000 {
        c.emit_with_ack(custom("a"), Payload::String(b"1".to_vec()), 1000, 0).unwrap();
    }
    let mut ids: Vec<i32> = c.outstanding_acks().iter().map(|a| a.id).collect();
    ids.sort();
    ids.dedup();
    assert_eq!(ids.len(), 1000);
    assert_eq!(ids[0], 0);
    assert_eq!(ids[999], 999);
    c.take_outbound();
    assert!(matches!(
        c.emit_with_ack(custom("a"), Payload::String(b"1".to_vec()), 1000, 0),
        Err(Error::AcksExhausted)
    ));
    assert!(c.take_outbound().is_empty());
    assert!(c.emit_with_ack(custom("a"), Payload::String(b"1".to_vec()), 1000, 1000).is_ok());
    assert_eq!(c.outstanding_acks().len(), 1);
}

#[test]
fn drawn_ids_lie_in_the_range() {
    for _ in 0..50 {
        let mut c = client("/", vec![]);
        let id = c.emit_with_ack(custom("a"), Payload::String(b"1".to_vec()), 10, 0).unwrap();
        assert!((0..1000).contains(&id));
        assert_eq!(c.outstanding_acks()[0].id, id);
    }
}

#[test]
fn draws_differ() {
    let mut seen = Vec::new();
    for _ in 0..60 {
        let mut c = client("/", vec![]);
        let id = c.emit_with_ack(custom("a"), Payload::String(b"1".to_vec()), 10, 0).unwrap();
        if !seen.contains(&id) {
            seen.push(id);
        }
    }
    assert!(seen.len() > 1);
}

#[test]
fn ack_bookkeeping() {
    let acks = vec![
        Ack { id: 0, timeout: 10, time_started: 0 },
        Ack { id: 2, timeout: 10, time_started: 5 },
        Ack { id: 1, timeout: 100, time_started: 0 },
    ];
    assert!(contains_id(&acks, 2));
    assert!(!contains_id(&acks, 3));
    assert_eq!(choose_ack_id(&acks, 2), Some(3));
    assert_eq!(choose_ack_id(&acks, 7), Some(7));
    assert_eq!(choose_ack_id(&acks, 999), Some(999));
    assert_eq!(choose_ack_id(&acks, 1000), Some(3));
    let (kept, found) = reap(&acks, Some(2), 12);
    assert_eq!(kept, vec![Ack { id: 1, timeout: 100, time_started: 0 }]);
    assert_eq!(found, Some(Ack { id: 2, timeout: 10, time_started: 5 }));
    let (kept, found) = reap(&acks, Some(0), 12);
    assert_eq!(kept.len(), 2);
    assert_eq!(found, None);
    let (kept, found) = reap(&acks, None, 0);
    assert_eq!(kept, acks);
    assert_eq!(found, None);
}

#[test]
fn events_and_their_names() {
    assert!(Event::from_name(b"message").same_as(&Event::Message));
    assert!(Event::from_name(b"error").same_as(&Event::Error));
    assert!(Event::from_name(b"connect").same_as(&Event::Connect));
    assert!(Event::from_name(b"close").same_as(&Event::Close));
    assert!(Event::from_name(b"foo").same_as(&custom("foo")));
    assert!(!Event::from_name(b"Message").same_as(&Event::Message));
    assert!(!custom("foo").same_as(&custom("bar")));
    assert_eq!(Event::Message.name(), b"message".to_vec());
    assert_eq!(Event::Error.name(), b"error".to_vec());
    assert_eq!(Event::Connect.name(), b"connect".to_vec());
    assert_eq!(Event::Close.name(), b"close".to_vec());
    assert_eq!(custom("foo").name(), b"foo".to_vec());
}

#[test]
fn what_the_errors_say() {
    let said = |e: Error| String::from_utf8(e.message()).unwrap();
    assert_eq!(said(Error::InvalidUrl(b"x".to_vec())), "Invalid Url: x");
    assert_eq!(
        said(Error::IllegalNamespace(b"admin".to_vec())),
        "Specified namespace is not valid: admin"
    );
    assert_eq!(said(Error::HttpError(404)), "Error with http status code: 404");
    assert_eq!(said(Error::HttpError(0)), "Error with http status code: 0");
    assert_eq!(said(Error::TransportIoError), "The underlying transport failed");
    assert_eq!(
        said(Error::HandshakeError(b"oops".to_vec())),
        "Error during connection handshake: oops"
    );
    assert_eq!(said(Error::IllegalWebsocketUpgrade), "Did not receive an ack for the probe");
    assert_eq!(said(Error::InvalidPacket), "Got an invalid packet");
    assert_eq!(said(Error::IncompletePacket), "Got an incomplete packet");
    assert_eq!(said(Error::ActionBeforeOpen), "Called an action before the connection was open");
    assert_eq!(
        said(Error::IllegalActionAfterOpen),
        "Called an action after the connection was open"
    );
    assert_eq!(said(Error::Timeout), "The server did not send a ping in time");
    assert_eq!(said(Error::AcksExhausted), "Every ack id is in use");
}

#[test]
fn callback_is_asked_for_only_where_one_is_registered() {
    let c = client("/", vec![custom("a")]);
    let calls = c.callback(custom("a"), Payload::Binary(vec![1]));
    assert_eq!(calls.len(), 1);
    assert!(to_event(&calls[0]).same_as(&custom("a")));
    assert!(matches!(&calls[0].payload, Payload::Binary(b) if b == &vec![1]));
    assert!(c.callback(custom("b"), Payload::Binary(vec![1])).is_empty());
    assert!(c.callback(Event::Message, Payload::String(vec![])).is_empty());
}

#[test]
fn dispatch_with_given_items() {
    let mut c = client("/chat", vec![custom("say")]);
    let p = decode_header(b"2/chat,[\"say\",\"hi\"]").unwrap();
    let items = Some(vec![
        JsonItem { text: Some(b"say".to_vec()), json: b"\"say\"".to_vec() },
        JsonItem { text: Some(b"hi".to_vec()), json: b"\"hi\"".to_vec() },
    ]);
    let calls = c.dispatch_packet(&p, &items, 0);
    assert_eq!(calls.len(), 1);
    assert_eq!(text(&calls[0].payload), "\"hi\"");
    let foreign = decode_header(b"2/other,[\"say\",\"hi\"]").unwrap();
    assert!(c.dispatch_packet(&foreign, &items, 0).is_empty());
    assert!(c.dispatch_packet(&p, &None, 0).is_empty());
}

#[test]
fn engine_messages_of_a_client_are_well_formed() {
    let mut c = client("/", vec![]);
    c.emit(custom("a"), Payload::String("\"\u{fc}\"".as_bytes().to_vec())).unwrap();
    c.emit(custom("b"), Payload::Binary(vec![0xff])).unwrap();
    for m in c.take_outbound() {
        assert_eq!(m.packet_id, EnginePacketId::Message);
        assert!(m.is_wf());
        let again = EnginePacket::decode(&m.encode()).unwrap();
        assert_eq!(again.data, m.data);
        assert_eq!(again.binary, m.binary);
    }
}
