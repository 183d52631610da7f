use rust_socketio::engineio::packet::Packet as EnginePacket;
use rust_socketio::engineio::packet::PacketId as EnginePacketId;
use rust_socketio::error::Error;
use rust_socketio::socketio::packet::{decode_header, Decoder, Packet, PacketId};

fn header_of(p: &Packet) -> Vec<u8> {
    let ms = p.encode().unwrap();
    assert_eq!(ms[0].packet_id, EnginePacketId::Message);
    assert!(!ms[0].binary);
    ms[0].data.clone()
}

fn same(a: &Packet, b: &Packet) -> bool {
    a.packet_type == b.packet_type
        && a.nsp == b.nsp
        && a.data == b.data
        && a.id == b.id
        && a.attachment_count == b.attachment_count
        && a.attachments == b.attachments
}

#[test]
fn headers_of_plain_packets() {
    let connect = Packet::new(PacketId::Connect, b"/".to_vec(), None, None, 0, None);
    assert_eq!(header_of(&connect), b"0".to_vec());
    let admin = Packet::new(PacketId::Connect, b"/admin".to_vec(), None, None, 0, None);
    assert_eq!(header_of(&admin), b"0/admin,".to_vec());
    let bye = Packet::new(PacketId::Disconnect, b"/admin".to_vec(), None, None, 0, None);
    assert_eq!(header_of(&bye), b"1/admin,".to_vec());
}

#[test]
fn headers_of_events() {
    let event = Packet::new(
        PacketId::Event,
        b"/".to_vec(),
        Some(b"[\"test\",\"hello\"]".to_vec()),
        None,
        0,
        None,
    );
    assert_eq!(header_of(&event), b"2[\"test\",\"hello\"]".to_vec());
    let with_id = Packet::new(
        PacketId::Event,
        b"/admin".to_vec(),
        Some(b"[\"x\"]".to_vec()),
        Some(17),
        0,
        None,
    );
    assert_eq!(header_of(&with_id), b"2/admin,17[\"x\"]".to_vec());
    let ack = Packet::new(PacketId::Ack, b"/".to_vec(), Some(b"[]".to_vec()), Some(0), 0, None);
    assert_eq!(header_of(&ack), b"30[]".to_vec());
    let error = Packet::new(
        PacketId::ConnectError,
        b"/".to_vec(),
        Some(b"{\"message\":\"no\"}".to_vec()),
        None,
        0,
        None,
    );
    assert_eq!(header_of(&error), b"4{\"message\":\"no\"}".to_vec());
}

#[test]
fn binary_event_goes_as_header_and_attachments() {
    let p = Packet::new(
        PacketId::BinaryEvent,
        b"/admin".to_vec(),
        Some(b"[\"img\"]".to_vec()),
        Some(456),
        2,
        Some(vec![vec![1, 2, 3], vec![4, 5]]),
    );
    let ms = p.encode().unwrap();
    assert_eq!(ms.len(), 3);
    assert_eq!(ms[0].data, b"52-/admin,456[\"img\"]".to_vec());
    assert!(ms[1].binary && ms[2].binary);
    assert_eq!(ms[1].data, vec![1, 2, 3]);
    assert_eq!(ms[2].data, vec![4, 5]);
}

#[test]
fn packets_that_cannot_be_written() {
    let cases = vec![
        Packet::new(PacketId::Connect, b"admin".to_vec(), None, None, 0, None),
        Packet::new(PacketId::Connect, b"".to_vec(), None, None, 0, None),
        Packet::new(PacketId::Connect, b"/a,b".to_vec(), None, None, 0, None),
        Packet::new(PacketId::Event, b"/".to_vec(), Some(b"".to_vec()), None, 0, None),
        Packet::new(PacketId::Event, b"/".to_vec(), Some(b"1".to_vec()), None, 0, None),
        Packet::new(PacketId::Event, b"/".to_vec(), Some(b"/x".to_vec()), None, 0, None),
        Packet::new(PacketId::Event, b"/".to_vec(), Some(b"[]".to_vec()), Some(-1), 0, None),
        Packet::new(PacketId::Event, b"/".to_vec(), Some(b"[]".to_vec()), None, 1, None),
        Packet::new(PacketId::Event, b"/".to_vec(), Some(b"[]".to_vec()), None, 0, Some(vec![])),
        Packet::new(PacketId::BinaryEvent, b"/".to_vec(), None, None, 1, None),
        Packet::new(PacketId::BinaryEvent, b"/".to_vec(), None, None, 2, Some(vec![vec![1]])),
    ];
    for p in cases {
        assert!(!p.is_wf());
        assert!(matches!(p.encode(), Err(Error::InvalidPacket)));
    }
    let slash_after_id =
        Packet::new(PacketId::Event, b"/".to_vec(), Some(b"/x".to_vec()), Some(3), 0, None);
    assert!(slash_after_id.is_wf());
    assert_eq!(header_of(&slash_after_id), b"23/x".to_vec());
}

#[test]
fn headers_are_read() {
    let p = decode_header(b"2/admin,17[\"x\"]").unwrap();
    assert_eq!(p.packet_type, PacketId::Event);
    assert_eq!(p.nsp, b"/admin".to_vec());
    assert_eq!(p.id, Some(17));
    assert_eq!(p.data, Some(b"[\"x\"]".to_vec()));
    assert_eq!(p.attachment_count, 0);
    assert_eq!(p.attachments, None);

    let q = decode_header(b"0").unwrap();
    assert_eq!(q.packet_type, PacketId::Connect);
    assert_eq!(q.nsp, b"/".to_vec());
    assert_eq!(q.id, None);
    assert_eq!(q.data, None);

    let r = decode_header(b"61-/admin,5[\"a\"]").unwrap();
    assert_eq!(r.packet_type, PacketId::BinaryAck);
    assert_eq!(r.attachment_count, 1);
    assert_eq!(r.nsp, b"/admin".to_vec());
    assert_eq!(r.id, Some(5));
    assert_eq!(r.attachments, Some(vec![]));

    let s = decode_header(b"2123").unwrap();
    assert_eq!(s.id, Some(123));
    assert_eq!(s.data, None);

    let t = decode_header(b"32147483647[]").unwrap();
    assert_eq!(t.id, Some(2147483647));
}

#[test]
fn headers_that_cannot_be_read() {
    assert!(matches!(decode_header(b""), Err(Error::IncompletePacket)));
    assert!(matches!(decode_header(b"7"), Err(Error::InvalidPacket)));
    assert!(matches!(decode_header(b"x"), Err(Error::InvalidPacket)));
    assert!(matches!(decode_header(b"5"), Err(Error::InvalidPacket)));
    assert!(matches!(decode_header(b"5-"), Err(Error::InvalidPacket)));
    assert!(matches!(decode_header(b"51"), Err(Error::InvalidPacket)));
    assert!(matches!(decode_header(b"501-[]"), Err(Error::InvalidPacket)));
    assert!(matches!(decode_header(b"5256-[]"), Err(Error::InvalidPacket)));
    assert!(matches!(decode_header(b"0/admin"), Err(Error::IncompletePacket)));
    assert!(matches!(decode_header(b"0/,"), Err(Error::InvalidPacket)));
    assert!(matches!(decode_header(b"2007[1]"), Err(Error::InvalidPacket)));
    assert!(matches!(decode_header(b"22147483648[1]"), Err(Error::InvalidPacket)));
    assert!(matches!(decode_header(b"299999999999999999999[1]"), Err(Error::InvalidPacket)));
}

#[test]
fn reading_a_header_and_writing_it_again() {
    let texts: Vec<&[u8]> = vec![
        b"0",
        b"0/admin,",
        b"1",
        b"2[\"hello\"]",
        b"2/admin,[\"msg\",\"A\"]",
        b"212[\"x\"]",
        b"3/chat,0[]",
        b"4\"Not authorized\"",
        b"50-[\"e\"]",
        b"51-/admin,[\"img\"]",
        b"6255-/a,9[1]",
        b"20",
    ];
    for text in texts {
        let p = decode_header(text).unwrap();
        let mut complete = p.clone();
        if let Some(a) = complete.attachments.as_mut() {
            for _ in 0..complete.attachment_count {
                a.push(vec![7]);
            }
        }
        assert_eq!(header_of(&complete), text.to_vec());
    }
}

#[test]
fn binary_event_is_reassembled() {
    let mut d = Decoder::new();
    let header = EnginePacket::new(EnginePacketId::Message, b"51-/admin,[\"img\"]".to_vec());
    assert!(d.feed(&header).unwrap().is_none());
    assert!(d.is_waiting());
    let p = d.feed(&EnginePacket::new_binary(vec![4, 5, 6])).unwrap().unwrap();
    assert!(!d.is_waiting());
    assert_eq!(p.packet_type, PacketId::BinaryEvent);
    assert_eq!(p.nsp, b"/admin".to_vec());
    assert_eq!(p.data, Some(b"[\"img\"]".to_vec()));
    assert_eq!(p.attachment_count, 1);
    assert_eq!(p.attachments, Some(vec![vec![4, 5, 6]]));
    assert!(d.finish().is_ok());
}

#[test]
fn attachments_keep_their_order() {
    let p = Packet::new(
        PacketId::BinaryAck,
        b"/".to_vec(),
        Some(b"[\"a\"]".to_vec()),
        Some(3),
        3,
        Some(vec![vec![1], vec![], vec![2, 2]]),
    );
    let mut d = Decoder::new();
    let ms = p.encode().unwrap();
    let n = ms.len();
    for (i, m) in ms.iter().enumerate() {
        let out = d.feed(m).unwrap();
        if i + 1 < n {
            assert!(out.is_none());
        } else {
            assert!(same(&out.unwrap(), &p));
        }
    }
}

#[test]
fn event_round_trips_through_the_decoder() {
    let p = Packet::new(
        PacketId::Event,
        b"/admin".to_vec(),
        Some(b"[\"test\",{\"a\":1}]".to_vec()),
        Some(9),
        0,
        None,
    );
    let mut d = Decoder::new();
    let ms = p.encode().unwrap();
    assert_eq!(ms.len(), 1);
    let q = d.feed(&ms[0]).unwrap().unwrap();
    assert!(same(&p, &q));
}

#[test]
fn binary_kind_without_attachments_comes_out_at_once() {
    let mut d = Decoder::new();
    let header = EnginePacket::new(EnginePacketId::Message, b"50-[\"e\"]".to_vec());
    let p = d.feed(&header).unwrap().unwrap();
    assert_eq!(p.attachments, Some(vec![]));
    assert!(!d.is_waiting());
}

#[test]
fn text_during_reassembly_is_invalid() {
    let mut d = Decoder::new();
    let header = EnginePacket::new(EnginePacketId::Message, b"52-[\"img\"]".to_vec());
    assert!(d.feed(&header).unwrap().is_none());
    assert!(d.feed(&EnginePacket::new_binary(vec![1])).unwrap().is_none());
    let text = EnginePacket::new(EnginePacketId::Message, b"2[\"x\"]".to_vec());
    assert!(matches!(d.feed(&text), Err(Error::InvalidPacket)));
    assert!(!d.is_waiting());
    assert!(d.feed(&text).unwrap().is_some());
}

#[test]
fn attachment_without_header_is_invalid() {
    let mut d = Decoder::new();
    assert!(matches!(
        d.feed(&EnginePacket::new_binary(vec![1])),
        Err(Error::InvalidPacket)
    ));
    assert!(!d.is_waiting());
}

#[test]
fn stream_that_ends_among_attachments_is_incomplete() {
    let mut d = Decoder::new();
    let header = EnginePacket::new(EnginePacketId::Message, b"52-[\"img\"]".to_vec());
    assert!(d.feed(&header).unwrap().is_none());
    assert!(d.feed(&EnginePacket::new_binary(vec![1])).unwrap().is_none());
    assert!(matches!(d.finish(), Err(Error::IncompletePacket)));
}

#[test]
fn other_kinds_leave_the_reassembly_alone() {
    let mut d = Decoder::new();
    let header = EnginePacket::new(EnginePacketId::Message, b"51-[\"img\"]".to_vec());
    assert!(d.feed(&header).unwrap().is_none());
    let ping = EnginePacket::new(EnginePacketId::Ping, Vec::new());
    assert!(matches!(d.feed(&ping), Err(Error::InvalidPacket)));
    assert!(d.is_waiting());
    let p = d.feed(&EnginePacket::new_binary(vec![9])).unwrap().unwrap();
    assert_eq!(p.attachments, Some(vec![vec![9]]));
}

#[test]
fn bad_header_is_reported_by_the_decoder() {
    let mut d = Decoder::new();
    let bad = EnginePacket::new(EnginePacketId::Message, b"0/admin".to_vec());
    assert!(matches!(d.feed(&bad), Err(Error::IncompletePacket)));
    let worse = EnginePacket::new(EnginePacketId::Message, b"9".to_vec());
    assert!(matches!(d.feed(&worse), Err(Error::InvalidPacket)));
}
