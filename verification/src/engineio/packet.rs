//! Engine.IO packets and their wire forms (protocol version 4).

use crate::base64;
use crate::error::Error;
use crate::outside::is_utf8;
use crate::text::{append, copy_range, find, first_index, occurs};
use vstd::prelude::*;
use vstd::slice::slice_subrange;
use vstd::utf8::valid_utf8;

verus! {

/// The record separator between the packets of one polling payload.
pub const SEPARATOR: u8 = 0x1e;

/// The marker `b` in front of a base64 body.
pub const BASE64_MARK: u8 = 98;

/// The leading byte of a binary frame.
pub const MESSAGE_TAG: u8 = 4;

/// The kind of an Engine.IO packet.
#[derive(Debug, Clone, Copy, PartialEq, Eq, Structural)]
pub enum PacketId {
    Open,
    Close,
    Ping,
    Pong,
    Message,
    Upgrade,
    Noop,
}

impl PacketId {
    /// The ASCII digit that stands for this kind on the wire.
    pub open spec fn digit(self) -> u8 {
        match self {
            PacketId::Open => 48,
            PacketId::Close => 49,
            PacketId::Ping => 50,
            PacketId::Pong => 51,
            PacketId::Message => 52,
            PacketId::Upgrade => 53,
            PacketId::Noop => 54,
        }
    }

    /// The kind that the ASCII digit `b` stands for.
    pub open spec fn of_digit(b: u8) -> Option<PacketId> {
        if b == 48 {
            Some(PacketId::Open)
        } else if b == 49 {
            Some(PacketId::Close)
        } else if b == 50 {
            Some(PacketId::Ping)
        } else if b == 51 {
            Some(PacketId::Pong)
        } else if b == 52 {
            Some(PacketId::Message)
        } else if b == 53 {
            Some(PacketId::Upgrade)
        } else if b == 54 {
            Some(PacketId::Noop)
        } else {
            None
        }
    }

    /// The digit of this kind.
    pub fn to_digit(self) -> (d: u8)
        ensures
            d == self.digit(),
            PacketId::of_digit(d) == Some(self),
    {
        match self {
            PacketId::Open => 48,
            PacketId::Close => 49,
            PacketId::Ping => 50,
            PacketId::Pong => 51,
            PacketId::Message => 52,
            PacketId::Upgrade => 53,
            PacketId::Noop => 54,
        }
    }

    /// Reads a kind digit; `InvalidPacket` for any other byte.
    pub fn from_digit(b: u8) -> (r: Result<PacketId, Error>)
        ensures
            match r {
                Ok(k) => PacketId::of_digit(b) == Some(k) && k.digit() == b,
                Err(e) => PacketId::of_digit(b) is None && e == Error::InvalidPacket,
            },
    {
        match b {
            48 => Ok(PacketId::Open),
            49 => Ok(PacketId::Close),
            50 => Ok(PacketId::Ping),
            51 => Ok(PacketId::Pong),
            52 => Ok(PacketId::Message),
            53 => Ok(PacketId::Upgrade),
            54 => Ok(PacketId::Noop),
            _ => Err(Error::InvalidPacket),
        }
    }
}

/// An Engine.IO packet: a kind and a body. A MESSAGE carries text or binary
/// bytes, every other kind carries text.
#[derive(Debug, Clone)]
pub struct Packet {
    pub packet_id: PacketId,
    /// Whether the body is binary.
    pub binary: bool,
    pub data: Vec<u8>,
}

/// What a packet is, as a mathematical value.
pub struct PacketView {
    pub packet_id: PacketId,
    pub binary: bool,
    pub data: Seq<u8>,
}

impl View for Packet {
    type V = PacketView;

    open spec fn view(&self) -> PacketView {
        PacketView { packet_id: self.packet_id, binary: self.binary, data: self.data@ }
    }
}

impl PacketView {
    /// Only a MESSAGE is binary, and a text body is UTF-8.
    pub open spec fn wf(self) -> bool {
        &&& self.binary ==> self.packet_id == PacketId::Message
        &&& !self.binary ==> valid_utf8(self.data)
    }

    /// The textual form: the kind digit and the body, or `b` and the base64
    /// text of a binary body.
    pub open spec fn wire(self) -> Seq<u8> {
        if self.binary {
            seq![BASE64_MARK] + base64::encoded(self.data)
        } else {
            seq![self.packet_id.digit()] + self.data
        }
    }

    /// The frame that carries the packet over a WebSocket.
    pub open spec fn frame(self) -> FrameView {
        if self.binary {
            FrameView::Binary(seq![MESSAGE_TAG] + self.data)
        } else {
            FrameView::Text(seq![self.packet_id.digit()] + self.data)
        }
    }
}

/// The packet that the textual form `bytes` stands for.
pub open spec fn decoded(bytes: Seq<u8>) -> Result<PacketView, Error> {
    if bytes.len() == 0 {
        Err(Error::IncompletePacket)
    } else if bytes[0] == BASE64_MARK {
        match base64::decoded(bytes.skip(1)) {
            Some(data) => Ok(PacketView { packet_id: PacketId::Message, binary: true, data }),
            None => Err(Error::InvalidPacket),
        }
    } else {
        decoded_text(bytes)
    }
}

/// The packet that the text `<kind digit><UTF-8 body>` stands for.
pub open spec fn decoded_text(bytes: Seq<u8>) -> Result<PacketView, Error> {
    if bytes.len() == 0 {
        Err(Error::IncompletePacket)
    } else if PacketId::of_digit(bytes[0]) is None || !valid_utf8(bytes.skip(1)) {
        Err(Error::InvalidPacket)
    } else {
        Ok(
            PacketView {
                packet_id: PacketId::of_digit(bytes[0])->0,
                binary: false,
                data: bytes.skip(1),
            },
        )
    }
}

/// One message of a WebSocket, or one record of the inbound sequence.
#[derive(Debug, Clone)]
pub enum Frame {
    Text(Vec<u8>),
    Binary(Vec<u8>),
}

/// What a frame is, as a mathematical value.
pub enum FrameView {
    Text(Seq<u8>),
    Binary(Seq<u8>),
}

impl View for Frame {
    type V = FrameView;

    open spec fn view(&self) -> FrameView {
        match self {
            Frame::Text(t) => FrameView::Text(t@),
            Frame::Binary(b) => FrameView::Binary(b@),
        }
    }
}

/// The packet that a WebSocket frame stands for: a text frame holds the kind
/// digit and a UTF-8 body, a binary frame the tag of MESSAGE and the raw body.
pub open spec fn decoded_frame(frame: FrameView) -> Result<PacketView, Error> {
    match frame {
        FrameView::Text(t) => decoded_text(t),
        FrameView::Binary(b) => if b.len() == 0 {
            Err(Error::IncompletePacket)
        } else if b[0] != MESSAGE_TAG {
            Err(Error::InvalidPacket)
        } else {
            Ok(PacketView { packet_id: PacketId::Message, binary: true, data: b.skip(1) })
        },
    }
}

impl Packet {
    /// A text packet of the given kind.
    pub fn new(packet_id: PacketId, data: Vec<u8>) -> (p: Packet)
        ensures
            p@ == (PacketView { packet_id, binary: false, data: data@ }),
    {
        Packet { packet_id, binary: false, data }
    }

    /// A MESSAGE with a binary body.
    pub fn new_binary(data: Vec<u8>) -> (p: Packet)
        ensures
            p@ == (PacketView { packet_id: PacketId::Message, binary: true, data: data@ }),
            p@.wf(),
    {
        Packet { packet_id: PacketId::Message, binary: true, data }
    }

    /// A copy of the packet.
    pub fn duplicate(&self) -> (p: Packet)
        ensures
            p@ == self@,
    {
        let data = copy_range(self.data.as_slice(), 0, self.data.len());
        assert(data@ =~= self.data@);
        Packet { packet_id: self.packet_id, binary: self.binary, data }
    }

    /// Whether the packet can stand in a polling body: a text body holds no
    /// record separator.
    pub fn is_separable(&self) -> (r: bool)
        ensures
            r == separable(self@),
    {
        if self.binary {
            return true;
        }
        let k = find(self.data.as_slice(), 0, SEPARATOR);
        proof {
            assert(self.data@.skip(0) =~= self.data@);
            crate::text::lemma_first_index(self.data@, SEPARATOR);
        }
        k == self.data.len()
    }

    /// Whether the packet is well formed: only a MESSAGE is binary, and a text
    /// body is UTF-8.
    pub fn is_wf(&self) -> (r: bool)
        ensures
            r == self@.wf(),
    {
        if self.binary {
            self.packet_id == PacketId::Message
        } else {
            is_utf8(self.data.as_slice())
        }
    }

    /// The textual form of the packet, as long-polling carries it.
    pub fn encode(&self) -> (bytes: Vec<u8>)
        ensures
            bytes@ == self@.wire(),
    {
        let mut bytes: Vec<u8> = Vec::new();
        if self.binary {
            bytes.push(BASE64_MARK);
            let text = base64::encode(self.data.as_slice());
            append(&mut bytes, text.as_slice());
        } else {
            bytes.push(self.packet_id.to_digit());
            append(&mut bytes, self.data.as_slice());
        }
        bytes
    }

    /// Reads one packet from its textual form. Fails with `IncompletePacket`
    /// on an empty input and with `InvalidPacket` on an unknown kind digit, a
    /// body that is not UTF-8, or a base64 body that does not decode.
    pub fn decode(bytes: &[u8]) -> (r: Result<Packet, Error>)
        ensures
            match r {
                Ok(p) => decoded(bytes@) == Ok::<PacketView, Error>(p@),
                Err(e) => decoded(bytes@) == Err::<PacketView, Error>(e),
            },
    {
        if bytes.len() == 0 {
            return Err(Error::IncompletePacket);
        }
        assert(bytes@.subrange(1, bytes@.len() as int) =~= bytes@.skip(1));
        if bytes[0] == BASE64_MARK {
            match base64::decode(slice_subrange(bytes, 1, bytes.len())) {
                Some(data) => Ok(Packet { packet_id: PacketId::Message, binary: true, data }),
                None => Err(Error::InvalidPacket),
            }
        } else {
            Packet::decode_text(bytes)
        }
    }

    /// Reads one packet from `<kind digit><UTF-8 body>`.
    pub fn decode_text(bytes: &[u8]) -> (r: Result<Packet, Error>)
        ensures
            match r {
                Ok(p) => decoded_text(bytes@) == Ok::<PacketView, Error>(p@),
                Err(e) => decoded_text(bytes@) == Err::<PacketView, Error>(e),
            },
    {
        if bytes.len() == 0 {
            return Err(Error::IncompletePacket);
        }
        assert(bytes@.subrange(1, bytes@.len() as int) =~= bytes@.skip(1));
        match PacketId::from_digit(bytes[0]) {
            Err(e) => Err(e),
            Ok(packet_id) => {
                if !is_utf8(slice_subrange(bytes, 1, bytes.len())) {
                    return Err(Error::InvalidPacket);
                }
                Ok(Packet { packet_id, binary: false, data: copy_range(bytes, 1, bytes.len()) })
            },
        }
    }

    /// The frame that carries the packet over a WebSocket: a text frame for a
    /// text packet, a binary frame of the MESSAGE tag and the body for a
    /// binary one.
    pub fn encode_frame(&self) -> (frame: Frame)
        ensures
            frame@ == self@.frame(),
    {
        let mut bytes: Vec<u8> = Vec::new();
        if self.binary {
            bytes.push(MESSAGE_TAG);
            append(&mut bytes, self.data.as_slice());
            Frame::Binary(bytes)
        } else {
            bytes.push(self.packet_id.to_digit());
            append(&mut bytes, self.data.as_slice());
            Frame::Text(bytes)
        }
    }

    /// Reads the packet that a WebSocket frame carries.
    pub fn decode_frame(frame: &Frame) -> (r: Result<Packet, Error>)
        ensures
            match r {
                Ok(p) => decoded_frame(frame@) == Ok::<PacketView, Error>(p@),
                Err(e) => decoded_frame(frame@) == Err::<PacketView, Error>(e),
            },
    {
        match frame {
            Frame::Text(t) => Packet::decode_text(t.as_slice()),
            Frame::Binary(b) => {
                if b.len() == 0 {
                    return Err(Error::IncompletePacket);
                }
                if b[0] != MESSAGE_TAG {
                    return Err(Error::InvalidPacket);
                }
                assert(b@.subrange(1, b@.len() as int) =~= b@.skip(1));
                Ok(
                    Packet {
                        packet_id: PacketId::Message,
                        binary: true,
                        data: copy_range(b.as_slice(), 1, b.len()),
                    },
                )
            },
        }
    }
}

/// Reading the textual form of a well-formed packet gives the packet back.
pub proof fn lemma_decode_encode(p: PacketView)
    requires
        p.wf(),
    ensures
        decoded(p.wire()) == Ok::<PacketView, Error>(p),
{
    let w = p.wire();
    if p.binary {
        assert(w.skip(1) =~= base64::encoded(p.data));
        base64::lemma_decode_encode(p.data);
    } else {
        assert(w.skip(1) =~= p.data);
    }
}

/// A textual form that can be read is the textual form of what was read, and
/// what was read is well formed.
pub proof fn lemma_encode_decode(bytes: Seq<u8>)
    requires
        decoded(bytes) is Ok,
    ensures
        decoded(bytes)->Ok_0.wire() == bytes,
        decoded(bytes)->Ok_0.wf(),
{
    let p = decoded(bytes)->Ok_0;
    if bytes[0] == BASE64_MARK {
        base64::lemma_encode_decode(bytes.skip(1));
        assert(seq![BASE64_MARK] + bytes.skip(1) =~= bytes);
    } else {
        assert(seq![bytes[0]] + bytes.skip(1) =~= bytes);
    }
}

/// Reading the frame of a well-formed packet gives the packet back.
pub proof fn lemma_decode_encode_frame(p: PacketView)
    requires
        p.wf(),
    ensures
        decoded_frame(p.frame()) == Ok::<PacketView, Error>(p),
{
    if p.binary {
        assert((seq![MESSAGE_TAG] + p.data).skip(1) =~= p.data);
    } else {
        assert((seq![p.packet_id.digit()] + p.data).skip(1) =~= p.data);
    }
}

/// A frame that can be read is the frame of what was read, and what was read
/// is well formed.
pub proof fn lemma_encode_decode_frame(f: FrameView)
    requires
        decoded_frame(f) is Ok,
    ensures
        decoded_frame(f)->Ok_0.frame() == f,
        decoded_frame(f)->Ok_0.wf(),
{
    match f {
        FrameView::Text(t) => {
            assert(seq![t[0]] + t.skip(1) =~= t);
        },
        FrameView::Binary(b) => {
            assert(seq![MESSAGE_TAG] + b.skip(1) =~= b);
        },
    }
}

/// The views of a sequence of packets.
pub open spec fn views(ps: Seq<Packet>) -> Seq<PacketView> {
    ps.map_values(|p: Packet| p@)
}

/// The body of a polling request or response: the textual forms of the
/// packets, with a record separator between each two.
pub open spec fn payload_wire(ps: Seq<PacketView>) -> Seq<u8>
    decreases ps.len(),
{
    if ps.len() == 0 {
        Seq::empty()
    } else if ps.len() == 1 {
        ps[0].wire()
    } else {
        ps[0].wire() + seq![SEPARATOR] + payload_wire(ps.skip(1))
    }
}

/// `p` in front of what `rest` came to.
pub open spec fn prepended(p: Seq<PacketView>, rest: Result<Seq<PacketView>, Error>) -> Result<
    Seq<PacketView>,
    Error,
> {
    match rest {
        Err(e) => Err(e),
        Ok(r) => Ok(p + r),
    }
}

/// The packets of a byte string that holds at least one record: it is split
/// at the record separators, and every piece is read as a packet. The first
/// piece that cannot be read decides the error.
pub open spec fn decoded_records(bytes: Seq<u8>) -> Result<Seq<PacketView>, Error>
    decreases bytes.len(),
{
    let k = first_index(bytes, SEPARATOR);
    match decoded(bytes.take(k)) {
        Err(e) => Err(e),
        Ok(p) => if 0 <= k < bytes.len() {
            prepended(seq![p], decoded_records(bytes.skip(k + 1)))
        } else {
            Ok(seq![p])
        },
    }
}

/// The packets of a polling body. An empty body holds no packet.
pub open spec fn decoded_payload(bytes: Seq<u8>) -> Result<Seq<PacketView>, Error> {
    if bytes.len() == 0 {
        Ok(Seq::empty())
    } else {
        decoded_records(bytes)
    }
}

/// Whether the textual form of the packet is free of the record separator,
/// so that it can stand in a payload: a text body must not hold one.
pub open spec fn separable(p: PacketView) -> bool {
    !p.binary ==> !occurs(p.data, SEPARATOR)
}

/// Writes the packets as one polling body.
pub fn encode_payload(packets: &Vec<Packet>) -> (bytes: Vec<u8>)
    ensures
        bytes@ == payload_wire(views(packets@)),
{
    let ghost all = views(packets@);
    let n = packets.len();
    let mut bytes: Vec<u8> = Vec::new();
    let mut i: usize = 0;
    assert(all.skip(0) =~= all);
    while i < n
        invariant
            n == packets@.len(),
            all == views(packets@),
            i <= n,
            payload_wire(all) == bytes@ + payload_wire(all.skip(i as int)),
        decreases n - i,
    {
        let ghost rest = all.skip(i as int);
        let ghost before = bytes@;
        let one = packets[i].encode();
        append(&mut bytes, one.as_slice());
        assert(rest[0] == packets@[i as int]@);
        assert(rest.skip(1) =~= all.skip(i + 1));
        if i + 1 < n {
            bytes.push(SEPARATOR);
            assert(before + (rest[0].wire() + seq![SEPARATOR] + payload_wire(rest.skip(1)))
                =~= bytes@ + payload_wire(all.skip(i + 1)));
        } else {
            assert(payload_wire(all.skip(i + 1)) =~= Seq::<u8>::empty());
            assert(before + rest[0].wire() =~= bytes@ + payload_wire(all.skip(i + 1)));
        }
        i = i + 1;
    }
    assert(bytes@ + Seq::<u8>::empty() =~= bytes@);
    bytes
}

/// Reads the packets of a polling body. An empty body gives no packet and no
/// error; otherwise the body is split at the record separators and each piece
/// is read with `Packet::decode`, whose error, for the first piece that fails,
/// is the error of the whole.
pub fn decode_payload(bytes: &[u8]) -> (r: Result<Vec<Packet>, Error>)
    ensures
        match r {
            Ok(ps) => decoded_payload(bytes@) == Ok::<Seq<PacketView>, Error>(views(ps@)),
            Err(e) => decoded_payload(bytes@) == Err::<Seq<PacketView>, Error>(e),
        },
{
    let n = bytes.len();
    let mut packets: Vec<Packet> = Vec::new();
    if n == 0 {
        assert(views(packets@) =~= Seq::empty());
        return Ok(packets);
    }
    let mut pos: usize = 0;
    assert(bytes@.skip(0) =~= bytes@);
    assert(views(packets@) =~= Seq::empty());
    assert(forall|r: Seq<PacketView>| Seq::<PacketView>::empty() + r =~= r);
    loop
        invariant
            n == bytes@.len(),
            n > 0,
            pos <= n,
            decoded_records(bytes@) == prepended(
                views(packets@),
                decoded_records(bytes@.skip(pos as int)),
            ),
        decreases n - pos,
    {
        let ghost rest = bytes@.skip(pos as int);
        let ghost before = views(packets@);
        let k = find(bytes, pos, SEPARATOR);
        assert(bytes@.subrange(pos as int, k as int) =~= rest.take(k - pos));
        match Packet::decode(slice_subrange(bytes, pos, k)) {
            Err(e) => {
                assert(first_index(rest, SEPARATOR) == k - pos);
                assert(decoded(rest.take(k - pos)) == Err::<PacketView, Error>(e));
                assert(decoded_records(rest) == Err::<Seq<PacketView>, Error>(e));
                return Err(e);
            },
            Ok(p) => {
                assert(first_index(rest, SEPARATOR) == k - pos);
                assert(decoded(rest.take(k - pos)) == Ok::<PacketView, Error>(p@));
                packets.push(p);
                assert(views(packets@) =~= before + seq![p@]);
                if k == n {
                    return Ok(packets);
                }
                proof {
                    assert(rest.skip(k - pos + 1) =~= bytes@.skip(k + 1));
                    let tail = decoded_records(bytes@.skip(k + 1));
                    if tail is Ok {
                        assert(before + (seq![p@] + tail->Ok_0) =~= views(packets@) + tail->Ok_0);
                    }
                }
                pos = k + 1;
            },
        }
    }
}

/// The textual form of a separable, well-formed packet holds no record
/// separator.
pub proof fn lemma_wire_has_no_separator(p: PacketView)
    requires
        separable(p),
    ensures
        !occurs(p.wire(), SEPARATOR),
        p.wire().len() > 0,
{
    let w = p.wire();
    if p.binary {
        base64::lemma_encoded_chars(p.data);
        assert forall|j: int| 0 <= j < w.len() implies w[j] != SEPARATOR by {
            if j > 0 {
                assert(w[j] == base64::encoded(p.data)[j - 1]);
            }
        }
    } else {
        assert forall|j: int| 0 <= j < w.len() implies w[j] != SEPARATOR by {
            if j > 0 {
                assert(w[j] == p.data[j - 1]);
            }
        }
    }
}

/// Reading a polling body that was written from well-formed, separable
/// packets gives the packets back, in their order.
pub proof fn lemma_decode_encode_payload(ps: Seq<PacketView>)
    requires
        forall|i: int| 0 <= i < ps.len() ==> (#[trigger] ps[i]).wf() && separable(ps[i]),
    ensures
        decoded_payload(payload_wire(ps)) == Ok::<Seq<PacketView>, Error>(ps),
    decreases ps.len(),
{
    let bytes = payload_wire(ps);
    if ps.len() == 0 {
        assert(ps =~= Seq::empty());
    } else {
        let w = ps[0].wire();
        assert(ps[0].wf() && separable(ps[0]));
        lemma_wire_has_no_separator(ps[0]);
        lemma_decode_encode(ps[0]);
        if ps.len() == 1 {
            crate::text::lemma_first_index_absent(w, SEPARATOR);
            assert(w.take(w.len() as int) =~= w);
            assert(seq![ps[0]] =~= ps);
        } else {
            let tail = payload_wire(ps.skip(1));
            crate::text::lemma_first_index_joined(w, SEPARATOR, tail);
            assert(bytes.take(w.len() as int) =~= w);
            assert(bytes.skip(w.len() as int + 1) =~= tail);
            assert forall|i: int| 0 <= i < ps.skip(1).len() implies (#[trigger] ps.skip(1)[i]).wf()
                && separable(ps.skip(1)[i]) by {
                assert(ps.skip(1)[i] == ps[i + 1]);
            }
            lemma_decode_encode_payload(ps.skip(1));
            assert(ps.skip(1).len() > 0);
            assert(ps[1].wf() && separable(ps[1]));
            lemma_wire_has_no_separator(ps[1]);
            assert(ps.skip(1)[0] == ps[1]);
            assert(tail.len() > 0);
            assert(seq![ps[0]] + ps.skip(1) =~= ps);
        }
    }
}

/// A polling body that can be read is the body written from what was read.
pub proof fn lemma_encode_decode_payload(bytes: Seq<u8>)
    requires
        decoded_payload(bytes) is Ok,
    ensures
        payload_wire(decoded_payload(bytes)->Ok_0) == bytes,
    decreases bytes.len(),
{
    if bytes.len() == 0 {
        assert(bytes =~= Seq::empty());
    } else {
        lemma_records_written(bytes);
    }
}

/// The records of `bytes`, written again, are `bytes`; and there is at least
/// one record.
proof fn lemma_records_written(bytes: Seq<u8>)
    requires
        decoded_records(bytes) is Ok,
    ensures
        payload_wire(decoded_records(bytes)->Ok_0) == bytes,
        decoded_records(bytes)->Ok_0.len() > 0,
    decreases bytes.len(),
{
    let k = first_index(bytes, SEPARATOR);
    crate::text::lemma_first_index(bytes, SEPARATOR);
    let p = decoded(bytes.take(k))->Ok_0;
    lemma_encode_decode(bytes.take(k));
    if 0 <= k < bytes.len() {
        let rest = bytes.skip(k + 1);
        lemma_records_written(rest);
        let ps = seq![p] + decoded_records(rest)->Ok_0;
        assert(ps.skip(1) =~= decoded_records(rest)->Ok_0);
        assert(bytes.take(k) + seq![SEPARATOR] + rest =~= bytes);
    } else {
        assert(bytes.take(k) =~= bytes);
    }
}

} // verus!
