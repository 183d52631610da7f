//! Socket.IO packets, their header text, and the reassembly of attachments.

use crate::engineio::packet::Packet as EnginePacket;
use crate::engineio::packet::PacketId as EnginePacketId;
use crate::engineio::packet::PacketView as EnginePacketView;
use crate::engineio::packet::views;
use crate::error::Error;
pub use crate::text::blobs;
use crate::text::{
    append, canonical, copy_range, decimal, digit_run, digits_at, find, first_index, is_digit,
    number, occurs, read_decimal, write_decimal,
};
use vstd::prelude::*;
use vstd::utf8::valid_utf8;

verus! {

pub const SLASH: u8 = 47;

pub const COMMA: u8 = 44;

pub const DASH: u8 = 45;

/// The largest ack id that a header can carry.
pub const MAX_ID: u32 = 0x7fff_ffff;

/// The kind of a Socket.IO packet.
#[derive(Debug, Clone, Copy, PartialEq, Eq, Structural)]
pub enum PacketId {
    Connect,
    Disconnect,
    Event,
    Ack,
    ConnectError,
    BinaryEvent,
    BinaryAck,
}

impl PacketId {
    /// The ASCII digit that stands for this kind in a header.
    pub open spec fn digit(self) -> u8 {
        match self {
            PacketId::Connect => 48,
            PacketId::Disconnect => 49,
            PacketId::Event => 50,
            PacketId::Ack => 51,
            PacketId::ConnectError => 52,
            PacketId::BinaryEvent => 53,
            PacketId::BinaryAck => 54,
        }
    }

    /// The kind that the ASCII digit `b` stands for.
    pub open spec fn of_digit(b: u8) -> Option<PacketId> {
        if b == 48 {
            Some(PacketId::Connect)
        } else if b == 49 {
            Some(PacketId::Disconnect)
        } else if b == 50 {
            Some(PacketId::Event)
        } else if b == 51 {
            Some(PacketId::Ack)
        } else if b == 52 {
            Some(PacketId::ConnectError)
        } else if b == 53 {
            Some(PacketId::BinaryEvent)
        } else if b == 54 {
            Some(PacketId::BinaryAck)
        } else {
            None
        }
    }

    /// Whether packets of this kind are followed by attachments.
    pub open spec fn carries_binary(self) -> bool {
        self == PacketId::BinaryEvent || self == PacketId::BinaryAck
    }

    /// Whether packets of this kind are followed by attachments.
    pub fn is_binary(self) -> (r: bool)
        ensures
            r == self.carries_binary(),
    {
        match self {
            PacketId::BinaryEvent => true,
            PacketId::BinaryAck => true,
            _ => false,
        }
    }

    /// The digit of this kind.
    pub fn to_digit(self) -> (d: u8)
        ensures
            d == self.digit(),
            PacketId::of_digit(d) == Some(self),
    {
        match self {
            PacketId::Connect => 48,
            PacketId::Disconnect => 49,
            PacketId::Event => 50,
            PacketId::Ack => 51,
            PacketId::ConnectError => 52,
            PacketId::BinaryEvent => 53,
            PacketId::BinaryAck => 54,
        }
    }

    /// Reads a kind digit; `InvalidPacket` for any other byte.
    pub fn from_digit(b: u8) -> (r: Result<PacketId, Error>)
        ensures
            match r {
                Ok(k) => PacketId::of_digit(b) == Some(k) && k.digit() == b,
                Err(e) => PacketId::of_digit(b) is None && e == Error::InvalidPacket,
            },
    {
        match b {
            48 => Ok(PacketId::Connect),
            49 => Ok(PacketId::Disconnect),
            50 => Ok(PacketId::Event),
            51 => Ok(PacketId::Ack),
            52 => Ok(PacketId::ConnectError),
            53 => Ok(PacketId::BinaryEvent),
            54 => Ok(PacketId::BinaryAck),
            _ => Err(Error::InvalidPacket),
        }
    }
}

/// A Socket.IO packet.
#[derive(Debug, Clone)]
pub struct Packet {
    pub packet_type: PacketId,
    /// The namespace; `/` is the default one.
    pub nsp: Vec<u8>,
    /// The JSON body.
    pub data: Option<Vec<u8>>,
    /// The id that ties an ack to the event it answers.
    pub id: Option<i32>,
    /// How many attachments the header announces.
    pub attachment_count: u8,
    /// The binary parts that follow the header.
    pub attachments: Option<Vec<Vec<u8>>>,
}

/// What a packet is, as a mathematical value.
pub struct PacketView {
    pub packet_type: PacketId,
    pub nsp: Seq<u8>,
    pub data: Option<Seq<u8>>,
    pub id: Option<i32>,
    pub attachment_count: u8,
    pub attachments: Option<Seq<Seq<u8>>>,
}

impl View for Packet {
    type V = PacketView;

    open spec fn view(&self) -> PacketView {
        PacketView {
            packet_type: self.packet_type,
            nsp: self.nsp@,
            data: match self.data {
                Some(d) => Some(d@),
                None => None,
            },
            id: self.id,
            attachment_count: self.attachment_count,
            attachments: match self.attachments {
                Some(a) => Some(blobs(a@)),
                None => None,
            },
        }
    }
}

/// The default namespace, `/`.
pub open spec fn root() -> Seq<u8> {
    seq![SLASH]
}

impl PacketView {
    /// What a header can say: the namespace begins with `/` and holds no
    /// comma; only the binary kinds announce attachments; an id is not
    /// negative; a body is not empty and cannot be taken for an id or a
    /// namespace.
    pub open spec fn header_wf(self) -> bool {
        &&& self.nsp.len() > 0
        &&& self.nsp[0] == SLASH
        &&& !occurs(self.nsp, COMMA)
        &&& !self.packet_type.carries_binary() ==> self.attachment_count == 0
        &&& self.id matches Some(i) ==> i >= 0
        &&& self.data matches Some(d) ==> {
            &&& d.len() > 0
            &&& !is_digit(d[0])
            &&& (self.nsp == root() && self.id is None ==> d[0] != SLASH)
        }
    }

    /// Whether the packet has every attachment that it announces: a binary
    /// kind has exactly `attachment_count` of them, another kind has none.
    pub open spec fn complete(self) -> bool {
        if self.packet_type.carries_binary() {
            self.attachments matches Some(a) && a.len() == self.attachment_count
        } else {
            self.attachments is None
        }
    }

    /// The same packet with no attachment yet, as a header alone gives it.
    pub open spec fn bare(self) -> PacketView {
        PacketView {
            attachments: if self.packet_type.carries_binary() {
                Some(Seq::empty())
            } else {
                None
            },
            ..self
        }
    }

    /// The number of attachments and a dash, for a binary kind.
    pub open spec fn count_wire(self) -> Seq<u8> {
        if self.packet_type.carries_binary() {
            decimal(self.attachment_count as nat) + seq![DASH]
        } else {
            Seq::empty()
        }
    }

    /// The namespace and a comma, where the namespace is not `/`.
    pub open spec fn nsp_wire(self) -> Seq<u8> {
        if self.nsp == root() {
            Seq::empty()
        } else {
            self.nsp + seq![COMMA]
        }
    }

    /// The digits of the id, if there is one.
    pub open spec fn id_wire(self) -> Seq<u8> {
        match self.id {
            Some(i) => decimal(i as nat),
            None => Seq::empty(),
        }
    }

    /// The body, if there is one.
    pub open spec fn data_wire(self) -> Seq<u8> {
        match self.data {
            Some(d) => d,
            None => Seq::empty(),
        }
    }

    /// The id and the body.
    pub open spec fn after_nsp(self) -> Seq<u8> {
        self.id_wire() + self.data_wire()
    }

    /// The namespace and what follows.
    pub open spec fn after_count(self) -> Seq<u8> {
        self.nsp_wire() + self.after_nsp()
    }

    /// What follows the kind digit.
    pub open spec fn after_kind(self) -> Seq<u8> {
        self.count_wire() + self.after_count()
    }

    /// The header text: `<kind digit><attachments->?<nsp,>?<id>?<body>?`.
    pub open spec fn header(self) -> Seq<u8> {
        seq![self.packet_type.digit()] + self.after_kind()
    }
}

/// The number of attachments that stands at the front of `s`, and what
/// follows it. Only a binary kind has one.
pub open spec fn count_part(kind: PacketId, s: Seq<u8>) -> Result<(u8, Seq<u8>), Error> {
    if !kind.carries_binary() {
        Ok((0u8, s))
    } else {
        let run = digits_at(s, 0);
        if !canonical(run) || number(run) > 255 || run.len() >= s.len() || s[run.len() as int]
            != DASH {
            Err(Error::InvalidPacket)
        } else {
            Ok((number(run) as u8, s.skip(run.len() as int + 1)))
        }
    }
}

/// The namespace that stands at the front of `s`, and what follows it.
/// Without one the namespace is `/`. One that is written must end in a comma
/// and differ from `/`.
pub open spec fn nsp_part(s: Seq<u8>) -> Result<(Seq<u8>, Seq<u8>), Error> {
    if s.len() == 0 || s[0] != SLASH {
        Ok((root(), s))
    } else {
        let k = first_index(s, COMMA);
        if k >= s.len() {
            Err(Error::IncompletePacket)
        } else if k == 1 {
            Err(Error::InvalidPacket)
        } else {
            Ok((s.take(k), s.skip(k + 1)))
        }
    }
}

/// The id that stands at the front of `s`, if any, and what follows it.
pub open spec fn id_part(s: Seq<u8>) -> Result<(Option<i32>, Seq<u8>), Error> {
    let run = digits_at(s, 0);
    if run.len() == 0 {
        Ok((None, s))
    } else if !canonical(run) || number(run) > MAX_ID {
        Err(Error::InvalidPacket)
    } else {
        Ok((Some(number(run) as i32), s.skip(run.len() as int)))
    }
}

/// The packet that a header text stands for, with no attachment yet.
pub open spec fn decoded_header(bytes: Seq<u8>) -> Result<PacketView, Error> {
    if bytes.len() == 0 {
        Err(Error::IncompletePacket)
    } else {
        match PacketId::of_digit(bytes[0]) {
            None => Err(Error::InvalidPacket),
            Some(kind) => match count_part(kind, bytes.skip(1)) {
                Err(e) => Err(e),
                Ok((count, r2)) => match nsp_part(r2) {
                    Err(e) => Err(e),
                    Ok((nsp, r3)) => match id_part(r3) {
                        Err(e) => Err(e),
                        Ok((id, r4)) => Ok(
                            PacketView {
                                packet_type: kind,
                                nsp,
                                data: if r4.len() == 0 {
                                    None
                                } else {
                                    Some(r4)
                                },
                                id,
                                attachment_count: count,
                                attachments: if kind.carries_binary() {
                                    Some(Seq::empty())
                                } else {
                                    None
                                },
                            },
                        ),
                    },
                },
            },
        }
    }
}

impl Packet {
    /// A packet of the given parts.
    pub fn new(
        packet_type: PacketId,
        nsp: Vec<u8>,
        data: Option<Vec<u8>>,
        id: Option<i32>,
        attachment_count: u8,
        attachments: Option<Vec<Vec<u8>>>,
    ) -> (p: Packet)
        ensures
            p.packet_type == packet_type,
            p.nsp == nsp,
            p.data == data,
            p.id == id,
            p.attachment_count == attachment_count,
            p.attachments == attachments,
    {
        Packet { packet_type, nsp, data, id, attachment_count, attachments }
    }

    fn write_count(&self, out: &mut Vec<u8>)
        ensures
            final(out)@ == old(out)@ + self@.count_wire(),
    {
        if self.packet_type.is_binary() {
            write_decimal(out, self.attachment_count as u32);
            out.push(DASH);
            assert(out@ =~= old(out)@ + (decimal(self.attachment_count as nat) + seq![DASH]));
        } else {
            assert(out@ =~= old(out)@ + Seq::<u8>::empty());
        }
    }

    fn write_nsp(&self, out: &mut Vec<u8>)
        ensures
            final(out)@ == old(out)@ + self@.nsp_wire(),
    {
        if self.nsp.len() == 1 && self.nsp[0] == SLASH {
            assert(self.nsp@ =~= root());
            assert(out@ =~= old(out)@ + Seq::<u8>::empty());
        } else {
            append(out, self.nsp.as_slice());
            out.push(COMMA);
            assert(self.nsp@ != root());
            assert(out@ =~= old(out)@ + (self.nsp@ + seq![COMMA]));
        }
    }

    fn write_id(&self, out: &mut Vec<u8>)
        requires
            self.id matches Some(i) ==> i >= 0,
        ensures
            final(out)@ == old(out)@ + self@.id_wire(),
    {
        match self.id {
            Some(i) => {
                write_decimal(out, i as u32);
            },
            None => {
                assert(out@ =~= old(out)@ + Seq::<u8>::empty());
            },
        }
    }

    fn write_data(&self, out: &mut Vec<u8>)
        ensures
            final(out)@ == old(out)@ + self@.data_wire(),
    {
        match &self.data {
            Some(d) => {
                append(out, d.as_slice());
            },
            None => {
                assert(out@ =~= old(out)@ + Seq::<u8>::empty());
            },
        }
    }

    /// Writes the header text of the packet.
    fn write_header(&self) -> (bytes: Vec<u8>)
        requires
            self.id matches Some(i) ==> i >= 0,
        ensures
            bytes@ == self@.header(),
    {
        let mut bytes: Vec<u8> = Vec::new();
        bytes.push(self.packet_type.to_digit());
        let ghost s0 = bytes@;
        self.write_count(&mut bytes);
        let ghost s1 = bytes@;
        self.write_nsp(&mut bytes);
        let ghost s2 = bytes@;
        self.write_id(&mut bytes);
        let ghost s3 = bytes@;
        self.write_data(&mut bytes);
        proof {
            let v = self@;
            assert(s0 =~= seq![v.packet_type.digit()]);
            assert(bytes@ =~= s0 + (v.count_wire() + (v.nsp_wire() + (v.id_wire()
                + v.data_wire()))));
        }
        bytes
    }
}

proof fn lemma_digits_at_skip(s: Seq<u8>, pos: int)
    requires
        0 <= pos <= s.len(),
    ensures
        digits_at(s.skip(pos), 0) == digits_at(s, pos),
        digits_at(s, pos).len() == digit_run(s.skip(pos)),
        0 <= digit_run(s.skip(pos)) <= s.len() - pos,
{
    crate::text::lemma_digit_run(s.skip(pos));
    assert(s.skip(pos).skip(0) =~= s.skip(pos));
    assert(digits_at(s.skip(pos), 0) =~= digits_at(s, pos));
}

fn read_count(kind: PacketId, bytes: &[u8], pos: usize) -> (r: Result<(u8, usize), Error>)
    requires
        pos <= bytes@.len(),
    ensures
        match r {
            Ok((c, next)) => pos <= next <= bytes@.len() && count_part(kind, bytes@.skip(pos as int))
                == Ok::<(u8, Seq<u8>), Error>((c, bytes@.skip(next as int))),
            Err(e) => count_part(kind, bytes@.skip(pos as int)) == Err::<(u8, Seq<u8>), Error>(e),
        },
{
    if !kind.is_binary() {
        return Ok((0, pos));
    }
    proof {
        lemma_digits_at_skip(bytes@, pos as int);
    }
    match read_decimal(bytes, pos, 255) {
        None => Err(Error::InvalidPacket),
        Some((v, end)) => {
            if end >= bytes.len() || bytes[end] != DASH {
                return Err(Error::InvalidPacket);
            }
            assert(bytes@.skip(pos as int).skip(end - pos + 1) =~= bytes@.skip(end + 1));
            Ok((v as u8, end + 1))
        },
    }
}

fn read_nsp(bytes: &[u8], pos: usize) -> (r: Result<(Vec<u8>, usize), Error>)
    requires
        pos <= bytes@.len(),
    ensures
        match r {
            Ok((nsp, next)) => pos <= next <= bytes@.len() && nsp_part(bytes@.skip(pos as int))
                == Ok::<(Seq<u8>, Seq<u8>), Error>((nsp@, bytes@.skip(next as int))),
            Err(e) => nsp_part(bytes@.skip(pos as int)) == Err::<(Seq<u8>, Seq<u8>), Error>(e),
        },
{
    let n = bytes.len();
    if pos == n || bytes[pos] != SLASH {
        let mut nsp: Vec<u8> = Vec::new();
        nsp.push(SLASH);
        assert(nsp@ =~= root());
        return Ok((nsp, pos));
    }
    let k = find(bytes, pos, COMMA);
    if k == n {
        return Err(Error::IncompletePacket);
    }
    if k == pos + 1 {
        return Err(Error::InvalidPacket);
    }
    proof {
        crate::text::lemma_first_index(bytes@.skip(pos as int), COMMA);
    }
    assert(bytes@.skip(pos as int).take(k - pos) =~= bytes@.subrange(pos as int, k as int));
    assert(bytes@.skip(pos as int).skip(k - pos + 1) =~= bytes@.skip(k + 1));
    Ok((copy_range(bytes, pos, k), k + 1))
}

fn read_id(bytes: &[u8], pos: usize) -> (r: Result<(Option<i32>, usize), Error>)
    requires
        pos <= bytes@.len(),
    ensures
        match r {
            Ok((id, next)) => pos <= next <= bytes@.len() && id_part(bytes@.skip(pos as int))
                == Ok::<(Option<i32>, Seq<u8>), Error>((id, bytes@.skip(next as int))),
            Err(e) => id_part(bytes@.skip(pos as int)) == Err::<(Option<i32>, Seq<u8>), Error>(e),
        },
{
    proof {
        lemma_digits_at_skip(bytes@, pos as int);
    }
    if pos == bytes.len() || !(48 <= bytes[pos] && bytes[pos] <= 57) {
        return Ok((None, pos));
    }
    proof {
        let rest = bytes@.skip(pos as int);
        assert(rest[0] == bytes@[pos as int]);
        assert(digit_run(rest) == 1 + digit_run(rest.skip(1)));
        crate::text::lemma_digit_run(rest.skip(1));
    }
    match read_decimal(bytes, pos, MAX_ID) {
        None => Err(Error::InvalidPacket),
        Some((v, end)) => {
            assert(bytes@.skip(pos as int).skip(end - pos) =~= bytes@.skip(end as int));
            Ok((Some(v as i32), end))
        },
    }
}

/// Reads a header text. The packet has no attachment yet: a binary kind
/// holds an empty list of them, another kind none.
///
/// Fails with `IncompletePacket` on an empty text and on a namespace without
/// its comma; with `InvalidPacket` on an unknown kind digit, a number of
/// attachments that is missing, not canonical, over 255 or not followed by a
/// dash, a namespace written as `/`, and an id that is not canonical or does
/// not fit.
pub fn decode_header(bytes: &[u8]) -> (r: Result<Packet, Error>)
    ensures
        match r {
            Ok(p) => decoded_header(bytes@) == Ok::<PacketView, Error>(p@),
            Err(e) => decoded_header(bytes@) == Err::<PacketView, Error>(e),
        },
{
    let n = bytes.len();
    if n == 0 {
        return Err(Error::IncompletePacket);
    }
    let kind = match PacketId::from_digit(bytes[0]) {
        Ok(k) => k,
        Err(e) => {
            return Err(e);
        },
    };
    let (count, at_nsp) = match read_count(kind, bytes, 1) {
        Ok(r) => r,
        Err(e) => {
            return Err(e);
        },
    };
    let (nsp, at_id) = match read_nsp(bytes, at_nsp) {
        Ok(r) => r,
        Err(e) => {
            return Err(e);
        },
    };
    let (id, at_body) = match read_id(bytes, at_id) {
        Ok(r) => r,
        Err(e) => {
            return Err(e);
        },
    };
    let data = if at_body == n {
        None
    } else {
        assert(bytes@.subrange(at_body as int, n as int) =~= bytes@.skip(at_body as int));
        Some(copy_range(bytes, at_body, n))
    };
    let attachments: Option<Vec<Vec<u8>>> = if kind.is_binary() {
        let a: Vec<Vec<u8>> = Vec::new();
        assert(blobs(a@) =~= Seq::empty());
        Some(a)
    } else {
        None
    };
    Ok(Packet { packet_type: kind, nsp, data, id, attachment_count: count, attachments })
}

proof fn lemma_count_written(p: PacketView, tail: Seq<u8>)
    requires
        p.header_wf(),
    ensures
        count_part(p.packet_type, p.count_wire() + tail) == Ok::<(u8, Seq<u8>), Error>(
            (p.attachment_count, tail),
        ),
{
    let s = p.count_wire() + tail;
    if p.packet_type.carries_binary() {
        let d = decimal(p.attachment_count as nat);
        let rest = seq![DASH] + tail;
        assert(s =~= d + rest);
        assert(s.skip(0) =~= s);
        crate::text::lemma_digit_run_decimal(p.attachment_count as nat, rest);
        crate::text::lemma_decimal(p.attachment_count as nat);
        assert(digits_at(s, 0) =~= d);
        assert(s[d.len() as int] == DASH);
        assert(s.skip(d.len() as int + 1) =~= tail);
    } else {
        assert(s =~= tail);
    }
}

proof fn lemma_nsp_written(p: PacketView, tail: Seq<u8>)
    requires
        p.header_wf(),
        p.nsp == root() ==> tail.len() == 0 || tail[0] != SLASH,
    ensures
        nsp_part(p.nsp_wire() + tail) == Ok::<(Seq<u8>, Seq<u8>), Error>((p.nsp, tail)),
{
    let s = p.nsp_wire() + tail;
    if p.nsp == root() {
        assert(s =~= tail);
    } else {
        assert(s =~= p.nsp + seq![COMMA] + tail);
        assert(s[0] == p.nsp[0]);
        crate::text::lemma_first_index_joined(p.nsp, COMMA, tail);
        if p.nsp.len() == 1 {
            assert(p.nsp =~= root());
        }
        assert(s.take(p.nsp.len() as int) =~= p.nsp);
        assert(s.skip(p.nsp.len() as int + 1) =~= tail);
    }
}

proof fn lemma_id_written(p: PacketView, tail: Seq<u8>)
    requires
        p.header_wf(),
        tail.len() == 0 || !is_digit(tail[0]),
    ensures
        id_part(p.id_wire() + tail) == Ok::<(Option<i32>, Seq<u8>), Error>((p.id, tail)),
{
    let s = p.id_wire() + tail;
    assert(s.skip(0) =~= s);
    match p.id {
        None => {
            assert(s =~= tail);
            assert(digit_run(s) == 0);
            assert(digits_at(s, 0) =~= Seq::<u8>::empty());
        },
        Some(i) => {
            let d = decimal(i as nat);
            crate::text::lemma_digit_run_decimal(i as nat, tail);
            crate::text::lemma_decimal(i as nat);
            assert(digits_at(s, 0) =~= d);
            assert(s.skip(d.len() as int) =~= tail);
        },
    }
}

/// Reading the header text of a packet gives the packet back, without its
/// attachments.
pub proof fn lemma_decode_encode_header(p: PacketView)
    requires
        p.header_wf(),
    ensures
        decoded_header(p.header()) == Ok::<PacketView, Error>(p.bare()),
{
    let x = p.header();
    assert(x.skip(1) =~= p.after_kind());
    lemma_count_written(p, p.after_count());
    let t3 = p.after_nsp();
    match p.id {
        Some(i) => {
            crate::text::lemma_decimal(i as nat);
            assert(t3[0] == decimal(i as nat)[0]);
            assert(is_digit(decimal(i as nat)[0]));
        },
        None => {
            assert(t3 =~= p.data_wire());
        },
    }
    lemma_nsp_written(p, t3);
    lemma_id_written(p, p.data_wire());
    let q = decoded_header(x)->Ok_0;
    assert(q.data == p.data);
}

proof fn lemma_count_read(kind: PacketId, s: Seq<u8>, p: PacketView)
    requires
        count_part(kind, s) is Ok,
        p.packet_type == kind,
        p.attachment_count == count_part(kind, s)->Ok_0.0,
    ensures
        p.count_wire() + count_part(kind, s)->Ok_0.1 == s,
        !kind.carries_binary() ==> p.attachment_count == 0,
{
    if kind.carries_binary() {
        let run = digits_at(s, 0);
        crate::text::lemma_canonical(run);
        assert(s.skip(0) =~= s);
        crate::text::lemma_digit_run(s);
        assert(run + seq![DASH] + s.skip(run.len() as int + 1) =~= s);
    } else {
        assert(Seq::<u8>::empty() + s =~= s);
    }
}

proof fn lemma_nsp_read(s: Seq<u8>, p: PacketView)
    requires
        nsp_part(s) is Ok,
        p.nsp == nsp_part(s)->Ok_0.0,
    ensures
        p.nsp_wire() + nsp_part(s)->Ok_0.1 == s,
        p.nsp.len() > 0,
        p.nsp[0] == SLASH,
        !occurs(p.nsp, COMMA),
        p.nsp == root() ==> s.len() == 0 || s[0] != SLASH,
{
    if s.len() == 0 || s[0] != SLASH {
        assert(Seq::<u8>::empty() + s =~= s);
    } else {
        let k = first_index(s, COMMA);
        crate::text::lemma_first_index(s, COMMA);
        assert(s.take(k) + seq![COMMA] + s.skip(k + 1) =~= s);
        assert(p.nsp.len() == k);
        assert(p.nsp != root());
        assert forall|j: int| 0 <= j < p.nsp.len() implies p.nsp[j] != COMMA by {
            assert(p.nsp[j] == s[j]);
        }
    }
}

proof fn lemma_id_read(s: Seq<u8>, p: PacketView)
    requires
        id_part(s) is Ok,
        p.id == id_part(s)->Ok_0.0,
    ensures
        p.id_wire() + id_part(s)->Ok_0.1 == s,
        p.id matches Some(i) ==> i >= 0,
        p.id is None ==> id_part(s)->Ok_0.1 == s,
        id_part(s)->Ok_0.1.len() > 0 ==> !is_digit(id_part(s)->Ok_0.1[0]),
{
    let run = digits_at(s, 0);
    assert(s.skip(0) =~= s);
    crate::text::lemma_digit_run(s);
    if run.len() == 0 {
        assert(Seq::<u8>::empty() + s =~= s);
    } else {
        crate::text::lemma_canonical(run);
        assert(run + s.skip(run.len() as int) =~= s);
    }
}

/// A header text that can be read is the header text of what was read, and
/// what was read can be written.
pub proof fn lemma_encode_decode_header(x: Seq<u8>)
    requires
        decoded_header(x) is Ok,
    ensures
        decoded_header(x)->Ok_0.header() == x,
        decoded_header(x)->Ok_0.header_wf(),
        decoded_header(x)->Ok_0.bare() == decoded_header(x)->Ok_0,
{
    let p = decoded_header(x)->Ok_0;
    let kind = p.packet_type;
    let r1 = x.skip(1);
    let r2 = count_part(kind, r1)->Ok_0.1;
    let r3 = nsp_part(r2)->Ok_0.1;
    let r4 = id_part(r3)->Ok_0.1;
    lemma_count_read(kind, r1, p);
    lemma_nsp_read(r2, p);
    lemma_id_read(r3, p);
    assert(p.data_wire() =~= r4);
    assert(p.after_nsp() =~= r3);
    assert(p.after_count() =~= r2);
    assert(p.after_kind() =~= r1);
    assert(seq![x[0]] + r1 =~= x);
}

/// The text MESSAGE that carries `body`.
pub open spec fn text_message(body: Seq<u8>) -> EnginePacketView {
    EnginePacketView { packet_id: EnginePacketId::Message, binary: false, data: body }
}

/// The binary MESSAGE that carries `body`.
pub open spec fn binary_message(body: Seq<u8>) -> EnginePacketView {
    EnginePacketView { packet_id: EnginePacketId::Message, binary: true, data: body }
}

impl PacketView {
    /// The Engine.IO messages that carry the packet: the header as a text
    /// MESSAGE, then each attachment as a binary MESSAGE, in order.
    pub open spec fn messages(self) -> Seq<EnginePacketView> {
        seq![text_message(self.header())] + (match self.attachments {
            Some(a) => a.map_values(|b: Seq<u8>| binary_message(b)),
            None => Seq::empty(),
        })
    }

    /// The packet with one more attachment.
    pub open spec fn with_attachment(self, body: Seq<u8>) -> PacketView {
        PacketView {
            attachments: Some(
                (match self.attachments {
                    Some(a) => a,
                    None => Seq::empty(),
                }).push(body),
            ),
            ..self
        }
    }

    /// Whether the packet still waits for attachments.
    pub open spec fn partial(self) -> bool {
        &&& self.packet_type.carries_binary()
        &&& self.attachments matches Some(a) && a.len() < self.attachment_count
    }
}

impl Packet {
    /// Whether the header of the packet can be written (`header_wf`) and the
    /// packet has the attachments that it announces (`complete`).
    pub fn is_wf(&self) -> (r: bool)
        ensures
            r == (self@.header_wf() && self@.complete()),
    {
        let n = self.nsp.len();
        if n == 0 || self.nsp[0] != SLASH {
            return false;
        }
        let k = find(self.nsp.as_slice(), 0, COMMA);
        proof {
            assert(self.nsp@.skip(0) =~= self.nsp@);
            crate::text::lemma_first_index(self.nsp@, COMMA);
        }
        if k != n {
            return false;
        }
        let binary = self.packet_type.is_binary();
        if !binary && self.attachment_count != 0 {
            return false;
        }
        match self.id {
            Some(i) => {
                if i < 0 {
                    return false;
                }
            },
            None => {},
        }
        match &self.data {
            Some(d) => {
                if d.len() == 0 || (48 <= d[0] && d[0] <= 57) {
                    return false;
                }
                if n == 1 && self.id.is_none() && d[0] == SLASH {
                    assert(self.nsp@ =~= root());
                    return false;
                }
                assert(n > 1 ==> self.nsp@ != root());
            },
            None => {},
        }
        match &self.attachments {
            Some(a) => {
                assert(blobs(a@).len() == a@.len());
                binary && a.len() == self.attachment_count as usize
            },
            None => !binary,
        }
    }

    /// The Engine.IO messages that carry the packet: one text MESSAGE with
    /// the header and, for a binary kind, one binary MESSAGE for each
    /// attachment, in order. A packet whose header cannot be written, or
    /// which lacks attachments that it announces, gives `InvalidPacket`.
    pub fn encode(&self) -> (r: Result<Vec<EnginePacket>, Error>)
        ensures
            match r {
                Ok(ms) => self@.header_wf() && self@.complete() && views(ms@) == self@.messages(),
                Err(e) => e == Error::InvalidPacket && !(self@.header_wf() && self@.complete()),
            },
    {
        if !self.is_wf() {
            return Err(Error::InvalidPacket);
        }
        let mut ms: Vec<EnginePacket> = Vec::new();
        ms.push(EnginePacket::new(EnginePacketId::Message, self.write_header()));
        assert(views(ms@) =~= seq![text_message(self@.header())]);
        match &self.attachments {
            None => {
                assert(views(ms@) =~= self@.messages());
            },
            Some(a) => {
                let n = a.len();
                let mut i: usize = 0;
                let ghost all = blobs(a@).map_values(|b: Seq<u8>| binary_message(b));
                while i < n
                    invariant
                        n == a@.len(),
                        i <= n,
                        all == blobs(a@).map_values(|b: Seq<u8>| binary_message(b)),
                        views(ms@) == seq![text_message(self@.header())] + all.take(i as int),
                    decreases n - i,
                {
                    let ghost before = views(ms@);
                    let body = copy_range(a[i].as_slice(), 0, a[i].len());
                    assert(body@ =~= a@[i as int]@);
                    ms.push(EnginePacket::new_binary(body));
                    assert(views(ms@) =~= before.push(binary_message(body@)));
                    assert(all.take(i + 1) =~= all.take(i as int).push(all[i as int]));
                    i = i + 1;
                }
                assert(all.take(n as int) =~= all);
            },
        }
        Ok(ms)
    }
}

/// What one inbound Engine.IO packet does to the reassembly: the packet that
/// waits for attachments afterwards, and what comes out.
///
/// With nothing waiting, a text MESSAGE is read as a header: a binary kind
/// that announces attachments waits, any other packet comes out at once.
/// With a packet waiting, a binary MESSAGE is its next attachment, and the
/// packet comes out with the last of them. A binary MESSAGE that nothing
/// waits for, and a text MESSAGE while a packet waits, are `InvalidPacket`,
/// and nothing waits afterwards. A packet that is no MESSAGE is
/// `InvalidPacket` and leaves the reassembly as it was.
pub open spec fn step(pending: Option<PacketView>, m: EnginePacketView) -> (
    Option<PacketView>,
    Result<Option<PacketView>, Error>,
) {
    if m.packet_id != EnginePacketId::Message {
        (pending, Err(Error::InvalidPacket))
    } else {
        match pending {
            None => if m.binary {
                (None, Err(Error::InvalidPacket))
            } else {
                match decoded_header(m.data) {
                    Err(e) => (None, Err(e)),
                    Ok(p) => if p.partial() {
                        (Some(p), Ok(None))
                    } else {
                        (None, Ok(Some(p)))
                    },
                }
            },
            Some(p) => if !m.binary {
                (None, Err(Error::InvalidPacket))
            } else if p.with_attachment(m.data).partial() {
                (Some(p.with_attachment(m.data)), Ok(None))
            } else {
                (None, Ok(Some(p.with_attachment(m.data))))
            },
        }
    }
}

/// What came out of a step, as a mathematical value.
pub open spec fn outcome(r: Result<Option<Packet>, Error>) -> Result<Option<PacketView>, Error> {
    match r {
        Ok(Some(p)) => Ok(Some(p@)),
        Ok(None) => Ok(None),
        Err(e) => Err(e),
    }
}

/// Reassembles Socket.IO packets from the inbound Engine.IO messages.
pub struct Decoder {
    pending: Option<Packet>,
}

impl Decoder {
    #[verifier::type_invariant]
    spec fn inv(self) -> bool {
        self.pending matches Some(p) ==> p@.partial()
    }

    /// The packet that waits for attachments, if any.
    pub closed spec fn pending(&self) -> Option<PacketView> {
        match self.pending {
            Some(p) => Some(p@),
            None => None,
        }
    }

    /// A decoder with nothing waiting.
    pub fn new() -> (d: Decoder)
        ensures
            d.pending() is None,
    {
        Decoder { pending: None }
    }

    /// Whether a packet waits for attachments.
    pub fn is_waiting(&self) -> (r: bool)
        ensures
            r == self.pending() is Some,
    {
        self.pending.is_some()
    }

    /// Ends the stream: `IncompletePacket` if and only if a packet still
    /// waits for attachments.
    pub fn finish(&self) -> (r: Result<(), Error>)
        ensures
            match r {
                Ok(_) => self.pending() is None,
                Err(e) => self.pending() is Some && e == Error::IncompletePacket,
            },
    {
        if self.pending.is_some() {
            Err(Error::IncompletePacket)
        } else {
            Ok(())
        }
    }

    /// Takes the next inbound Engine.IO packet. What waits afterwards and
    /// what comes out are those of `step`; a packet that comes out has every
    /// attachment that it announces.
    pub fn feed(&mut self, message: &EnginePacket) -> (r: Result<Option<Packet>, Error>)
        ensures
            (final(self).pending(), outcome(r)) == step(old(self).pending(), message@),
            r matches Ok(Some(p)) ==> p@.complete(),
            old(self).pending() matches Some(p) ==> p.partial(),
    {
        proof {
            use_type_invariant(&*self);
        }
        if !(message.packet_id == EnginePacketId::Message) {
            return Err(Error::InvalidPacket);
        }
        let mut taken = Decoder { pending: None };
        core::mem::swap(self, &mut taken);
        proof {
            use_type_invariant(&taken);
        }
        let Decoder { pending } = taken;
        match pending {
            None => {
                if message.binary {
                    return Err(Error::InvalidPacket);
                }
                match decode_header(message.data.as_slice()) {
                    Err(e) => Err(e),
                    Ok(p) => {
                        proof {
                            lemma_encode_decode_header(message.data@);
                        }
                        if p.packet_type.is_binary() && p.attachment_count > 0 {
                            self.pending = Some(p);
                            Ok(None)
                        } else {
                            Ok(Some(p))
                        }
                    },
                }
            },
            Some(p) => {
                if !message.binary {
                    return Err(Error::InvalidPacket);
                }
                let ghost before = p@;
                let Packet { packet_type, nsp, data, id, attachment_count, attachments } = p;
                let mut list = match attachments {
                    Some(a) => a,
                    None => Vec::new(),
                };
                let body = copy_range(message.data.as_slice(), 0, message.data.len());
                assert(body@ =~= message.data@);
                let ghost old_list = blobs(list@);
                list.push(body);
                assert(blobs(list@) =~= old_list.push(message.data@));
                let done = list.len() >= attachment_count as usize;
                let q = Packet {
                    packet_type,
                    nsp,
                    data,
                    id,
                    attachment_count,
                    attachments: Some(list),
                };
                assert(q@ == before.with_attachment(message.data@));
                if done {
                    Ok(Some(q))
                } else {
                    self.pending = Some(q);
                    Ok(None)
                }
            },
        }
    }
}

/// What comes out, step by step, when `msgs` are fed one after the other,
/// starting with `pending` waiting.
pub open spec fn outcomes(pending: Option<PacketView>, msgs: Seq<EnginePacketView>) -> Seq<
    Result<Option<PacketView>, Error>,
>
    decreases msgs.len(),
{
    if msgs.len() == 0 {
        Seq::empty()
    } else {
        seq![step(pending, msgs[0]).1] + outcomes(step(pending, msgs[0]).0, msgs.skip(1))
    }
}

/// `n` steps out of which nothing comes, and then `p`.
pub open spec fn silent_then(n: nat, p: PacketView) -> Seq<Result<Option<PacketView>, Error>> {
    Seq::new(n, |i: int| Ok::<Option<PacketView>, Error>(None)).push(Ok(Some(p)))
}

/// The attachments of `p` from the `k`-th on, as binary messages.
pub open spec fn attachment_messages(a: Seq<Seq<u8>>, k: int) -> Seq<EnginePacketView> {
    a.skip(k).map_values(|b: Seq<u8>| binary_message(b))
}

proof fn lemma_attachments_fed(p: PacketView, k: int)
    requires
        p.packet_type.carries_binary(),
        p.complete(),
        0 <= k < p.attachment_count,
    ensures
        outcomes(
            Some(PacketView { attachments: Some(p.attachments->0.take(k)), ..p }),
            attachment_messages(p.attachments->0, k),
        ) == silent_then((p.attachment_count - k - 1) as nat, p),
    decreases p.attachment_count - k,
{
    reveal_with_fuel(outcomes, 2);
    let a = p.attachments->0;
    let q = PacketView { attachments: Some(a.take(k)), ..p };
    let msgs = attachment_messages(a, k);
    assert(msgs[0] == binary_message(a[k]));
    let next = q.with_attachment(a[k]);
    assert(a.take(k).push(a[k]) =~= a.take(k + 1));
    assert(next == (PacketView { attachments: Some(a.take(k + 1)), ..p }));
    assert(msgs.skip(1) =~= attachment_messages(a, k + 1));
    if k + 1 == p.attachment_count {
        assert(a.take(k + 1) =~= a);
        assert(next == p);
        assert(!next.partial());
        assert(msgs.skip(1).len() == 0);
        assert(outcomes(Some(q), msgs) =~= silent_then(0, p));
    } else {
        assert(next.partial());
        lemma_attachments_fed(p, k + 1);
        assert(outcomes(Some(q), msgs) =~= silent_then((p.attachment_count - k - 1) as nat, p));
    }
}

/// Feeding the messages of a packet to a decoder with nothing waiting gives
/// nothing for every message but the last, and with the last the packet
/// itself: its kind, namespace, id and body, and its attachments by value and
/// in order.
pub proof fn lemma_decode_encode_stream(p: PacketView)
    requires
        p.header_wf(),
        p.complete(),
    ensures
        outcomes(None, p.messages()) == silent_then((p.messages().len() - 1) as nat, p),
{
    reveal_with_fuel(outcomes, 2);
    let msgs = p.messages();
    lemma_decode_encode_header(p);
    assert(msgs[0] == text_message(p.header()));
    if p.packet_type.carries_binary() {
        let a = p.attachments->0;
        assert(msgs.skip(1) =~= attachment_messages(a, 0)) by {
            assert(a.skip(0) =~= a);
        }
        if p.attachment_count == 0 {
            assert(a =~= Seq::empty());
            assert(p.bare() == p);
            assert(msgs.skip(1).len() == 0);
            assert(outcomes(None, msgs) =~= silent_then(0, p));
        } else {
            assert(p.bare().partial());
            assert(a.take(0) =~= Seq::empty());
            assert(p.bare() == (PacketView { attachments: Some(a.take(0)), ..p }));
            lemma_attachments_fed(p, 0);
            assert(outcomes(None, msgs) =~= silent_then((msgs.len() - 1) as nat, p));
        }
    } else {
        assert(p.bare() == p);
        assert(msgs.skip(1).len() == 0);
        assert(outcomes(None, msgs) =~= silent_then(0, p));
    }
}

/// A packet comes out of a step only with every attachment that it
/// announces, and a packet that waits afterwards still lacks one.
pub proof fn lemma_step_complete(pending: Option<PacketView>, m: EnginePacketView)
    requires
        pending matches Some(p) ==> p.partial(),
    ensures
        step(pending, m).1 matches Ok(Some(q)) ==> q.complete(),
        step(pending, m).0 matches Some(q) ==> q.partial(),
{
    if m.packet_id == EnginePacketId::Message && pending is None && !m.binary && decoded_header(
        m.data,
    ) is Ok {
        lemma_encode_decode_header(m.data);
    }
}

/// The header of a packet is UTF-8, where its namespace and its body are.
pub proof fn lemma_header_is_utf8(p: PacketView)
    requires
        valid_utf8(p.nsp),
        p.data matches Some(d) ==> valid_utf8(d),
    ensures
        valid_utf8(p.header()),
{
    let empty = Seq::<u8>::empty();
    assert(valid_utf8(empty));
    assert(valid_utf8(p.data_wire()));
    assert(valid_utf8(p.id_wire())) by {
        if p.id is Some {
            crate::text::lemma_decimal_is_utf8(p.id->0 as nat);
        }
    }
    vstd::utf8::valid_utf8_concat(p.id_wire(), p.data_wire());
    assert(valid_utf8(p.nsp_wire())) by {
        if p.nsp != root() {
            crate::text::lemma_ascii_is_utf8(seq![COMMA]);
            vstd::utf8::valid_utf8_concat(p.nsp, seq![COMMA]);
        }
    }
    vstd::utf8::valid_utf8_concat(p.nsp_wire(), p.after_nsp());
    assert(valid_utf8(p.count_wire())) by {
        if p.packet_type.carries_binary() {
            crate::text::lemma_decimal_is_utf8(p.attachment_count as nat);
            crate::text::lemma_ascii_is_utf8(seq![DASH]);
            vstd::utf8::valid_utf8_concat(decimal(p.attachment_count as nat), seq![DASH]);
        }
    }
    vstd::utf8::valid_utf8_concat(p.count_wire(), p.after_count());
    crate::text::lemma_utf8_after_ascii(p.packet_type.digit(), p.after_kind());
}

/// The bodies of some messages.
pub open spec fn bodies(msgs: Seq<EnginePacketView>) -> Seq<Seq<u8>> {
    msgs.map_values(|m: EnginePacketView| m.data)
}

proof fn lemma_attachments_read(q: PacketView, rest: Seq<EnginePacketView>, p: PacketView)
    requires
        q.partial(),
        rest.len() > 0,
        outcomes(Some(q), rest) == silent_then((rest.len() - 1) as nat, p),
    ensures
        p == (PacketView { attachments: Some(q.attachments->0 + bodies(rest)), ..q }),
        forall|i: int| 0 <= i < rest.len() ==> rest[i] == binary_message(#[trigger] rest[i].data),
        p.complete(),
    decreases rest.len(),
{
    reveal_with_fuel(outcomes, 2);
    let m = rest[0];
    let fed = step(Some(q), m);
    let all = outcomes(Some(q), rest);
    let want = silent_then((rest.len() - 1) as nat, p);
    assert(all[0] == fed.1);
    assert(all[0] == want[0]);
    let next = q.with_attachment(m.data);
    if rest.len() == 1 {
        assert(fed.1 == Ok::<Option<PacketView>, Error>(Some(p)));
        assert(m == binary_message(m.data));
        assert(bodies(rest) =~= seq![m.data]);
        assert(q.attachments->0 + bodies(rest) =~= q.attachments->0.push(m.data));
    } else {
        assert(want[0] == Ok::<Option<PacketView>, Error>(None));
        assert(m == binary_message(m.data));
        assert(fed.0 == Some(next));
        let tail = rest.skip(1);
        assert(all.skip(1) =~= outcomes(Some(next), tail));
        assert(want.skip(1) =~= silent_then((tail.len() - 1) as nat, p));
        lemma_attachments_read(next, tail, p);
        assert(next.attachments->0 + bodies(tail) =~= q.attachments->0 + bodies(rest)) by {
            assert(bodies(rest) =~= seq![m.data] + bodies(tail));
        }
        assert forall|i: int| 0 <= i < rest.len() implies rest[i] == binary_message(
            #[trigger] rest[i].data,
        ) by {
            if i > 0 {
                assert(rest[i] == tail[i - 1]);
            }
        }
    }
}

/// Messages out of which a decoder with nothing waiting makes one packet,
/// with the last of them and not before, are the messages of that packet:
/// writing what was read gives what was read from.
pub proof fn lemma_encode_decode_stream(msgs: Seq<EnginePacketView>, p: PacketView)
    requires
        msgs.len() > 0,
        outcomes(None, msgs) == silent_then((msgs.len() - 1) as nat, p),
    ensures
        p.messages() == msgs,
        p.header_wf(),
        p.complete(),
{
    reveal_with_fuel(outcomes, 2);
    let m = msgs[0];
    let fed = step(None, m);
    let all = outcomes(None, msgs);
    let want = silent_then((msgs.len() - 1) as nat, p);
    assert(all[0] == fed.1);
    assert(all[0] == want[0]);
    assert(m == text_message(m.data));
    lemma_encode_decode_header(m.data);
    let q = decoded_header(m.data)->Ok_0;
    if msgs.len() == 1 {
        assert(fed.1 == Ok::<Option<PacketView>, Error>(Some(p)));
        assert(p == q);
        if p.packet_type.carries_binary() {
            assert(p.attachments->0.map_values(|b: Seq<u8>| binary_message(b)) =~= Seq::empty());
        }
        assert(p.messages() =~= msgs);
    } else {
        assert(want[0] == Ok::<Option<PacketView>, Error>(None));
        assert(fed.0 == Some(q));
        let tail = msgs.skip(1);
        assert(all.skip(1) =~= outcomes(Some(q), tail));
        assert(want.skip(1) =~= silent_then((tail.len() - 1) as nat, p));
        lemma_attachments_read(q, tail, p);
        assert(q.attachments->0 + bodies(tail) =~= bodies(tail));
        assert(p.header() == q.header());
        assert(p.attachments->0.map_values(|b: Seq<u8>| binary_message(b)) =~= tail);
        assert(p.messages() =~= msgs);
    }
}

} // verus!
