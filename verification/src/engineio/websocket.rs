//! The WebSocket backend without its socket: what goes into a message, what
//! a message means, and the probe that precedes the switch from polling.

use crate::engineio::packet::{
    decoded_frame, Frame, FrameView, Packet, PacketId, PacketView, MESSAGE_TAG,
};
use crate::error::Error;
use crate::outside::is_utf8;
use crate::text::{append, same};
use vstd::prelude::*;
use vstd::string::{StrSliceExecFns, StringSliceAdditionalSpecFns};
use vstd::utf8::valid_utf8;

verus! {

/// One message of a WebSocket, as it is on the wire.
#[derive(Debug, Clone)]
pub struct WsMessage {
    pub binary: bool,
    pub data: Vec<u8>,
}

pub struct WsMessageView {
    pub binary: bool,
    pub data: Seq<u8>,
}

impl View for WsMessage {
    type V = WsMessageView;

    open spec fn view(&self) -> WsMessageView {
        WsMessageView { binary: self.binary, data: self.data@ }
    }
}

/// How far the probe of a WebSocket has come.
#[derive(Debug, Clone, Copy, PartialEq, Eq, Structural)]
pub enum ProbeState {
    /// Open, not yet probed.
    Idle,
    /// The probe is sent, its answer awaited.
    Probing,
    /// The switch is made: packets go over the WebSocket.
    Upgraded,
    /// The probe was not answered as it must be.
    Failed,
}

/// What happens to a WebSocket that is being probed.
#[derive(Debug, Clone)]
pub enum UpgradeEvent {
    /// The WebSocket was opened.
    Start,
    /// A message came in, already read as a frame; `None` where the stream
    /// ended instead.
    Reply(Option<Frame>),
}

pub enum UpgradeEventView {
    Start,
    Reply(Option<FrameView>),
}

impl View for UpgradeEvent {
    type V = UpgradeEventView;

    open spec fn view(&self) -> UpgradeEventView {
        match self {
            UpgradeEvent::Start => UpgradeEventView::Start,
            UpgradeEvent::Reply(Some(f)) => UpgradeEventView::Reply(Some(f@)),
            UpgradeEvent::Reply(None) => UpgradeEventView::Reply(None),
        }
    }
}

/// The body of the probe.
pub open spec fn probe_body() -> Seq<u8> {
    "probe".spec_bytes()
}

/// The PING that probes a WebSocket.
pub open spec fn probe() -> PacketView {
    PacketView { packet_id: PacketId::Ping, binary: false, data: probe_body() }
}

/// The PONG that answers the probe.
pub open spec fn probe_answer() -> PacketView {
    PacketView { packet_id: PacketId::Pong, binary: false, data: probe_body() }
}

/// The UPGRADE packet that makes the switch.
pub open spec fn upgrade_packet() -> PacketView {
    PacketView { packet_id: PacketId::Upgrade, binary: false, data: Seq::empty() }
}

/// What an event does to a probe: the state afterwards, and the frame to
/// send. On `Start` an idle WebSocket sends the probe. On the reply a
/// probing one sends the UPGRADE packet if the reply is the PONG of the
/// probe, and is upgraded; any other reply, and the end of the stream, is an
/// `IllegalWebsocketUpgrade`, and the probe has failed. An event that does
/// not fit the state is an `IllegalWebsocketUpgrade` too and changes nothing.
pub open spec fn upgraded(state: ProbeState, event: UpgradeEventView) -> (
    ProbeState,
    Result<FrameView, Error>,
) {
    match (state, event) {
        (ProbeState::Idle, UpgradeEventView::Start) => (ProbeState::Probing, Ok(probe().frame())),
        (ProbeState::Probing, UpgradeEventView::Reply(Some(f))) => if decoded_frame(f) == Ok::<
            PacketView,
            Error,
        >(probe_answer()) {
            (ProbeState::Upgraded, Ok(upgrade_packet().frame()))
        } else {
            (ProbeState::Failed, Err(Error::IllegalWebsocketUpgrade))
        },
        (ProbeState::Probing, UpgradeEventView::Reply(None)) => (
            ProbeState::Failed,
            Err(Error::IllegalWebsocketUpgrade),
        ),
        _ => (state, Err(Error::IllegalWebsocketUpgrade)),
    }
}

/// The frame of an outcome, as a mathematical value.
pub open spec fn frame_result(r: Result<Frame, Error>) -> Result<FrameView, Error> {
    match r {
        Ok(f) => Ok(f@),
        Err(e) => Err(e),
    }
}

/// The message that carries bytes over the wire: as they are, binary for an
/// attachment and text otherwise. Text that is not UTF-8 cannot go.
pub open spec fn outbound_message(data: Seq<u8>, is_binary_att: bool) -> Result<
    WsMessageView,
    Error,
> {
    if is_binary_att {
        Ok(WsMessageView { binary: true, data })
    } else if valid_utf8(data) {
        Ok(WsMessageView { binary: false, data })
    } else {
        Err(Error::InvalidPacket)
    }
}

/// The frame that an inbound message is: the bytes of a binary message
/// behind the tag of MESSAGE, those of a text message as they are. The end
/// of the stream is an `IncompletePacket`.
pub open spec fn inbound_frame(message: Option<WsMessageView>) -> Result<FrameView, Error> {
    match message {
        None => Err(Error::IncompletePacket),
        Some(m) => if m.binary {
            Ok(FrameView::Binary(seq![MESSAGE_TAG] + m.data))
        } else {
            Ok(FrameView::Text(m.data))
        },
    }
}

/// The message that puts a frame on the wire: the text of a text frame, and
/// of a binary frame the bytes behind its tag.
pub open spec fn frame_message(frame: FrameView) -> WsMessageView {
    match frame {
        FrameView::Text(t) => WsMessageView { binary: false, data: t },
        FrameView::Binary(b) => WsMessageView {
            binary: true,
            data: if b.len() > 0 {
                b.skip(1)
            } else {
                b
            },
        },
    }
}

/// Turns a frame into the message that puts it on the wire.
pub fn to_message(frame: Frame) -> (m: WsMessage)
    ensures
        m@ == frame_message(frame@),
{
    match frame {
        Frame::Text(t) => WsMessage { binary: false, data: t },
        Frame::Binary(b) => {
            if b.len() > 0 {
                let data = crate::text::copy_range(b.as_slice(), 1, b.len());
                assert(b@.subrange(1, b@.len() as int) =~= b@.skip(1));
                WsMessage { binary: true, data }
            } else {
                WsMessage { binary: true, data: b }
            }
        },
    }
}

/// The bytes that are handed to the WebSocket for a packet: the raw body of
/// a binary packet, the text of any other.
pub open spec fn wire_bytes(p: PacketView) -> Seq<u8> {
    if p.binary {
        p.data
    } else {
        seq![p.packet_id.digit()] + p.data
    }
}

/// A general purpose WebSocket transport.
pub struct AsyncWebsocketGeneralTransport {
    state: ProbeState,
}

impl AsyncWebsocketGeneralTransport {
    /// How far the probe has come.
    pub closed spec fn probe_state(&self) -> ProbeState {
        self.state
    }

    /// A WebSocket that was just opened. One that is `direct` is used
    /// without a probe; any other is idle until it is probed.
    pub fn new(direct: bool) -> (w: AsyncWebsocketGeneralTransport)
        ensures
            w.probe_state() == if direct {
                ProbeState::Upgraded
            } else {
                ProbeState::Idle
            },
    {
        AsyncWebsocketGeneralTransport {
            state: if direct {
                ProbeState::Upgraded
            } else {
                ProbeState::Idle
            },
        }
    }

    /// How far the probe has come.
    pub fn state(&self) -> (s: ProbeState)
        ensures
            s == self.probe_state(),
    {
        self.state
    }

    /// Takes the next event of the probe. The state afterwards and the frame
    /// to send are those of `upgraded`.
    pub fn upgrade(&mut self, event: &UpgradeEvent) -> (r: Result<Frame, Error>)
        ensures
            (final(self).probe_state(), frame_result(r)) == upgraded(
                old(self).probe_state(),
                event@,
            ),
    {
        match (self.state, event) {
            (ProbeState::Idle, UpgradeEvent::Start) => {
                self.state = ProbeState::Probing;
                Ok(Packet::new(PacketId::Ping, "probe".as_bytes_vec()).encode_frame())
            },
            (ProbeState::Probing, UpgradeEvent::Reply(Some(f))) => {
                let ok = match Packet::decode_frame(f) {
                    Ok(p) => p.packet_id == PacketId::Pong && !p.binary && same(
                        p.data.as_slice(),
                        "probe".as_bytes_vec().as_slice(),
                    ),
                    Err(_) => false,
                };
                if ok {
                    self.state = ProbeState::Upgraded;
                    let empty: Vec<u8> = Vec::new();
                    assert(empty@ =~= Seq::<u8>::empty());
                    Ok(Packet::new(PacketId::Upgrade, empty).encode_frame())
                } else {
                    self.state = ProbeState::Failed;
                    Err(Error::IllegalWebsocketUpgrade)
                }
            },
            (ProbeState::Probing, UpgradeEvent::Reply(None)) => {
                self.state = ProbeState::Failed;
                Err(Error::IllegalWebsocketUpgrade)
            },
            _ => Err(Error::IllegalWebsocketUpgrade),
        }
    }

    /// The message that carries `data` over the wire. Before the switch is
    /// made nothing may be sent: `ActionBeforeOpen`.
    pub fn emit(&self, data: Vec<u8>, is_binary_att: bool) -> (r: Result<WsMessage, Error>)
        ensures
            match r {
                Ok(m) => self.probe_state() == ProbeState::Upgraded && outbound_message(
                    data@,
                    is_binary_att,
                ) == Ok::<WsMessageView, Error>(m@),
                Err(e) => if self.probe_state() == ProbeState::Upgraded {
                    outbound_message(data@, is_binary_att) == Err::<WsMessageView, Error>(e)
                } else {
                    e == Error::ActionBeforeOpen
                },
            },
    {
        if !(self.state == ProbeState::Upgraded) {
            return Err(Error::ActionBeforeOpen);
        }
        if is_binary_att {
            Ok(WsMessage { binary: true, data })
        } else if is_utf8(data.as_slice()) {
            Ok(WsMessage { binary: false, data })
        } else {
            Err(Error::InvalidPacket)
        }
    }

    /// The frame that an inbound message is, or `IncompletePacket` at the
    /// end of the stream.
    pub fn poll(&self, message: Option<WsMessage>) -> (r: Result<Frame, Error>)
        ensures
            frame_result(r) == inbound_frame(
                match message {
                    Some(m) => Some(m@),
                    None => None,
                },
            ),
    {
        match message {
            None => Err(Error::IncompletePacket),
            Some(m) => {
                if m.binary {
                    let mut msg: Vec<u8> = Vec::new();
                    msg.push(MESSAGE_TAG);
                    append(&mut msg, m.data.as_slice());
                    Ok(Frame::Binary(msg))
                } else {
                    Ok(Frame::Text(m.data))
                }
            },
        }
    }
}

/// The message of the frame of a packet comes back, on the other side, as
/// that frame.
pub proof fn lemma_frame_round_trip(p: PacketView)
    ensures
        inbound_frame(Some(frame_message(p.frame()))) == Ok::<FrameView, Error>(p.frame()),
{
    if p.binary {
        assert((seq![MESSAGE_TAG] + p.data).skip(1) =~= p.data);
    }
}

/// What a well-formed packet puts on the wire comes back, on the other
/// side, as the frame of that packet.
pub proof fn lemma_wire_round_trip(p: PacketView)
    requires
        p.wf(),
    ensures
        outbound_message(wire_bytes(p), p.binary) is Ok,
        inbound_frame(Some(outbound_message(wire_bytes(p), p.binary)->Ok_0)) == Ok::<
            FrameView,
            Error,
        >(p.frame()),
{
    if !p.binary {
        crate::text::lemma_utf8_after_ascii(p.packet_id.digit(), p.data);
    }
}

} // verus!
