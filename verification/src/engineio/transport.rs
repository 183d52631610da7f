//! The Engine.IO session without its I/O: which request to make next, what
//! an answer means, and in which phase the session is.

use crate::engineio::packet::{
    decode_payload, decoded_frame, decoded_payload, encode_payload, payload_wire, separable,
    views, Frame, Packet, PacketId, PacketView,
};
use crate::engineio::websocket::{
    frame_result, inbound_frame, upgraded, wire_bytes, AsyncWebsocketGeneralTransport,
    ProbeState, UpgradeEvent, WsMessage, WsMessageView,
};
use crate::error::Error;
use crate::outside::{random_seed, sha1_hex, sha1_hex_digest, url_is_valid, url_parses};
use crate::text::{append, blobs, copy_range, first_index, same};
use vstd::prelude::*;
use vstd::string::{StrSliceExecFns, StringSliceAdditionalSpecFns};

verus! {

pub const SLASH: u8 = 47;

/// Which transports the configuration admits.
#[derive(Debug, Clone, Copy, PartialEq, Eq, Structural)]
pub enum TransportType {
    Any,
    Polling,
    Websocket,
    WebsocketUpgrade,
}

/// The two backends.
#[derive(Debug, Clone, Copy, PartialEq, Eq, Structural)]
pub enum Channel {
    Polling,
    Websocket,
}

/// What to do once the handshake is known.
#[derive(Debug, Clone, Copy, PartialEq, Eq, Structural)]
pub enum Selection {
    /// Keep long-polling.
    StayPolling,
    /// Open a WebSocket with the session id and use it at once, without a
    /// probe.
    OpenWebsocket,
    /// Open a WebSocket and probe it before switching over.
    ProbeUpgrade,
}

/// Where the session stands.
#[derive(Debug, Clone, Copy, PartialEq, Eq, Structural)]
pub enum Phase {
    Disconnected,
    Handshaking,
    Polling,
    Upgrading,
    Websocket,
    Closing,
}

impl Phase {
    /// Whether packets can be sent and received in this phase.
    pub open spec fn connected(self) -> bool {
        self == Phase::Polling || self == Phase::Upgrading || self == Phase::Websocket
    }

    /// Whether packets can be sent and received in this phase.
    pub fn is_connected(self) -> (r: bool)
        ensures
            r == self.connected(),
    {
        match self {
            Phase::Polling => true,
            Phase::Upgrading => true,
            Phase::Websocket => true,
            _ => false,
        }
    }
}

/// What the server says in its OPEN packet.
#[derive(Debug, Clone)]
pub struct HandshakeData {
    pub sid: Vec<u8>,
    pub upgrades: Vec<Vec<u8>>,
    /// Milliseconds between two pings of the server.
    pub ping_interval: u64,
    /// Milliseconds that a ping may be late.
    pub ping_timeout: u64,
}

pub struct HandshakeView {
    pub sid: Seq<u8>,
    pub upgrades: Seq<Seq<u8>>,
    pub ping_interval: u64,
    pub ping_timeout: u64,
}

impl View for HandshakeData {
    type V = HandshakeView;

    open spec fn view(&self) -> HandshakeView {
        HandshakeView {
            sid: self.sid@,
            upgrades: blobs(self.upgrades@),
            ping_interval: self.ping_interval,
            ping_timeout: self.ping_timeout,
        }
    }
}

/// The upgrade that the server offers for a probe.
pub open spec fn websocket_name() -> Seq<u8> {
    "websocket".spec_bytes()
}

/// The decision on the transport, from the configuration and from the
/// upgrades that the server lists.
pub open spec fn selected(mode: TransportType, upgrades: Seq<Seq<u8>>) -> Selection {
    match mode {
        TransportType::Polling => Selection::StayPolling,
        TransportType::Websocket => Selection::OpenWebsocket,
        _ => if upgrades.contains(websocket_name()) {
            Selection::ProbeUpgrade
        } else {
            Selection::StayPolling
        },
    }
}

/// Decides on the transport.
pub fn select_transport(mode: TransportType, upgrades: &Vec<Vec<u8>>) -> (s: Selection)
    ensures
        s == selected(mode, blobs(upgrades@)),
{
    match mode {
        TransportType::Polling => Selection::StayPolling,
        TransportType::Websocket => Selection::OpenWebsocket,
        _ => {
            let name = "websocket".as_bytes_vec();
            let ghost list = blobs(upgrades@);
            let n = upgrades.len();
            let mut i: usize = 0;
            while i < n
                invariant
                    n == upgrades@.len(),
                    i <= n,
                    name@ == websocket_name(),
                    mode != TransportType::Polling,
                    mode != TransportType::Websocket,
                    list == blobs(upgrades@),
                    forall|j: int| 0 <= j < i ==> list[j] != websocket_name(),
                decreases n - i,
            {
                if same(upgrades[i].as_slice(), name.as_slice()) {
                    assert(list[i as int] == websocket_name());
                    return Selection::ProbeUpgrade;
                }
                i = i + 1;
            }
            Selection::StayPolling
        },
    }
}

/// The scheme of URL that an address has.
#[derive(Debug, Clone, Copy, PartialEq, Eq, Structural)]
pub enum Scheme {
    Http,
    Https,
    Ws,
    Wss,
}

/// Whether `s` begins with `prefix`.
pub open spec fn begins_with(s: Seq<u8>, prefix: Seq<u8>) -> bool {
    prefix.len() <= s.len() && s.take(prefix.len() as int) == prefix
}

/// Whether `s` begins with `prefix`.
pub fn starts_with(s: &[u8], prefix: &[u8]) -> (r: bool)
    ensures
        r == begins_with(s@, prefix@),
{
    if prefix.len() > s.len() {
        return false;
    }
    assert(s@.subrange(0, prefix@.len() as int) =~= s@.take(prefix@.len() as int));
    same(vstd::slice::slice_subrange(s, 0, prefix.len()), prefix)
}

/// The scheme of an address: one of `https://`, `http://`, `wss://`,
/// `ws://`, or none of them.
pub open spec fn scheme_of(address: Seq<u8>) -> Option<Scheme> {
    if begins_with(address, "https://".spec_bytes()) {
        Some(Scheme::Https)
    } else if begins_with(address, "http://".spec_bytes()) {
        Some(Scheme::Http)
    } else if begins_with(address, "wss://".spec_bytes()) {
        Some(Scheme::Wss)
    } else if begins_with(address, "ws://".spec_bytes()) {
        Some(Scheme::Ws)
    } else {
        None
    }
}

/// Reads the scheme of an address.
pub fn read_scheme(address: &[u8]) -> (r: Option<Scheme>)
    ensures
        r == scheme_of(address@),
{
    if starts_with(address, "https://".as_bytes_vec().as_slice()) {
        Some(Scheme::Https)
    } else if starts_with(address, "http://".as_bytes_vec().as_slice()) {
        Some(Scheme::Http)
    } else if starts_with(address, "wss://".as_bytes_vec().as_slice()) {
        Some(Scheme::Wss)
    } else if starts_with(address, "ws://".as_bytes_vec().as_slice()) {
        Some(Scheme::Ws)
    } else {
        None
    }
}

/// The address with the scheme of a WebSocket: `ws` for `http`, `wss` for
/// `https`. Any other address stays as it is.
pub open spec fn websocket_address(address: Seq<u8>) -> Seq<u8> {
    match scheme_of(address) {
        Some(Scheme::Https) => "wss://".spec_bytes() + address.skip(
            "https://".spec_bytes().len() as int,
        ),
        Some(Scheme::Http) => "ws://".spec_bytes() + address.skip(
            "http://".spec_bytes().len() as int,
        ),
        _ => address,
    }
}

/// Gives an address the scheme of a WebSocket.
pub fn to_websocket_address(address: &[u8]) -> (r: Vec<u8>)
    ensures
        r@ == websocket_address(address@),
{
    match read_scheme(address) {
        Some(Scheme::Https) => {
            let mut r = "wss://".as_bytes_vec();
            let skip = "https://".as_bytes_vec().len();
            assert(address@.subrange(skip as int, address@.len() as int) =~= address@.skip(
                skip as int,
            ));
            append(&mut r, vstd::slice::slice_subrange(address, skip, address.len()));
            r
        },
        Some(Scheme::Http) => {
            let mut r = "ws://".as_bytes_vec();
            let skip = "http://".as_bytes_vec().len();
            assert(address@.subrange(skip as int, address@.len() as int) =~= address@.skip(
                skip as int,
            ));
            append(&mut r, vstd::slice::slice_subrange(address, skip, address.len()));
            r
        },
        _ => {
            let r = copy_range(address, 0, address.len());
            assert(r@ =~= address@);
            r
        },
    }
}

/// The name of a backend in a query.
pub open spec fn channel_name(channel: Channel) -> Seq<u8> {
    match channel {
        Channel::Polling => "polling".spec_bytes(),
        Channel::Websocket => "websocket".spec_bytes(),
    }
}

/// The query of a request: `?EIO=4&transport=<backend>[&sid=<sid>]&t=<t>`.
pub open spec fn query(channel: Channel, sid: Option<Seq<u8>>, t: Seq<u8>) -> Seq<u8> {
    "?EIO=4&transport=".spec_bytes() + channel_name(channel) + (match sid {
        Some(s) => "&sid=".spec_bytes() + s,
        None => Seq::empty(),
    }) + "&t=".spec_bytes() + t
}

/// The path and query of a request at the usual endpoint:
/// `/engine.io/?EIO=4&transport=<backend>[&sid=<sid>]&t=<t>`.
pub open spec fn query_path(channel: Channel, sid: Option<Seq<u8>>, t: Seq<u8>) -> Seq<u8> {
    "/engine.io/".spec_bytes() + query(channel, sid, t)
}

/// The text of a scheme, with the `://` behind it.
pub open spec fn scheme_text(scheme: Scheme) -> Seq<u8> {
    match scheme {
        Scheme::Https => "https://".spec_bytes(),
        Scheme::Http => "http://".spec_bytes(),
        Scheme::Wss => "wss://".spec_bytes(),
        Scheme::Ws => "ws://".spec_bytes(),
    }
}

/// Where the path of an address begins: at the first `/` behind the scheme,
/// or at the end where there is none.
pub open spec fn path_start(address: Seq<u8>) -> int {
    match scheme_of(address) {
        Some(s) => scheme_text(s).len() + first_index(
            address.skip(scheme_text(s).len() as int),
            SLASH,
        ),
        None => address.len() as int,
    }
}

/// The URL of a request at `address`. An address without a path, or with
/// the path `/`, stands for the usual endpoint, `/engine.io/` at its origin.
/// An address with another path names the endpoint itself.
pub open spec fn request_url(
    address: Seq<u8>,
    channel: Channel,
    sid: Option<Seq<u8>>,
    t: Seq<u8>,
) -> Seq<u8> {
    if address.len() - path_start(address) <= 1 {
        address.take(path_start(address)) + query_path(channel, sid, t)
    } else {
        address + query(channel, sid, t)
    }
}

/// Writes the query of a request.
pub fn build_query(channel: Channel, sid: Option<&Vec<u8>>, t: &[u8]) -> (r: Vec<u8>)
    ensures
        r@ == query(
            channel,
            match sid {
                Some(s) => Some(s@),
                None => None,
            },
            t@,
        ),
{
    let mut r = "?EIO=4&transport=".as_bytes_vec();
    match channel {
        Channel::Polling => {
            append(&mut r, "polling".as_bytes_vec().as_slice());
        },
        Channel::Websocket => {
            append(&mut r, "websocket".as_bytes_vec().as_slice());
        },
    }
    let ghost s1 = r@;
    match sid {
        Some(s) => {
            append(&mut r, "&sid=".as_bytes_vec().as_slice());
            append(&mut r, s.as_slice());
            assert(r@ =~= s1 + ("&sid=".spec_bytes() + s@));
        },
        None => {
            assert(r@ =~= s1 + Seq::<u8>::empty());
        },
    }
    append(&mut r, "&t=".as_bytes_vec().as_slice());
    append(&mut r, t);
    r
}

/// Writes the path and query of a request at the usual endpoint.
pub fn build_query_path(channel: Channel, sid: Option<&Vec<u8>>, t: &[u8]) -> (r: Vec<u8>)
    ensures
        r@ == query_path(
            channel,
            match sid {
                Some(s) => Some(s@),
                None => None,
            },
            t@,
        ),
{
    let mut r = "/engine.io/".as_bytes_vec();
    append(&mut r, build_query(channel, sid, t).as_slice());
    r
}

/// Finds where the path of an address begins.
pub fn find_path(address: &[u8]) -> (k: usize)
    ensures
        k == path_start(address@),
        k <= address@.len(),
{
    let skip = match read_scheme(address) {
        Some(Scheme::Https) => "https://".as_bytes_vec().len(),
        Some(Scheme::Http) => "http://".as_bytes_vec().len(),
        Some(Scheme::Wss) => "wss://".as_bytes_vec().len(),
        Some(Scheme::Ws) => "ws://".as_bytes_vec().len(),
        None => {
            return address.len();
        },
    };
    crate::text::find(address, skip, SLASH)
}

/// Writes the URL of a request at `address`.
pub fn build_request_url(address: &[u8], channel: Channel, sid: Option<&Vec<u8>>, t: &[u8]) -> (r:
    Vec<u8>)
    ensures
        r@ == request_url(
            address@,
            channel,
            match sid {
                Some(s) => Some(s@),
                None => None,
            },
            t@,
        ),
{
    let k = find_path(address);
    if address.len() - k <= 1 {
        let mut r = copy_range(address, 0, k);
        assert(address@.subrange(0, k as int) =~= address@.take(k as int));
        append(&mut r, build_query_path(channel, sid, t).as_slice());
        r
    } else {
        let mut r = copy_range(address, 0, address.len());
        assert(r@ =~= address@);
        append(&mut r, build_query(channel, sid, t).as_slice());
        r
    }
}

/// A fresh cache-buster for a request: the SHA-1 digest, in hexadecimal, of
/// thirty-two random bytes. It has forty characters.
pub fn get_random_t() -> (t: Vec<u8>)
    ensures
        t@.len() == 40,
        exists|seed: Seq<u8>| seed.len() == 32 && t@ == #[trigger] sha1_hex(seed),
{
    let seed = random_seed();
    sha1_hex_digest(seed.as_slice())
}

/// Which callbacks are registered.
#[derive(Debug, Clone, Copy, PartialEq, Eq, Structural)]
pub struct Callbacks {
    pub on_error: bool,
    pub on_open: bool,
    pub on_close: bool,
    pub on_data: bool,
    pub on_packet: bool,
}

/// What the session asks for after an inbound packet.
#[derive(Debug, Clone)]
pub enum Reaction {
    /// Hand the packet to the `on_packet` callback.
    Packet(Packet),
    /// Hand the body of a MESSAGE to the `on_data` callback.
    Data(Vec<u8>),
    /// Send this packet to the server.
    Send(Packet),
    /// Call the `on_close` callback: the server has closed the session.
    Close,
}

/// What a handshake leads to.
#[derive(Debug, Clone, Copy, PartialEq, Eq, Structural)]
pub struct Opened {
    /// The decision on the transport.
    pub selection: Selection,
    /// Whether the `on_open` callback is to be called: it is registered.
    pub call_on_open: bool,
}

/// What the round of a polling loop leads to.
#[derive(Debug, Clone, Copy, PartialEq, Eq, Structural)]
pub struct Verdict {
    /// What the loop does next.
    pub cycle: Cycle,
    /// Whether the `on_error` callback is to be called with what the error
    /// says: the round ended with an error, and the callback is registered.
    pub call_on_error: bool,
}

pub enum ReactionView {
    Packet(PacketView),
    Data(Seq<u8>),
    Send(PacketView),
    Close,
}

impl View for Reaction {
    type V = ReactionView;

    open spec fn view(&self) -> ReactionView {
        match self {
            Reaction::Packet(p) => ReactionView::Packet(p@),
            Reaction::Data(d) => ReactionView::Data(d@),
            Reaction::Send(p) => ReactionView::Send(p@),
            Reaction::Close => ReactionView::Close,
        }
    }
}

/// The views of a list of reactions.
pub open spec fn reactions(v: Seq<Reaction>) -> Seq<ReactionView> {
    v.map_values(|r: Reaction| r@)
}

/// What to hand to the transport for one outbound packet.
#[derive(Debug, Clone)]
pub enum Outgoing {
    /// A POST of `body` to `url`.
    Post { url: Vec<u8>, body: Vec<u8> },
    /// A message for the WebSocket.
    Message(WsMessage),
}

pub enum OutgoingView {
    Post { url: Seq<u8>, body: Seq<u8> },
    Message(WsMessageView),
}

impl View for Outgoing {
    type V = OutgoingView;

    open spec fn view(&self) -> OutgoingView {
        match self {
            Outgoing::Post { url, body } => OutgoingView::Post { url: url@, body: body@ },
            Outgoing::Message(m) => OutgoingView::Message(m@),
        }
    }
}

/// How far the connection has come, the backend aside.
#[derive(Debug, Clone, Copy, PartialEq, Eq, Structural)]
pub enum Stage {
    Disconnected,
    Handshaking,
    Connected,
    Closing,
}

/// The phase of a session at a stage whose WebSocket, if it has one, has
/// come as far as `probe` says: a connected session is on the WebSocket once
/// the switch is made, upgrading while the probe is out, and polling
/// otherwise.
pub open spec fn phase_of(stage: Stage, probe: Option<ProbeState>) -> Phase {
    match stage {
        Stage::Disconnected => Phase::Disconnected,
        Stage::Handshaking => Phase::Handshaking,
        Stage::Closing => Phase::Closing,
        Stage::Connected => match probe {
            Some(ProbeState::Upgraded) => Phase::Websocket,
            Some(ProbeState::Probing) => Phase::Upgrading,
            _ => Phase::Polling,
        },
    }
}

/// The session of one client.
pub struct TransportClient {
    transport: TransportType,
    callbacks: Callbacks,
    stage: Stage,
    websocket: Option<AsyncWebsocketGeneralTransport>,
    address: Option<Vec<u8>>,
    connection_data: Option<HandshakeData>,
    last_ping: u64,
}

/// What a session is, as a mathematical value.
pub struct TransportView {
    pub transport: TransportType,
    pub callbacks: Callbacks,
    pub phase: Phase,
    /// How far the probe of the WebSocket has come; `None` where no
    /// WebSocket is open.
    pub probe: Option<ProbeState>,
    pub address: Option<Seq<u8>>,
    pub handshake: Option<HandshakeView>,
    /// The reading of the clock at the last ping, or at the handshake.
    pub last_ping: u64,
}

impl View for TransportClient {
    type V = TransportView;

    closed spec fn view(&self) -> TransportView {
        TransportView {
            transport: self.transport,
            callbacks: self.callbacks,
            phase: phase_of(
                self.stage,
                match self.websocket {
                    Some(w) => Some(w.probe_state()),
                    None => None,
                },
            ),
            probe: match self.websocket {
                Some(w) => Some(w.probe_state()),
                None => None,
            },
            address: match self.address {
                Some(a) => Some(a@),
                None => None,
            },
            handshake: match self.connection_data {
                Some(h) => Some(h@),
                None => None,
            },
            last_ping: self.last_ping,
        }
    }
}

impl TransportView {
    /// A session that is under way knows its address, and a connected one
    /// its handshake; and the phase of a connected session is the one that
    /// goes with the probe of its WebSocket.
    pub open spec fn wf(self) -> bool {
        &&& self.phase != Phase::Disconnected ==> self.address is Some
        &&& self.phase.connected() ==> self.handshake is Some
        &&& self.phase.connected() ==> self.phase == phase_of(Stage::Connected, self.probe)
    }

    /// The URL of a polling request with the cache-buster `t`.
    pub open spec fn polling_url(self, t: Seq<u8>) -> Seq<u8> {
        request_url(self.address->0, Channel::Polling, Some(self.handshake->0.sid), t)
    }

    /// The URL at which the WebSocket of this session is opened.
    pub open spec fn websocket_url(self, t: Seq<u8>) -> Seq<u8> {
        request_url(
            websocket_address(self.address->0),
            Channel::Websocket,
            Some(self.handshake->0.sid),
            t,
        )
    }

    /// The moment from which the server's ping is overdue.
    pub open spec fn ping_deadline(self) -> int {
        self.last_ping + self.handshake->0.ping_interval + self.handshake->0.ping_timeout
    }
}

/// The CLOSE packet.
pub open spec fn close_packet() -> PacketView {
    PacketView { packet_id: PacketId::Close, binary: false, data: Seq::empty() }
}

/// The PONG that answers a PING with `body`.
pub open spec fn pong(body: Seq<u8>) -> PacketView {
    PacketView { packet_id: PacketId::Pong, binary: false, data: body }
}

/// What one inbound packet does to a session at `now`: the session
/// afterwards and what it asks for, in order. Every packet goes to
/// `on_packet`, where that is registered. The body of a MESSAGE goes to
/// `on_data`, where that is registered. A PING is answered with a PONG of
/// the same body, and `now` is noted. A CLOSE ends the session: it is
/// closing afterwards, and `on_close` is called, where that is registered.
/// A session that is not connected passes every packet over.
pub open spec fn step(v: TransportView, p: PacketView, now: u64) -> (
    TransportView,
    Seq<ReactionView>,
) {
    if !v.phase.connected() {
        (v, Seq::empty())
    } else {
        let note = if v.callbacks.on_packet {
            seq![ReactionView::Packet(p)]
        } else {
            Seq::empty()
        };
        match p.packet_id {
            PacketId::Message => (
                v,
                if v.callbacks.on_data {
                    note.push(ReactionView::Data(p.data))
                } else {
                    note
                },
            ),
            PacketId::Ping => (
                TransportView { last_ping: now, ..v },
                note.push(ReactionView::Send(pong(p.data))),
            ),
            PacketId::Close => (
                TransportView { phase: Phase::Closing, ..v },
                if v.callbacks.on_close {
                    note.push(ReactionView::Close)
                } else {
                    note
                },
            ),
            _ => (v, note),
        }
    }
}

/// What the packets of `ps` do to a session, one after the other.
pub open spec fn run(v: TransportView, ps: Seq<PacketView>, now: u64) -> (
    TransportView,
    Seq<ReactionView>,
)
    decreases ps.len(),
{
    if ps.len() == 0 {
        (v, Seq::empty())
    } else {
        let before = run(v, ps.drop_last(), now);
        let last = step(before.0, ps.last(), now);
        (last.0, before.1 + last.1)
    }
}

/// Inbound packets take effect in the order of the wire: what two batches do
/// one after the other is what their concatenation does, and the reactions
/// to the first batch come before those to the second.
pub proof fn lemma_run_in_order(v: TransportView, a: Seq<PacketView>, b: Seq<PacketView>, now: u64)
    ensures
        run(v, a + b, now) == (
            run(run(v, a, now).0, b, now).0,
            run(v, a, now).1 + run(run(v, a, now).0, b, now).1,
        ),
    decreases b.len(),
{
    if b.len() == 0 {
        assert(a + b =~= a);
        assert(run(v, a, now).1 + Seq::<ReactionView>::empty() =~= run(v, a, now).1);
    } else {
        lemma_run_in_order(v, a, b.drop_last(), now);
        assert((a + b).drop_last() =~= a + b.drop_last());
        assert((a + b).last() == b.last());
        let first = run(v, a, now);
        let most = run(first.0, b.drop_last(), now);
        let last = step(most.0, b.last(), now);
        assert(first.1 + most.1 + last.1 =~= first.1 + (most.1 + last.1));
    }
}

/// The body of the OPEN packet at the front of a response, for which the
/// handshake is read; `None` where the response cannot be read or does not
/// begin with an OPEN packet.
pub open spec fn handshake_body(response: Seq<u8>) -> Option<Seq<u8>> {
    match decoded_payload(response) {
        Ok(ps) => if ps.len() > 0 && ps[0].packet_id == PacketId::Open && !ps[0].binary {
            Some(ps[0].data)
        } else {
            None
        },
        Err(_) => None,
    }
}

/// Takes the body of the OPEN packet from the first response of a session.
/// A response that does not begin with one is a `HandshakeError`, which
/// carries the response.
pub fn read_handshake(response: &[u8]) -> (r: Result<Vec<u8>, Error>)
    ensures
        match r {
            Ok(body) => handshake_body(response@) == Some(body@),
            Err(e) => handshake_body(response@) is None && (e matches Error::HandshakeError(x)
                && x@ == response@),
        },
{
    let copy = copy_range(response, 0, response.len());
    assert(copy@ =~= response@);
    match decode_payload(response) {
        Err(_) => Err(Error::HandshakeError(copy)),
        Ok(ps) => {
            if ps.len() > 0 && ps[0].packet_id == PacketId::Open && !ps[0].binary {
                assert(views(ps@)[0] == ps@[0]@);
                let body = copy_range(ps[0].data.as_slice(), 0, ps[0].data.len());
                assert(body@ =~= ps@[0].data@);
                Ok(body)
            } else {
                assert(ps@.len() > 0 ==> views(ps@)[0] == ps@[0]@);
                Err(Error::HandshakeError(copy))
            }
        },
    }
}

/// Whether a status is one of success. Any other is an `HttpError` that
/// carries it.
pub fn check_status(status: u16) -> (r: Result<(), Error>)
    ensures
        match r {
            Ok(_) => 200 <= status < 300,
            Err(e) => !(200 <= status < 300) && e == Error::HttpError(status),
        },
{
    if 200 <= status && status < 300 {
        Ok(())
    } else {
        Err(Error::HttpError(status))
    }
}

/// What is handed to the transport for `p` in a session, with `t` as the
/// cache-buster of a request. A session that is not connected refuses with
/// `ActionBeforeOpen`, and a packet that is not well formed, or whose text
/// holds a record separator, with `InvalidPacket`. On the WebSocket the
/// packet goes as one message: the raw body of a binary packet, the text of
/// any other. While polling, and while the probe is out, it goes as the body
/// of a POST.
pub open spec fn emission(v: TransportView, p: PacketView, t: Seq<u8>) -> Result<
    OutgoingView,
    Error,
> {
    if !v.phase.connected() || v.address is None || v.handshake is None {
        Err(Error::ActionBeforeOpen)
    } else if !(p.wf() && separable(p)) {
        Err(Error::InvalidPacket)
    } else if v.phase == Phase::Websocket {
        Ok(OutgoingView::Message(WsMessageView { binary: p.binary, data: wire_bytes(p) }))
    } else {
        Ok(OutgoingView::Post { url: v.polling_url(t), body: payload_wire(seq![p]) })
    }
}

/// A session that is not yet opened: for long-polling, with no callback.
pub open spec fn fresh_session() -> TransportView {
    TransportView {
        transport: TransportType::Polling,
        callbacks: Callbacks {
            on_error: false,
            on_open: false,
            on_close: false,
            on_data: false,
            on_packet: false,
        },
        phase: Phase::Disconnected,
        probe: None,
        address: None,
        handshake: None,
        last_ping: 0,
    }
}

/// What was handed out, as a mathematical value.
pub open spec fn outgoing_result(r: Result<Outgoing, Error>) -> Result<OutgoingView, Error> {
    match r {
        Ok(o) => Ok(o@),
        Err(e) => Err(e),
    }
}

impl TransportClient {
    /// Whether the session is well formed.
    pub open spec fn wf(&self) -> bool {
        self@.wf()
    }

    /// A session that is not yet opened, for long-polling, with no callback.
    pub fn new() -> (c: TransportClient)
        ensures
            c@ == fresh_session(),
            c.wf(),
    {
        TransportClient {
            transport: TransportType::Polling,
            callbacks: Callbacks {
                on_error: false,
                on_open: false,
                on_close: false,
                on_data: false,
                on_packet: false,
            },
            stage: Stage::Disconnected,
            websocket: None,
            address: None,
            connection_data: None,
            last_ping: 0,
        }
    }

    /// Where the session stands.
    pub fn phase(&self) -> (p: Phase)
        ensures
            p == self@.phase,
    {
        match self.stage {
            Stage::Disconnected => Phase::Disconnected,
            Stage::Handshaking => Phase::Handshaking,
            Stage::Closing => Phase::Closing,
            Stage::Connected => match &self.websocket {
                Some(w) => match w.state() {
                    ProbeState::Upgraded => Phase::Websocket,
                    ProbeState::Probing => Phase::Upgrading,
                    _ => Phase::Polling,
                },
                None => Phase::Polling,
            },
        }
    }

    /// Whether packets can be sent and received.
    pub fn is_connected(&self) -> (r: bool)
        ensures
            r == self@.phase.connected(),
    {
        self.phase().is_connected()
    }

    /// Which callbacks are registered.
    pub fn callbacks(&self) -> (c: Callbacks)
        ensures
            c == self@.callbacks,
    {
        self.callbacks
    }

    /// The handshake of the session, once it is known.
    pub fn connection_data(&self) -> (h: &Option<HandshakeData>)
        ensures
            match h {
                Some(d) => self@.handshake == Some(d@),
                None => self@.handshake is None,
            },
    {
        &self.connection_data
    }

    /// Sets which callbacks are registered. Once the session is opened this
    /// is refused with `IllegalActionAfterOpen`, and nothing changes.
    pub fn set_callbacks(&mut self, callbacks: Callbacks) -> (r: Result<(), Error>)
        ensures
            match r {
                Ok(_) => old(self)@.phase == Phase::Disconnected && final(self)@ == (TransportView {
                    callbacks,
                    ..old(self)@
                }),
                Err(e) => old(self)@.phase != Phase::Disconnected && e
                    == Error::IllegalActionAfterOpen && final(self)@ == old(self)@,
            },
    {
        if !(self.stage == Stage::Disconnected) {
            return Err(Error::IllegalActionAfterOpen);
        }
        self.callbacks = callbacks;
        Ok(())
    }

    /// Sets which transports the session may use. Once the session is opened
    /// this is refused with `IllegalActionAfterOpen`, and nothing changes.
    pub fn set_transport_type(&mut self, transport: TransportType) -> (r: Result<(), Error>)
        ensures
            match r {
                Ok(_) => old(self)@.phase == Phase::Disconnected && final(self)@ == (TransportView {
                    transport,
                    ..old(self)@
                }),
                Err(e) => old(self)@.phase != Phase::Disconnected && e
                    == Error::IllegalActionAfterOpen && final(self)@ == old(self)@,
            },
    {
        if !(self.stage == Stage::Disconnected) {
            return Err(Error::IllegalActionAfterOpen);
        }
        self.transport = transport;
        Ok(())
    }

    /// Opens the session at `address`, where `parses` says whether the URL
    /// of the first request is one: gives that URL, a GET without session id
    /// and with `t` as its cache-buster, and waits for the handshake. A
    /// session that is connected already has nothing to do: `None`. An
    /// address whose scheme is none of `http`, `https`, `ws`, `wss`, or whose
    /// URL does not parse, is refused with `InvalidUrl`, and nothing changes.
    pub fn open_parsed(&mut self, address: Vec<u8>, t: &[u8], parses: bool) -> (r: Result<
        Option<Vec<u8>>,
        Error,
    >)
        ensures
            old(self).wf() ==> final(self).wf(),
            match r {
                Ok(None) => old(self)@.phase.connected() && final(self)@ == old(self)@,
                Ok(Some(url)) => {
                    &&& !old(self)@.phase.connected()
                    &&& scheme_of(address@) is Some
                    &&& parses
                    &&& url@ == request_url(address@, Channel::Polling, None, t@)
                    &&& final(self)@ == (TransportView {
                        phase: Phase::Handshaking,
                        address: Some(address@),
                        ..old(self)@
                    })
                },
                Err(e) => {
                    &&& !old(self)@.phase.connected()
                    &&& scheme_of(address@) is None || !parses
                    &&& e matches Error::InvalidUrl(a) && a@ == address@
                    &&& final(self)@ == old(self)@
                },
            },
    {
        if self.is_connected() {
            return Ok(None);
        }
        if read_scheme(address.as_slice()).is_none() || !parses {
            return Err(Error::InvalidUrl(address));
        }
        let url = build_request_url(address.as_slice(), Channel::Polling, None, t);
        self.address = Some(address);
        self.stage = Stage::Handshaking;
        Ok(Some(url))
    }

    /// Opens the session at `address`, as `open_parsed` does, with the URL
    /// of the first request put to the parser of URLs.
    pub fn open(&mut self, address: Vec<u8>, t: &[u8]) -> (r: Result<Option<Vec<u8>>, Error>)
        ensures
            old(self).wf() ==> final(self).wf(),
            match r {
                Ok(None) => old(self)@.phase.connected() && final(self)@ == old(self)@,
                Ok(Some(url)) => {
                    &&& !old(self)@.phase.connected()
                    &&& scheme_of(address@) is Some
                    &&& url@ == request_url(address@, Channel::Polling, None, t@)
                    &&& url_parses(url@)
                    &&& final(self)@ == (TransportView {
                        phase: Phase::Handshaking,
                        address: Some(address@),
                        ..old(self)@
                    })
                },
                Err(e) => {
                    &&& !old(self)@.phase.connected()
                    &&& scheme_of(address@) is None || !url_parses(
                        request_url(address@, Channel::Polling, None, t@),
                    )
                    &&& e matches Error::InvalidUrl(a) && a@ == address@
                    &&& final(self)@ == old(self)@
                },
            },
    {
        let url = build_request_url(address.as_slice(), Channel::Polling, None, t);
        let parses = url_is_valid(url.as_slice());
        self.open_parsed(address, t, parses)
    }

    /// Takes the handshake that was read from the body of the OPEN packet,
    /// at `now`: the session is connected over polling. The decision on the
    /// transport comes back, and whether `on_open` is to be called, which it
    /// is where it is registered. A session that does not wait for a
    /// handshake refuses with `IllegalActionAfterOpen`, and nothing changes.
    pub fn handshake(&mut self, data: HandshakeData, now: u64) -> (r: Result<Opened, Error>)
        ensures
            old(self).wf() ==> final(self).wf(),
            match r {
                Ok(opened) => {
                    &&& old(self)@.phase == Phase::Handshaking
                    &&& opened.selection == selected(old(self)@.transport, data@.upgrades)
                    &&& opened.call_on_open == old(self)@.callbacks.on_open
                    &&& final(self)@ == (TransportView {
                        phase: Phase::Polling,
                        probe: None,
                        handshake: Some(data@),
                        last_ping: now,
                        ..old(self)@
                    })
                },
                Err(e) => old(self)@.phase != Phase::Handshaking && e
                    == Error::IllegalActionAfterOpen && final(self)@ == old(self)@,
            },
    {
        if !(self.stage == Stage::Handshaking) {
            return Err(Error::IllegalActionAfterOpen);
        }
        let selection = select_transport(self.transport, &data.upgrades);
        self.connection_data = Some(data);
        self.websocket = None;
        self.last_ping = now;
        self.stage = Stage::Connected;
        Ok(Opened { selection, call_on_open: self.callbacks.on_open })
    }

    /// Gives up a handshake whose response could not be read: the session is
    /// disconnected again, and the error is a `HandshakeError` that carries
    /// the response.
    pub fn handshake_failed(&mut self, response: Vec<u8>) -> (e: Error)
        ensures
            e matches Error::HandshakeError(x) && x@ == response@,
            final(self)@ == (TransportView {
                phase: if old(self)@.phase == Phase::Handshaking {
                    Phase::Disconnected
                } else {
                    old(self)@.phase
                },
                ..old(self)@
            }),
    {
        if self.stage == Stage::Handshaking {
            self.stage = Stage::Disconnected;
        }
        Error::HandshakeError(response)
    }

    /// What to hand to the transport for `packet`, with `t` as the
    /// cache-buster of a request.
    pub fn emit(&self, packet: &Packet, t: &[u8]) -> (r: Result<Outgoing, Error>)
        ensures
            outgoing_result(r) == emission(self@, packet@, t@),
    {
        if !self.is_connected() {
            return Err(Error::ActionBeforeOpen);
        }
        let (address, data) = match (&self.address, &self.connection_data) {
            (Some(a), Some(d)) => (a, d),
            _ => {
                return Err(Error::ActionBeforeOpen);
            },
        };
        if !(packet.is_wf() && packet.is_separable()) {
            return Err(Error::InvalidPacket);
        }
        match &self.websocket {
            Some(w) => {
                if w.state() == ProbeState::Upgraded {
                    let bytes = if packet.binary {
                        let b = copy_range(packet.data.as_slice(), 0, packet.data.len());
                        assert(b@ =~= packet.data@);
                        b
                    } else {
                        proof {
                            crate::text::lemma_utf8_after_ascii(
                                packet@.packet_id.digit(),
                                packet@.data,
                            );
                        }
                        packet.encode()
                    };
                    return match w.emit(bytes, packet.binary) {
                        Ok(m) => Ok(Outgoing::Message(m)),
                        Err(e) => Err(e),
                    };
                }
            },
            None => {},
        }
        let url = build_request_url(address.as_slice(), Channel::Polling, Some(&data.sid), t);
        let mut one: Vec<Packet> = Vec::new();
        one.push(packet.duplicate());
        assert(views(one@) =~= seq![packet@]);
        Ok(Outgoing::Post { url, body: encode_payload(&one) })
    }
}

/// The phase of a connected session whose WebSocket has come as far as
/// `state` says.
pub open spec fn probe_phase(state: ProbeState) -> Phase {
    phase_of(Stage::Connected, Some(state))
}

impl TransportClient {
    /// The URL of the next polling GET, with `t` as its cache-buster. A
    /// session that is not connected refuses with `ActionBeforeOpen`.
    pub fn poll_request(&self, t: &[u8]) -> (r: Result<Vec<u8>, Error>)
        ensures
            match r {
                Ok(url) => self@.phase.connected() && self@.address is Some && self@.handshake
                    is Some && url@ == self@.polling_url(t@),
                Err(e) => e == Error::ActionBeforeOpen && !(self@.phase.connected()
                    && self@.address is Some && self@.handshake is Some),
            },
    {
        if !self.is_connected() {
            return Err(Error::ActionBeforeOpen);
        }
        match (&self.address, &self.connection_data) {
            (Some(address), Some(data)) => {
                Ok(build_request_url(address.as_slice(), Channel::Polling, Some(&data.sid), t))
            },
            _ => Err(Error::ActionBeforeOpen),
        }
    }

    /// Takes one inbound packet at `now`. The session afterwards and what it
    /// asks for are those of `step`.
    pub fn on_packet(&mut self, packet: &Packet, now: u64) -> (r: Vec<Reaction>)
        ensures
            (final(self)@, reactions(r@)) == step(old(self)@, packet@, now),
            old(self).wf() ==> final(self).wf(),
    {
        let mut r: Vec<Reaction> = Vec::new();
        assert(reactions(r@) =~= Seq::empty());
        if !self.is_connected() {
            return r;
        }
        if self.callbacks.on_packet {
            r.push(Reaction::Packet(packet.duplicate()));
            assert(reactions(r@) =~= seq![ReactionView::Packet(packet@)]);
        }
        let ghost note = reactions(r@);
        match packet.packet_id {
            PacketId::Message => {
                if self.callbacks.on_data {
                    let body = copy_range(packet.data.as_slice(), 0, packet.data.len());
                    assert(body@ =~= packet.data@);
                    r.push(Reaction::Data(body));
                    assert(reactions(r@) =~= note.push(ReactionView::Data(packet@.data)));
                }
            },
            PacketId::Ping => {
                let body = copy_range(packet.data.as_slice(), 0, packet.data.len());
                assert(body@ =~= packet.data@);
                r.push(Reaction::Send(Packet::new(PacketId::Pong, body)));
                assert(reactions(r@) =~= note.push(ReactionView::Send(pong(packet@.data))));
                self.last_ping = now;
            },
            PacketId::Close => {
                if self.callbacks.on_close {
                    r.push(Reaction::Close);
                    assert(reactions(r@) =~= note.push(ReactionView::Close));
                }
                self.stage = Stage::Closing;
            },
            _ => {},
        }
        r
    }

    /// Takes the packets of `ps` at `now`, one after the other.
    fn on_packets(&mut self, ps: &Vec<Packet>, now: u64) -> (r: Vec<Reaction>)
        ensures
            (final(self)@, reactions(r@)) == run(old(self)@, views(ps@), now),
            old(self).wf() ==> final(self).wf(),
    {
        let mut r: Vec<Reaction> = Vec::new();
        let n = ps.len();
        let mut i: usize = 0;
        assert(reactions(r@) =~= Seq::empty());
        assert(views(ps@).take(0) =~= Seq::empty());
        while i < n
            invariant
                n == ps@.len(),
                i <= n,
                (self@, reactions(r@)) == run(old(self)@, views(ps@).take(i as int), now),
                old(self).wf() ==> self.wf(),
            decreases n - i,
        {
            let ghost before = reactions(r@);
            let mut more = self.on_packet(&ps[i], now);
            let ghost added = reactions(more@);
            r.append(&mut more);
            proof {
                let t = views(ps@).take(i + 1);
                assert(t.drop_last() =~= views(ps@).take(i as int));
                assert(t.last() == ps@[i as int]@);
                assert(reactions(r@) =~= before + added);
            }
            i = i + 1;
        }
        assert(views(ps@).take(n as int) =~= views(ps@));
        r
    }

    /// Takes the body of a polling response at `now`. A session that is not
    /// connected refuses with `ActionBeforeOpen`. Once the switch to the
    /// WebSocket is made, what still comes over polling is passed over. A
    /// body that cannot be read gives the error of `decode_payload`, and
    /// nothing changes. Otherwise the session afterwards and what it asks
    /// for are those of `run` over the packets of the body.
    pub fn poll(&mut self, response: &[u8], now: u64) -> (r: Result<Vec<Reaction>, Error>)
        ensures
            old(self).wf() ==> final(self).wf(),
            match r {
                Ok(list) => old(self)@.phase.connected() && if old(self)@.phase
                    == Phase::Websocket {
                    final(self)@ == old(self)@ && reactions(list@) == Seq::<ReactionView>::empty()
                } else {
                    decoded_payload(response@) is Ok && (final(self)@, reactions(list@)) == run(
                        old(self)@,
                        decoded_payload(response@)->Ok_0,
                        now,
                    )
                },
                Err(e) => final(self)@ == old(self)@ && if !old(self)@.phase.connected() {
                    e == Error::ActionBeforeOpen
                } else {
                    old(self)@.phase != Phase::Websocket && decoded_payload(response@) == Err::<
                        Seq<PacketView>,
                        Error,
                    >(e)
                },
            },
    {
        match self.phase() {
            Phase::Websocket => {
                let r: Vec<Reaction> = Vec::new();
                assert(reactions(r@) =~= Seq::empty());
                return Ok(r);
            },
            Phase::Polling => {},
            Phase::Upgrading => {},
            _ => {
                return Err(Error::ActionBeforeOpen);
            },
        }
        match decode_payload(response) {
            Err(e) => Err(e),
            Ok(ps) => Ok(self.on_packets(&ps, now)),
        }
    }

    /// Takes a frame that came over the WebSocket at `now`. A frame that
    /// cannot be read gives the error of `Packet::decode_frame`, and nothing
    /// changes. Otherwise the session afterwards and what it asks for are
    /// those of `step` for the packet of the frame.
    pub fn on_frame(&mut self, frame: &Frame, now: u64) -> (r: Result<Vec<Reaction>, Error>)
        ensures
            old(self).wf() ==> final(self).wf(),
            match r {
                Ok(list) => decoded_frame(frame@) is Ok && (final(self)@, reactions(list@))
                    == step(old(self)@, decoded_frame(frame@)->Ok_0, now),
                Err(e) => decoded_frame(frame@) == Err::<PacketView, Error>(e) && final(self)@
                    == old(self)@,
            },
    {
        match Packet::decode_frame(frame) {
            Err(e) => Err(e),
            Ok(p) => Ok(self.on_packet(&p, now)),
        }
    }

    /// Looks at the clock: a connected session whose server has sent no
    /// ping for longer than the ping interval and the ping timeout together
    /// is closing, with `Timeout`. Otherwise nothing changes.
    pub fn check_heartbeat(&mut self, now: u64) -> (r: Result<(), Error>)
        ensures
            old(self).wf() ==> final(self).wf(),
            match r {
                Ok(_) => final(self)@ == old(self)@ && !(old(self)@.phase.connected()
                    && old(self)@.handshake is Some && now > old(self)@.ping_deadline()),
                Err(e) => {
                    &&& e == Error::Timeout
                    &&& old(self)@.phase.connected()
                    &&& old(self)@.handshake is Some
                    &&& now > old(self)@.ping_deadline()
                    &&& final(self)@ == (TransportView { phase: Phase::Closing, ..old(self)@ })
                },
            },
    {
        if !self.is_connected() {
            return Ok(());
        }
        let late = match &self.connection_data {
            None => false,
            Some(d) => {
                let elapsed = if now >= self.last_ping {
                    now - self.last_ping
                } else {
                    0
                };
                elapsed > d.ping_interval && elapsed - d.ping_interval > d.ping_timeout
            },
        };
        if late {
            self.stage = Stage::Closing;
            Err(Error::Timeout)
        } else {
            Ok(())
        }
    }

    /// Closes the session: gives what to hand to the transport for the
    /// CLOSE packet, with `t` as the cache-buster of a request, where the
    /// session is connected; and the session is disconnected.
    pub fn close(&mut self, t: &[u8]) -> (r: Option<Outgoing>)
        ensures
            final(self).wf(),
            final(self)@ == (TransportView {
                phase: Phase::Disconnected,
                probe: None,
                ..old(self)@
            }),
            match r {
                Some(o) => emission(old(self)@, close_packet(), t@) == Ok::<OutgoingView, Error>(
                    o@,
                ),
                None => emission(old(self)@, close_packet(), t@) is Err,
            },
    {
        let empty: Vec<u8> = Vec::new();
        assert(empty@ =~= Seq::<u8>::empty());
        let r = match self.emit(&Packet::new(PacketId::Close, empty), t) {
            Ok(o) => Some(o),
            Err(_) => None,
        };
        self.stage = Stage::Disconnected;
        self.websocket = None;
        r
    }

    /// Gives the URL at which the WebSocket of the session is opened, with
    /// `t` as its cache-buster: the address with the scheme of a WebSocket,
    /// and the session id in the query. A `direct` WebSocket is used at
    /// once; any other waits for its probe, and polling goes on. Only a
    /// session that is connected over polling, with no WebSocket yet, can
    /// open one: any other refuses with `ActionBeforeOpen`.
    pub fn open_websocket(&mut self, direct: bool, t: &[u8]) -> (r: Result<Vec<u8>, Error>)
        ensures
            old(self).wf() ==> final(self).wf(),
            match r {
                Ok(url) => {
                    &&& old(self)@.phase == Phase::Polling
                    &&& old(self)@.probe is None
                    &&& old(self)@.address is Some
                    &&& old(self)@.handshake is Some
                    &&& url@ == old(self)@.websocket_url(t@)
                    &&& final(self)@ == (TransportView {
                        phase: if direct {
                            Phase::Websocket
                        } else {
                            Phase::Polling
                        },
                        probe: Some(
                            if direct {
                                ProbeState::Upgraded
                            } else {
                                ProbeState::Idle
                            },
                        ),
                        ..old(self)@
                    })
                },
                Err(e) => {
                    &&& e == Error::ActionBeforeOpen
                    &&& final(self)@ == old(self)@
                    &&& !(old(self)@.phase == Phase::Polling && old(self)@.probe is None
                        && old(self)@.address is Some && old(self)@.handshake is Some)
                },
            },
    {
        if !(self.stage == Stage::Connected) || self.websocket.is_some() {
            return Err(Error::ActionBeforeOpen);
        }
        let url = match (&self.address, &self.connection_data) {
            (Some(address), Some(data)) => {
                let ws_address = to_websocket_address(address.as_slice());
                build_request_url(ws_address.as_slice(), Channel::Websocket, Some(&data.sid), t)
            },
            _ => {
                return Err(Error::ActionBeforeOpen);
            },
        };
        self.websocket = Some(AsyncWebsocketGeneralTransport::new(direct));
        Ok(url)
    }

    /// Takes the next event of the probe of the WebSocket. The probe of a
    /// connected session with a WebSocket moves as `upgraded` says, from the
    /// state in which it is: the frame to send comes back, and with the
    /// UPGRADE packet the session is on the WebSocket. Any other session
    /// refuses with `ActionBeforeOpen`, and nothing changes.
    pub fn upgrade(&mut self, event: &UpgradeEvent) -> (r: Result<Frame, Error>)
        ensures
            old(self).wf() ==> final(self).wf(),
            if old(self)@.phase.connected() && old(self)@.probe is Some {
                &&& frame_result(r) == upgraded(old(self)@.probe->0, event@).1
                &&& final(self)@ == (TransportView {
                    phase: probe_phase(upgraded(old(self)@.probe->0, event@).0),
                    probe: Some(upgraded(old(self)@.probe->0, event@).0),
                    ..old(self)@
                })
            } else {
                r == Err::<Frame, Error>(Error::ActionBeforeOpen) && final(self)@ == old(self)@
            },
    {
        if !(self.stage == Stage::Connected) {
            return Err(Error::ActionBeforeOpen);
        }
        let mut taken: Option<AsyncWebsocketGeneralTransport> = None;
        core::mem::swap(&mut taken, &mut self.websocket);
        match taken {
            None => Err(Error::ActionBeforeOpen),
            Some(mut w) => {
                let r = w.upgrade(event);
                self.websocket = Some(w);
                r
            },
        }
    }

    /// Reads a message that came over the WebSocket as the frame that it
    /// is, as `AsyncWebsocketGeneralTransport::poll` does; `None` stands for
    /// the end of the stream. A session without a WebSocket refuses with
    /// `ActionBeforeOpen`.
    pub fn read_message(&self, message: Option<WsMessage>) -> (r: Result<Frame, Error>)
        ensures
            frame_result(r) == if self@.probe is Some {
                inbound_frame(
                    match message {
                        Some(m) => Some(m@),
                        None => None,
                    },
                )
            } else {
                Err(Error::ActionBeforeOpen)
            },
    {
        match &self.websocket {
            Some(w) => w.poll(message),
            None => Err(Error::ActionBeforeOpen),
        }
    }
}

/// Decides what the loop that polls does after one round: it ends when the
/// round ended well, it fails on an error of HTTP or of the transport, and
/// it goes on after any other error.
#[derive(Debug, Clone, Copy, PartialEq, Eq, Structural)]
pub enum Cycle {
    Stop,
    Fail,
    Retry,
}

/// What the polling loop does after a round that ended with `outcome`.
pub open spec fn cycle_after(outcome: Result<(), Error>) -> Cycle {
    match outcome {
        Ok(_) => Cycle::Stop,
        Err(Error::HttpError(_)) => Cycle::Fail,
        Err(Error::TransportIoError) => Cycle::Fail,
        Err(_) => Cycle::Retry,
    }
}

/// What the polling loop does after a round that ended with `outcome`.
pub fn after_poll_cycle(outcome: &Result<(), Error>) -> (c: Cycle)
    ensures
        c == cycle_after(*outcome),
{
    match outcome {
        Ok(_) => Cycle::Stop,
        Err(Error::HttpError(_)) => Cycle::Fail,
        Err(Error::TransportIoError) => Cycle::Fail,
        Err(_) => Cycle::Retry,
    }
}

impl TransportClient {
    /// Takes the outcome of one round of the polling loop and says what the
    /// loop does next. An error on which the loop fails is fatal: a session
    /// that is under way is closing afterwards. Otherwise nothing changes.
    /// Every error is for the `on_error` callback, where that is registered.
    pub fn after_cycle(&mut self, outcome: &Result<(), Error>) -> (v: Verdict)
        ensures
            v.cycle == cycle_after(*outcome),
            v.call_on_error == (outcome is Err && old(self)@.callbacks.on_error),
            old(self).wf() ==> final(self).wf(),
            final(self)@ == if v.cycle == Cycle::Fail && old(self)@.phase != Phase::Disconnected {
                TransportView { phase: Phase::Closing, ..old(self)@ }
            } else {
                old(self)@
            },
    {
        let cycle = after_poll_cycle(outcome);
        if cycle == Cycle::Fail && !(self.stage == Stage::Disconnected) {
            self.stage = Stage::Closing;
        }
        Verdict { cycle, call_on_error: outcome.is_err() && self.callbacks.on_error }
    }
}

} // verus!
