//! The socket that a user holds, and the builder that configures it.

use crate::engineio::packet::Packet as EnginePacket;
use crate::engineio::packet::PacketId as EnginePacketId;
use crate::engineio::packet::PacketView as EnginePacketView;
use crate::engineio::packet::views;
use crate::engineio::socket::EngineSocket;
use crate::engineio::transport::{
    fresh_session, request_url, scheme_of, Channel, Phase, TransportView,
};
use crate::error::Error;
use crate::outside::url_parses;
use crate::socketio::client::{
    ack_emission, calls, event_packet, next_items, plain_packet, polled, sendable, yielded,
    Client, ClientView, InvocationView, Polled, State, ACK_IDS,
};
use crate::socketio::event::{named, Event};
use crate::socketio::packet::{root, step, Decoder, PacketId, PacketView, SLASH};
use crate::socketio::payload::{Payload, PayloadView};
use crate::text::copy_range;
use vstd::prelude::*;

verus! {

/// A socket: the client of one namespace over one Engine.IO session.
pub struct Socket {
    address: Vec<u8>,
    client: Client,
    engine: EngineSocket,
    decoder: Decoder,
}

/// What a socket is, as a mathematical value.
pub struct SocketView {
    pub address: Seq<u8>,
    pub client: ClientView,
    pub engine: TransportView,
    /// The packet that waits for attachments, if any.
    pub waiting: Option<PacketView>,
}

impl View for Socket {
    type V = SocketView;

    closed spec fn view(&self) -> SocketView {
        SocketView {
            address: self.address@,
            client: self.client@,
            engine: self.engine@,
            waiting: self.decoder.pending(),
        }
    }
}

/// A socket that was just made for a namespace.
pub open spec fn fresh_socket(address: Seq<u8>, namespace: Seq<u8>) -> SocketView {
    SocketView {
        address,
        client: ClientView {
            nsp: namespace,
            registered: Seq::empty(),
            outstanding: Seq::empty(),
            state: State::Closed,
            outbound: Seq::empty(),
        },
        engine: fresh_session(),
        waiting: None,
    }
}

/// What one inbound Engine.IO packet does to a socket at `now`: the socket
/// afterwards, the calls to make, and the item to yield. A packet that is
/// no MESSAGE belongs to the session alone and is passed over. A MESSAGE
/// goes through the reassembly; a Socket.IO packet that comes out of it, and
/// an error, goes to the client as the next item of its stream.
pub open spec fn received(v: SocketView, m: EnginePacketView, now: u64) -> (
    SocketView,
    Seq<InvocationView>,
    Option<Result<PacketView, Error>>,
) {
    if m.packet_id != EnginePacketId::Message {
        (v, Seq::empty(), None)
    } else {
        received_message(v, m, now)
    }
}

/// What one inbound MESSAGE does to a socket at `now`.
pub open spec fn received_message(v: SocketView, m: EnginePacketView, now: u64) -> (
    SocketView,
    Seq<InvocationView>,
    Option<Result<PacketView, Error>>,
) {
    let fed = step(v.waiting, m);
    match fed.1 {
        Ok(None) => (SocketView { waiting: fed.0, ..v }, Seq::empty(), None),
        Ok(Some(p)) => {
            let next = polled(v.client, Ok(p), next_items(Ok(p)), now);
            (SocketView { waiting: fed.0, client: next.0, ..v }, next.1, next.2)
        },
        Err(e) => {
            let next = polled(v.client, Err(e), None, now);
            (SocketView { waiting: fed.0, client: next.0, ..v }, next.1, next.2)
        },
    }
}

impl Socket {
    /// A socket for `address` and `namespace`, not yet connected. Without a
    /// namespace it is the default one, `/`. A namespace that does not begin
    /// with `/` is refused with `IllegalNamespace`.
    pub fn new(address: Vec<u8>, namespace: Option<Vec<u8>>) -> (r: Result<Socket, Error>)
        ensures
            match r {
                Ok(s) => {
                    let nsp = match namespace {
                        Some(n) => n@,
                        None => root(),
                    };
                    nsp.len() > 0 && nsp[0] == SLASH && s@ == fresh_socket(address@, nsp)
                },
                Err(e) => namespace matches Some(n) && !(n@.len() > 0 && n@[0] == SLASH) && (
                e matches Error::IllegalNamespace(x) && x@ == n@),
            },
    {
        let nsp = match namespace {
            Some(n) => n,
            None => {
                let mut n: Vec<u8> = Vec::new();
                n.push(SLASH);
                assert(n@ =~= root());
                n
            },
        };
        let none: Vec<Event> = Vec::new();
        assert(crate::socketio::client::events(none@) =~= Seq::empty());
        match Client::new(nsp, none) {
            Err(e) => Err(e),
            Ok(client) => Ok(
                Socket { address, client, engine: EngineSocket::new(), decoder: Decoder::new() },
            ),
        }
    }

    /// The client of the socket.
    pub fn client(&self) -> (c: &Client)
        ensures
            c@ == self@.client,
    {
        &self.client
    }

    /// The client of the socket, to send payloads of either kind.
    pub fn client_mut(&mut self) -> (c: &mut Client)
        ensures
            c@ == old(self)@.client,
            final(self)@ == (SocketView { client: final(c)@, ..old(self)@ }),
    {
        &mut self.client
    }

    /// The Engine.IO socket underneath.
    pub fn engine(&mut self) -> (e: &mut EngineSocket)
        ensures
            e@ == old(self)@.engine,
            final(self)@ == (SocketView { engine: final(e)@, ..old(self)@ }),
    {
        &mut self.engine
    }

    /// Sets the namespace, as `Client::set_namespace` does.
    pub fn set_namespace(&mut self, namespace: Vec<u8>) -> (r: Result<(), Error>)
        ensures
            match r {
                Ok(_) => {
                    &&& namespace@.len() > 0 && namespace@[0] == SLASH
                    &&& old(self)@.client.state == State::Closed
                    &&& final(self)@ == (SocketView {
                        client: ClientView { nsp: namespace@, ..old(self)@.client },
                        ..old(self)@
                    })
                },
                Err(e) => final(self)@ == old(self)@ && if !(namespace@.len() > 0 && namespace@[0]
                    == SLASH) {
                    e matches Error::IllegalNamespace(n) && n@ == namespace@
                } else {
                    old(self)@.client.state != State::Closed && e == Error::IllegalActionAfterOpen
                },
            },
    {
        self.client.set_namespace(namespace)
    }

    /// Registers a callback for the event that `event` names. After
    /// `connect` this is refused with `IllegalActionAfterOpen`, and nothing
    /// changes.
    pub fn on(&mut self, event: &[u8]) -> (r: Result<(), Error>)
        ensures
            match r {
                Ok(_) => old(self)@.client.state == State::Closed && final(self)@ == (SocketView {
                    client: ClientView {
                        registered: old(self)@.client.registered.push(named(event@)),
                        ..old(self)@.client
                    },
                    ..old(self)@
                }),
                Err(e) => old(self)@.client.state != State::Closed && e
                    == Error::IllegalActionAfterOpen && final(self)@ == old(self)@,
            },
    {
        self.client.on(Event::from_name(event))
    }

    /// Connects the socket: the Engine.IO socket is bound to the address,
    /// and the client opens its namespace. Gives the URL of the first
    /// request, with `t` as its cache-buster. Where the bind is refused,
    /// its error comes back and nothing changes. Where the namespace cannot
    /// be opened, the session is closed again, and the error is
    /// `InvalidPacket`.
    pub fn connect(&mut self, t: &[u8]) -> (r: Result<Vec<u8>, Error>)
        ensures
            match r {
                Ok(url) => {
                    &&& old(self)@.engine.phase == Phase::Disconnected
                    &&& scheme_of(old(self)@.address) is Some
                    &&& url@ == request_url(old(self)@.address, Channel::Polling, None, t@)
                    &&& url_parses(url@)
                    &&& sendable(plain_packet(PacketId::Connect, old(self)@.client.nsp))
                    &&& final(self)@ == (SocketView {
                        engine: TransportView {
                            phase: Phase::Handshaking,
                            address: Some(old(self)@.address),
                            ..old(self)@.engine
                        },
                        client: ClientView {
                            state: State::Connecting,
                            ..old(self)@.client.sent(
                                plain_packet(PacketId::Connect, old(self)@.client.nsp),
                            )
                        },
                        ..old(self)@
                    })
                },
                Err(e) => final(self)@.client == old(self)@.client && final(self)@.address == old(
                    self,
                )@.address && final(self)@.waiting == old(self)@.waiting && if old(
                    self,
                )@.engine.phase != Phase::Disconnected {
                    e == Error::IllegalActionAfterOpen && final(self)@ == old(self)@
                } else if scheme_of(old(self)@.address) is None || !url_parses(
                    request_url(old(self)@.address, Channel::Polling, None, t@),
                ) {
                    (e matches Error::InvalidUrl(a) && a@ == old(self)@.address) && final(self)@
                        == old(self)@
                } else {
                    &&& e == Error::InvalidPacket
                    &&& !sendable(plain_packet(PacketId::Connect, old(self)@.client.nsp))
                    &&& final(self)@.engine == (TransportView {
                        phase: Phase::Disconnected,
                        probe: None,
                        address: Some(old(self)@.address),
                        ..old(self)@.engine
                    })
                },
            },
    {
        let address = copy_range(self.address.as_slice(), 0, self.address.len());
        assert(address@ =~= self.address@);
        let url = match self.engine.bind(address, t) {
            Ok(url) => url,
            Err(e) => {
                return Err(e);
            },
        };
        match self.client.connect() {
            Ok(_) => Ok(url),
            Err(e) => {
                self.engine.close(t);
                Err(e)
            },
        }
    }

    /// Sends `data` under the event that `event` names, as `Client::emit`
    /// does.
    pub fn emit(&mut self, event: &[u8], data: &[u8]) -> (r: Result<(), Error>)
        ensures
            final(self)@.address == old(self)@.address,
            final(self)@.engine == old(self)@.engine,
            final(self)@.waiting == old(self)@.waiting,
            match r {
                Ok(_) => {
                    &&& old(self)@.client.state != State::Closed
                    &&& sendable(
                        event_packet(
                            PayloadView::String(data@),
                            named(event@),
                            old(self)@.client.nsp,
                            None,
                        ),
                    )
                    &&& final(self)@.client == old(self)@.client.sent(
                        event_packet(
                            PayloadView::String(data@),
                            named(event@),
                            old(self)@.client.nsp,
                            None,
                        ),
                    )
                },
                Err(e) => {
                    &&& final(self)@.client == old(self)@.client
                    &&& if old(self)@.client.state == State::Closed {
                        e == Error::ActionBeforeOpen
                    } else {
                        e == Error::InvalidPacket && !sendable(
                            event_packet(
                                PayloadView::String(data@),
                                named(event@),
                                old(self)@.client.nsp,
                                None,
                            ),
                        )
                    }
                },
            },
    {
        let text = copy_range(data, 0, data.len());
        assert(text@ =~= data@);
        self.client.emit(Event::from_name(event), Payload::String(text))
    }

    /// Sends `data` under the event that `event` names and records an ack,
    /// as `Client::emit_with_ack` does.
    pub fn emit_with_ack(&mut self, event: &[u8], data: &[u8], timeout: u64, now: u64) -> (r:
        Result<i32, Error>)
        ensures
            final(self)@.address == old(self)@.address,
            final(self)@.engine == old(self)@.engine,
            final(self)@.waiting == old(self)@.waiting,
            exists|drawn: i32|
                0 <= drawn < ACK_IDS && (final(self)@.client, r) == #[trigger] ack_emission(
                    old(self)@.client,
                    named(event@),
                    PayloadView::String(data@),
                    timeout,
                    now,
                    drawn,
                ),
    {
        let text = copy_range(data, 0, data.len());
        assert(text@ =~= data@);
        self.client.emit_with_ack(Event::from_name(event), Payload::String(text), timeout, now)
    }

    /// Leaves the namespace, as `Client::disconnect` does: a DISCONNECT
    /// packet goes into the outbox, and the namespace is closed.
    pub fn disconnect(&mut self) -> (r: Result<(), Error>)
        ensures
            match r {
                Ok(_) => sendable(plain_packet(PacketId::Disconnect, old(self)@.client.nsp))
                    && final(self)@ == (SocketView {
                    client: ClientView {
                        state: State::Closed,
                        ..old(self)@.client.sent(
                            plain_packet(PacketId::Disconnect, old(self)@.client.nsp),
                        )
                    },
                    ..old(self)@
                }),
                Err(e) => !sendable(plain_packet(PacketId::Disconnect, old(self)@.client.nsp))
                    && e == Error::InvalidPacket && final(self)@ == old(self)@,
            },
    {
        self.client.disconnect()
    }

    /// Takes everything out of the outbox of the client, oldest first.
    pub fn take_outbound(&mut self) -> (ms: Vec<EnginePacket>)
        ensures
            views(ms@) == old(self)@.client.outbound,
            final(self)@ == (SocketView {
                client: ClientView { outbound: Seq::empty(), ..old(self)@.client },
                ..old(self)@
            }),
    {
        self.client.take_outbound()
    }

    /// Takes one inbound Engine.IO packet at `now`. The socket afterwards,
    /// the calls and the item to yield are those of `received`.
    pub fn receive(&mut self, message: &EnginePacket, now: u64) -> (r: Polled)
        ensures
            (final(self)@, calls(r.calls@), yielded(r.item)) == received(
                old(self)@,
                message@,
                now,
            ),
    {
        if !(message.packet_id == EnginePacketId::Message) {
            let none: Vec<crate::socketio::client::Invocation> = Vec::new();
            assert(calls(none@) =~= Seq::empty());
            return Polled { calls: none, item: None };
        }
        match self.decoder.feed(message) {
            Ok(None) => {
                let none: Vec<crate::socketio::client::Invocation> = Vec::new();
                assert(calls(none@) =~= Seq::empty());
                Polled { calls: none, item: None }
            },
            Ok(Some(p)) => self.client.poll_next(Ok(p), now),
            Err(e) => self.client.poll_next(Err(e), now),
        }
    }
}

/// A builder for a socket: it takes the namespace and the events to listen
/// to, and `connect` gives the socket.
pub struct SocketBuilder {
    socket: Socket,
}

impl View for SocketBuilder {
    type V = SocketView;

    closed spec fn view(&self) -> SocketView {
        self.socket@
    }
}

impl SocketBuilder {
    #[verifier::type_invariant]
    spec fn inv(self) -> bool {
        self.socket@.client.state == State::Closed
    }

    /// A builder for a socket at `address`, in the default namespace.
    pub fn new(address: Vec<u8>) -> (b: SocketBuilder)
        ensures
            b@ == fresh_socket(address@, root()),
    {
        match Socket::new(address, None) {
            Ok(socket) => SocketBuilder { socket },
            Err(_) => vstd::pervasive::unreached(),
        }
    }

    /// Sets the namespace of the socket. The namespace must begin with `/`:
    /// any other is refused with `IllegalNamespace`, which carries it.
    pub fn set_namespace(self, namespace: Vec<u8>) -> (r: Result<SocketBuilder, Error>)
        ensures
            match r {
                Ok(b) => namespace@.len() > 0 && namespace@[0] == SLASH && b@ == (SocketView {
                    client: ClientView { nsp: namespace@, ..self@.client },
                    ..self@
                }),
                Err(e) => !(namespace@.len() > 0 && namespace@[0] == SLASH) && (
                e matches Error::IllegalNamespace(n) && n@ == namespace@),
            },
    {
        proof {
            use_type_invariant(&self);
        }
        let mut socket = self.socket;
        match socket.set_namespace(namespace) {
            Ok(_) => Ok(SocketBuilder { socket }),
            Err(e) => Err(e),
        }
    }

    /// Registers a callback for the event that `event` names.
    pub fn on(self, event: &[u8]) -> (b: SocketBuilder)
        ensures
            b@ == (SocketView {
                client: ClientView {
                    registered: self@.client.registered.push(named(event@)),
                    ..self@.client
                },
                ..self@
            }),
    {
        proof {
            use_type_invariant(&self);
        }
        let mut socket = self.socket;
        match socket.on(event) {
            Ok(_) => SocketBuilder { socket },
            Err(_) => vstd::pervasive::unreached(),
        }
    }

    /// Connects the socket, as `Socket::connect` does, and gives it together
    /// with the URL of the first request.
    pub fn connect(self, t: &[u8]) -> (r: Result<(Socket, Vec<u8>), Error>)
        ensures
            match r {
                Ok((socket, url)) => {
                    &&& self@.engine.phase == Phase::Disconnected
                    &&& scheme_of(self@.address) is Some
                    &&& url@ == request_url(self@.address, Channel::Polling, None, t@)
                    &&& url_parses(url@)
                    &&& sendable(plain_packet(PacketId::Connect, self@.client.nsp))
                    &&& socket@ == (SocketView {
                        engine: TransportView {
                            phase: Phase::Handshaking,
                            address: Some(self@.address),
                            ..self@.engine
                        },
                        client: ClientView {
                            state: State::Connecting,
                            ..self@.client.sent(plain_packet(PacketId::Connect, self@.client.nsp))
                        },
                        ..self@
                    })
                },
                Err(e) => if self@.engine.phase != Phase::Disconnected {
                    e == Error::IllegalActionAfterOpen
                } else if scheme_of(self@.address) is None || !url_parses(
                    request_url(self@.address, Channel::Polling, None, t@),
                ) {
                    e matches Error::InvalidUrl(a) && a@ == self@.address
                } else {
                    e == Error::InvalidPacket && !sendable(
                        plain_packet(PacketId::Connect, self@.client.nsp),
                    )
                },
            },
    {
        let mut socket = self.socket;
        match socket.connect(t) {
            Ok(url) => Ok((socket, url)),
            Err(e) => Err(e),
        }
    }
}

} // verus!
