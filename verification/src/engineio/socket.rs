//! The socket that the layer above talks to.

use crate::engineio::packet::{Packet, PacketId, PacketView};
use crate::engineio::transport::{
    close_packet, emission, fresh_session, outgoing_result, request_url, scheme_of, Callbacks,
    Channel, Outgoing, OutgoingView, Phase, TransportClient, TransportView,
};
use crate::error::Error;
use crate::outside::url_parses;
use vstd::prelude::*;

verus! {

/// An `engine.io` socket: a session, and the registration of its callbacks.
pub struct EngineSocket {
    transport_client: TransportClient,
}

impl View for EngineSocket {
    type V = TransportView;

    closed spec fn view(&self) -> TransportView {
        self.transport_client@
    }
}

/// The callbacks with one more registered.
pub open spec fn with_open(c: Callbacks) -> Callbacks {
    Callbacks { on_open: true, ..c }
}

pub open spec fn with_close(c: Callbacks) -> Callbacks {
    Callbacks { on_close: true, ..c }
}

pub open spec fn with_packet(c: Callbacks) -> Callbacks {
    Callbacks { on_packet: true, ..c }
}

pub open spec fn with_data(c: Callbacks) -> Callbacks {
    Callbacks { on_data: true, ..c }
}

pub open spec fn with_error(c: Callbacks) -> Callbacks {
    Callbacks { on_error: true, ..c }
}

/// What registering callbacks does: before the socket is bound the
/// callbacks are `callbacks`; afterwards the registration is refused with
/// `IllegalActionAfterOpen`, and nothing changes.
pub open spec fn registered(
    before: TransportView,
    callbacks: Callbacks,
    after: TransportView,
    r: Result<(), Error>,
) -> bool {
    match r {
        Ok(_) => before.phase == Phase::Disconnected && after == (TransportView {
            callbacks,
            ..before
        }),
        Err(e) => before.phase != Phase::Disconnected && e == Error::IllegalActionAfterOpen
            && after == before,
    }
}

impl EngineSocket {
    /// A socket that is not yet bound.
    pub fn new() -> (s: EngineSocket)
        ensures
            s@ == fresh_session(),
            s@.wf(),
    {
        EngineSocket { transport_client: TransportClient::new() }
    }

    /// Binds the socket to `address`: gives the URL of the first request,
    /// with `t` as its cache-buster. A socket that is bound already refuses
    /// with `IllegalActionAfterOpen`; an address that is no URL of a scheme
    /// `http`, `https`, `ws` or `wss` is an `InvalidUrl`. Nothing changes
    /// then. After a bind no callback can be registered.
    pub fn bind(&mut self, address: Vec<u8>, t: &[u8]) -> (r: Result<Vec<u8>, Error>)
        ensures
            old(self)@.wf() ==> final(self)@.wf(),
            match r {
                Ok(url) => {
                    &&& old(self)@.phase == Phase::Disconnected
                    &&& scheme_of(address@) is Some
                    &&& url@ == request_url(address@, Channel::Polling, None, t@)
                    &&& url_parses(url@)
                    &&& final(self)@ == (TransportView {
                        phase: Phase::Handshaking,
                        address: Some(address@),
                        ..old(self)@
                    })
                },
                Err(e) => final(self)@ == old(self)@ && if old(self)@.phase
                    != Phase::Disconnected {
                    e == Error::IllegalActionAfterOpen
                } else {
                    &&& scheme_of(address@) is None || !url_parses(
                        request_url(address@, Channel::Polling, None, t@),
                    )
                    &&& e matches Error::InvalidUrl(a) && a@ == address@
                },
            },
    {
        match self.transport_client.phase() {
            Phase::Disconnected => {},
            _ => {
                return Err(Error::IllegalActionAfterOpen);
            },
        }
        match self.transport_client.open(address, t) {
            Ok(Some(url)) => Ok(url),
            Ok(None) => Err(Error::IllegalActionAfterOpen),
            Err(e) => Err(e),
        }
    }

    /// What to hand to the transport for `packet`, with `t` as the
    /// cache-buster of a request. Before the socket is connected this is
    /// refused with `ActionBeforeOpen`.
    pub fn emit(&mut self, packet: Packet, t: &[u8]) -> (r: Result<Outgoing, Error>)
        ensures
            final(self)@ == old(self)@,
            outgoing_result(r) == emission(old(self)@, packet@, t@),
    {
        if !self.transport_client.is_connected() {
            return Err(Error::ActionBeforeOpen);
        }
        self.transport_client.emit(&packet, t)
    }

    /// What to hand to the transport for a binary attachment: a MESSAGE
    /// with the attachment as its binary body.
    pub fn emit_binary_attachment(&mut self, attachment: Vec<u8>, t: &[u8]) -> (r: Result<
        Outgoing,
        Error,
    >)
        ensures
            final(self)@ == old(self)@,
            outgoing_result(r) == emission(
                old(self)@,
                PacketView { packet_id: PacketId::Message, binary: true, data: attachment@ },
                t@,
            ),
    {
        if !self.transport_client.is_connected() {
            return Err(Error::ActionBeforeOpen);
        }
        let packet = Packet::new_binary(attachment);
        self.transport_client.emit(&packet, t)
    }

    /// Registers the `on_open` callback.
    pub fn on_open(&mut self) -> (r: Result<(), Error>)
        ensures
            registered(old(self)@, with_open(old(self)@.callbacks), final(self)@, r),
    {
        let c = self.transport_client.callbacks();
        self.transport_client.set_callbacks(Callbacks { on_open: true, ..c })
    }

    /// Registers the `on_close` callback.
    pub fn on_close(&mut self) -> (r: Result<(), Error>)
        ensures
            registered(old(self)@, with_close(old(self)@.callbacks), final(self)@, r),
    {
        let c = self.transport_client.callbacks();
        self.transport_client.set_callbacks(Callbacks { on_close: true, ..c })
    }

    /// Registers the `on_packet` callback.
    pub fn on_packet(&mut self) -> (r: Result<(), Error>)
        ensures
            registered(old(self)@, with_packet(old(self)@.callbacks), final(self)@, r),
    {
        let c = self.transport_client.callbacks();
        self.transport_client.set_callbacks(Callbacks { on_packet: true, ..c })
    }

    /// Registers the `on_data` callback.
    pub fn on_data(&mut self) -> (r: Result<(), Error>)
        ensures
            registered(old(self)@, with_data(old(self)@.callbacks), final(self)@, r),
    {
        let c = self.transport_client.callbacks();
        self.transport_client.set_callbacks(Callbacks { on_data: true, ..c })
    }

    /// Registers the `on_error` callback.
    pub fn on_error(&mut self) -> (r: Result<(), Error>)
        ensures
            registered(old(self)@, with_error(old(self)@.callbacks), final(self)@, r),
    {
        let c = self.transport_client.callbacks();
        self.transport_client.set_callbacks(Callbacks { on_error: true, ..c })
    }

    /// The session of the socket, to take the handshake, the responses and
    /// the frames of the transport.
    pub fn session(&mut self) -> (t: &mut TransportClient)
        ensures
            t@ == old(self)@,
            final(self)@ == final(t)@,
    {
        &mut self.transport_client
    }

    /// Closes the session, as `TransportClient::close` does: gives what to
    /// hand to the transport for the CLOSE packet, where the session is
    /// connected.
    pub fn close(&mut self, t: &[u8]) -> (r: Option<Outgoing>)
        ensures
            final(self)@.wf(),
            final(self)@ == (TransportView {
                phase: Phase::Disconnected,
                probe: None,
                ..old(self)@
            }),
            match r {
                Some(o) => emission(old(self)@, close_packet(), t@) == Ok::<OutgoingView, Error>(
                    o@,
                ),
                None => emission(old(self)@, close_packet(), t@) is Err,
            },
    {
        self.transport_client.close(t)
    }

    /// Whether the session is connected.
    pub fn is_connected(&self) -> (r: bool)
        ensures
            r == self@.phase.connected(),
    {
        self.transport_client.is_connected()
    }
}

} // verus!
