//! The error type shared by every layer of the client.

use crate::text::append;
use vstd::prelude::*;
use vstd::string::{StrSliceExecFns, StringSliceAdditionalSpecFns};

verus! {

/// Everything that can go wrong between a URL and a dispatched event.
#[derive(Debug, Clone)]
pub enum Error {
    /// The address does not parse, or its scheme is none of
    /// `http`, `https`, `ws`, `wss`. Carries the address.
    InvalidUrl(Vec<u8>),
    /// The namespace does not begin with `/`. Carries the namespace.
    IllegalNamespace(Vec<u8>),
    /// An HTTP request was answered with a status other than success.
    HttpError(u16),
    /// The socket or the TLS layer underneath failed.
    TransportIoError,
    /// The first record of the session was no well-formed OPEN packet.
    /// Carries the response.
    HandshakeError(Vec<u8>),
    /// The probe over a fresh WebSocket was not answered by a matching PONG.
    IllegalWebsocketUpgrade,
    /// A frame that the codec cannot parse.
    InvalidPacket,
    /// The stream ended in the middle of a frame or of the attachments.
    IncompletePacket,
    /// The operation needs a connected session.
    ActionBeforeOpen,
    /// A callback was registered after the connection was opened.
    IllegalActionAfterOpen,
    /// The server's heartbeat stayed away for too long.
    Timeout,
    /// Every ack id is taken by an ack that still waits for its answer.
    AcksExhausted,
}

impl Error {
    /// What the error says, as UTF-8 text: a fixed sentence, followed by the
    /// address, namespace, status or response that the error carries.
    pub open spec fn text(self) -> Seq<u8> {
        match self {
            Error::InvalidUrl(a) => "Invalid Url: ".spec_bytes() + a@,
            Error::IllegalNamespace(n) => "Specified namespace is not valid: ".spec_bytes() + n@,
            Error::HttpError(status) => "Error with http status code: ".spec_bytes()
                + crate::text::decimal(status as nat),
            Error::TransportIoError => "The underlying transport failed".spec_bytes(),
            Error::HandshakeError(r) => "Error during connection handshake: ".spec_bytes() + r@,
            Error::IllegalWebsocketUpgrade => "Did not receive an ack for the probe".spec_bytes(),
            Error::InvalidPacket => "Got an invalid packet".spec_bytes(),
            Error::IncompletePacket => "Got an incomplete packet".spec_bytes(),
            Error::ActionBeforeOpen => "Called an action before the connection was open"
                .spec_bytes(),
            Error::IllegalActionAfterOpen => "Called an action after the connection was open"
                .spec_bytes(),
            Error::Timeout => "The server did not send a ping in time".spec_bytes(),
            Error::AcksExhausted => "Every ack id is in use".spec_bytes(),
        }
    }

    /// What the error says.
    pub fn message(&self) -> (m: Vec<u8>)
        ensures
            m@ == self.text(),
    {
        match self {
            Error::InvalidUrl(a) => {
                let mut m = "Invalid Url: ".as_bytes_vec();
                append(&mut m, a.as_slice());
                m
            },
            Error::IllegalNamespace(n) => {
                let mut m = "Specified namespace is not valid: ".as_bytes_vec();
                append(&mut m, n.as_slice());
                m
            },
            Error::HttpError(status) => {
                let mut m = "Error with http status code: ".as_bytes_vec();
                crate::text::write_decimal(&mut m, *status as u32);
                m
            },
            Error::TransportIoError => "The underlying transport failed".as_bytes_vec(),
            Error::HandshakeError(r) => {
                let mut m = "Error during connection handshake: ".as_bytes_vec();
                append(&mut m, r.as_slice());
                m
            },
            Error::IllegalWebsocketUpgrade => "Did not receive an ack for the probe".as_bytes_vec(),
            Error::InvalidPacket => "Got an invalid packet".as_bytes_vec(),
            Error::IncompletePacket => "Got an incomplete packet".as_bytes_vec(),
            Error::ActionBeforeOpen => "Called an action before the connection was open"
                .as_bytes_vec(),
            Error::IllegalActionAfterOpen => "Called an action after the connection was open"
                .as_bytes_vec(),
            Error::Timeout => "The server did not send a ping in time".as_bytes_vec(),
            Error::AcksExhausted => "Every ack id is in use".as_bytes_vec(),
        }
    }
}

} // verus!
