//! The protocol core of a Socket.IO client over Engine.IO.
//!
//! Nothing in this crate opens a socket, reads a clock or calls a callback.
//! It decides: which bytes a packet is, which request comes next, what an
//! answer means, whom to call with which payload, which acks are still
//! outstanding. Whoever drives it performs the requests, hands in what came
//! back together with the time, and makes the calls that it asks for.
//!
//! - [`engineio`] holds the lower layer: the packets and their wire forms,
//!   the session with its handshake, heartbeat and upgrade to a WebSocket.
//! - [`socketio`] holds the upper layer: the packets with their namespaces
//!   and attachments, the events, and the client that dispatches them.
//! - [`builder`] holds the socket that ties both together.
//! - [`outside`] holds the few calls into other crates, which are believed
//!   and not proved. Every other function is verified against its contract.

pub mod base64;
pub mod builder;
pub mod engineio;
pub mod error;
pub mod outside;
pub mod socketio;
pub mod text;

pub use builder::{Socket, SocketBuilder};
pub use engineio::socket::EngineSocket;
pub use engineio::transport::TransportClient;
pub use socketio::client::{Ack, Client};
