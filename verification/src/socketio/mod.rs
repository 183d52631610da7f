//! The Socket.IO layer: packets, events, and the client's decisions.

pub mod client;
pub mod event;
pub mod packet;
pub mod payload;
