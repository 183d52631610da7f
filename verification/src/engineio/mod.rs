//! The Engine.IO layer: packets, their wire forms, and the session.

pub mod packet;
pub mod socket;
pub mod transport;
pub mod websocket;
