//! The network core of a game server speaking protocol 754: the wire codec,
//! the packet catalog, framing and the per-connection protocol engine.
pub mod serial;
pub mod varint;
pub mod bstring;
pub mod chat;
pub mod packets;
pub mod frame;
pub mod connection;
pub mod config;
