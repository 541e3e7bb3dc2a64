//! Core of a line-oriented chat client: the wire codec for framed text
//! messages, and the handshake / heartbeat state machine that drives one
//! connection.  All socket and channel plumbing lives outside this crate;
//! the functions here compute on plain values and carry full contracts.

pub mod connection;
pub mod message;
