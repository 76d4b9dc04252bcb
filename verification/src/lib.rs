//! Core of a synchronous request/response/notification server over a byte
//! stream: length-prefixed header framing, a three-shape message model,
//! the initialize/initialized handshake, the shutdown/exit state machine,
//! and the receive-dispatch-reply loop.

pub mod bytes;
pub mod cursor;
pub mod header;
pub mod json;
pub mod protocol;
pub mod server;
pub mod session;
