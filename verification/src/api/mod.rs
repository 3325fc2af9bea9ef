//! Client-facing interfaces: the outbound webhook and the push socket.

pub mod http;
pub mod websocket;
