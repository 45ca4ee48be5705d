//! An IRC bridge library: a wire codec for IRC lines, the keepalive and
//! registration decisions of a protocol client, the translation of IRC
//! traffic into chat-bus events, and the handshake bookkeeping of a process
//! orchestrator that multiplexes bridge children.
pub mod backend;
pub mod bridge;
pub mod chat;
pub mod client;
pub mod codec;
pub mod json;
pub mod message;
pub mod orchestrator;
pub mod round_trip;
pub mod wire;
