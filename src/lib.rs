//! Verified core of a small OSC (Open Sound Control) client used to query
//! and drive a live audio-production process over UDP: the wire codec, the
//! typed decoding of replies, and the decisions of each request/reply
//! exchange. Sockets, files and processes live outside this crate.

pub mod error;
pub mod install;
pub mod protocol;
pub mod reply;
pub mod session;
pub mod wire;
