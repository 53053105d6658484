//! Core of a browser-to-browser chat client: the signaling wire codec, the
//! candidate-buffering negotiation coordinator, and the data-channel policy.
//!
//! The library is pure decision logic.  Everything that touches the browser
//! (the peer-connection primitive, the relay socket, timers) lives outside;
//! it feeds events in and carries the returned actions out.

pub mod channel;
pub mod codec;
pub mod protocol;
pub mod session;
