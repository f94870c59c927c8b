//! Core of a media-key remote-control transport: length-prefixed framing
//! over a byte stream, a JSON envelope codec for the named messages that
//! ride inside the frames, the client connection state machine, the
//! liveness watchdogs on both ends of a connection, and the server-side
//! session registry with its authorization-gated broadcast relay.
//!
//! All I/O (sockets, channels, timers) lives outside this crate; the
//! functions here compute frames, parse them, and decide what a connection
//! must do next, and an embedding program performs those actions.

pub mod bytebuf;
pub mod control;
pub mod control_proto;
pub mod envelope;
pub mod frame;
pub mod errors;
pub mod json;
pub mod server;
pub mod server_proto;
pub mod util;
pub mod watchdog;
