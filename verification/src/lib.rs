//! Real-time message-distribution core of a chat service.
//!
//! The crate keeps track of which users are connected, which broadcast
//! channels each of them has joined, and which channels the process is
//! subscribed to on the shared bus; it decodes the wire protocol and drives
//! the per-connection session state machine.  All I/O (the websocket
//! transport, the bus, the identity and directory services) stays outside:
//! callers perform it and feed the results back in as plain values.

pub mod api;
pub mod bridge;
pub mod json;
pub mod membership;
pub mod protocol;
pub mod session;
