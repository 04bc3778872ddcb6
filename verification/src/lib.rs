//! In-memory core of a multi-room chat service.
//!
//! The crate owns the room registry (rooms, their rosters and their
//! append-only message history), the session registry (which live
//! connections are attached to which room), the per-connection session
//! state machine, and the broadcast fan-out that turns one inbound text
//! frame into a delivery for every session attached to the room plus one
//! history append.  Network transport, HTTP routing and JSON encoding are
//! left to the surrounding application; this crate works on plain values.

pub mod accounts;
pub mod dispatch;
pub mod rooms;
pub mod session;
pub mod sessions;
pub mod wire;
