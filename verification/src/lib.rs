//! A minimal real-time chat relay core.
//!
//! The server keeps a single append-only message log shared by all
//! connections; each connection owns a read cursor into it.  Clients talk to
//! the server over one ordered connection with strict one-request /
//! one-response alternation.  This crate holds the verified core: the
//! protocol types, the wire codec, the message log, the server-side session
//! state machine and the client-side transport state machine.  Socket I/O,
//! threads and terminal handling live outside the library.

pub mod client;
pub mod codec;
pub mod message_log;
pub mod session;
pub mod socketevent;

pub use socketevent::{
    EntryView, EventView, Identity, IdentityState, IdentityStateView, LogEntry, SocketEvent,
};
