//! The protocol core of a Wisp v2.1 proxy server.
//!
//! Everything that a proxy decides lives here: how Wisp packets and WebSocket frames are
//! read and written, which destinations a client may reach, who is let in, how streams are
//! tracked and how much of a write is still owed to a backend. Sockets, clocks and timers
//! stay with the caller, which hands in what it saw and carries out what is decided.

pub mod buffers;
pub mod clock;
pub mod net;
pub mod protocol;
pub mod proxy;
pub mod server;
pub mod text;
pub mod wire;
pub mod ws;
