//! WebSocket: frames on the wire and the HTTP upgrade that precedes them.

pub mod codec;
pub mod outbound;
pub mod upgrade;
