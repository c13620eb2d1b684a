//! Proxied streams and the table that holds them.

pub mod backlog;
pub mod cancel;
pub mod early;
pub mod stream;
