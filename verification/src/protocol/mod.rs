//! Wisp v2.1 packets: their types, how they are parsed and how they are built.

pub mod frame;
pub mod types;
