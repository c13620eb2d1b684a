//! The server: configuration, policy, and what a connection does with what it receives.

pub mod accept;
pub mod auth;
pub mod cli;
pub mod config;
pub mod connection;
pub mod dispatch;
pub mod dns;
pub mod engine;
pub mod security;
pub mod session;
