//! The authoritative server: the zones it serves and its answers to queries.
pub mod error;
pub mod zones;
pub mod auth_server;
pub mod dynamic_server;
