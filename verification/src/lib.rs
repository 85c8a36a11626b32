//! A DNS server library: domain names and resource records, an authoritative
//! in-memory zone store, record and message caches with trust levels, response
//! classification and name-server selection for a recursive resolver, and the
//! length-prefixed framing used on DNS-over-TCP connections.
pub mod auth;
pub mod cache;
pub mod clock;
pub mod lru_store;
pub mod name;
pub mod seqs;
pub mod resolver;
pub mod rr;
pub mod server;
pub mod datasrc;
pub mod message;
