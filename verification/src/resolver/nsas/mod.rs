//! The name server address store: which servers serve a zone, their
//! addresses, and how fast each address answers.
pub mod address_entry;
pub mod address_selector;
pub mod error;

pub mod nameserver_entry;
pub mod zone_cache;
pub mod message_util;
pub mod ns_address_store;
pub mod nameserver_fetcher;
