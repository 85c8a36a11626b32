//! Caches of record sets and of whole responses, with the trust levels that
//! decide which of two answers for the same name and type is kept.
pub mod message_cache;
pub mod message_entry;
pub mod message_util;
pub mod rrset_cache;
pub mod rrset_entry;
pub mod trust_level;
