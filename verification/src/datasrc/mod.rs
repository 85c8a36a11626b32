//! Authoritative zone data: record sets per owner name and lookups in a zone.
pub mod error;
pub mod rdataset;
pub mod zone;
pub mod memory_zone;
pub mod zone_loader;
