//! Errors of zone data updates.
use crate::name::Name;
use crate::rr::{RData, RRType};
use vstd::prelude::*;

verus! {

/// Why an update of zone data was refused.
#[derive(Debug)]
pub enum DataSrcError {
    /// A CNAME cannot share its owner name with records of another type.
    CNameCoExistsWithOtherRR,
    /// The record set lies outside the zone.
    OutOfZone,
    /// No record set of this type exists at the name.
    RRsetNotFound(RRType),
    /// The record data does not exist in the record set.
    RdataNotFound(RData),
    /// The name does not exist in the zone.
    NameNotFound(Name),
    /// The record set has no record data.
    RRsetHasNoRdata,
    /// A CNAME or SOA record set must hold exactly one record.
    ExclusiveRRsetHasMoreThanOneRdata,
    /// The zone origin cannot be deleted.
    ZoneOrginNotAllowToDelete,
    /// The zone has no SOA record.
    ZoneShortOfSOA,
    /// The zone has no NS record.
    ZoneShortOfNS,
}

} // verus!
