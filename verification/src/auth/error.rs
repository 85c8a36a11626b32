//! Errors of the zone table.
use crate::datasrc::error::DataSrcError;
use crate::name::Name;
use vstd::prelude::*;

verus! {

/// Why a change of the zone table was refused.
#[derive(Debug)]
pub enum AuthError {
    /// A zone of this name is already served.
    DuplicateZone(Name),
    /// No zone of this name is served.
    UnknownZone(Name),
    /// The zone's data was refused.
    InvalidZone(DataSrcError),
}

} // verus!
