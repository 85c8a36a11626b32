//! Outcomes and options of a lookup in a zone.
use vstd::prelude::*;

verus! {

/// The outcome of a lookup in a zone.
#[derive(PartialEq, Eq, Debug, Clone, Copy, Structural)]
pub enum FindResultType {
    Success,
    Delegation,
    NXDomain,
    NXRRset,
    CName,
    ServerFailed,
}

/// Whether a lookup stops at the first zone cut or looks below it for glue.
#[derive(PartialEq, Eq, Debug, Clone, Copy, Structural)]
pub enum FindOption {
    FollowZoneCut,
    GlueOK,
}

} // verus!
