//! Errors of the name server address store.
use vstd::prelude::*;

verus! {

/// Why a response could not be used to learn name servers or addresses.
#[derive(Debug)]
pub enum NSASError {
    /// The response does not answer the query; the text says which query.
    InvalidNSResponse(String),
}

} // verus!
