//! Errors of the recursive resolver.
use crate::resolver::nsas::address_entry::IpAddress;
use vstd::prelude::*;

verus! {

/// Why a recursive query failed.
#[derive(Debug)]
pub enum RecursorError {
    /// Sending the query or receiving the answer failed; the text says how.
    IoError(String),
    /// The server at this address did not answer in time.
    Timeout(IpAddress),
    /// The timer failed; the text says how.
    TimerErr(String),
    /// No server is known for any ancestor of the name.
    NoNameserver,
    /// Looking up the servers of a zone went too deep.
    LoopedQuery,
}

} // verus!
