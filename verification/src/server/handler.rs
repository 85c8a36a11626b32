//! A query as the server passes it to a handler.
use crate::message::Message;
use crate::resolver::nsas::address_entry::IpAddress;
use vstd::prelude::*;

verus! {

/// A query: the client's address and port, the message, and whether a
/// handler answered it.
#[derive(Debug)]
pub struct Query {
    pub client: (IpAddress, u16),
    pub message: Message,
    pub done: bool,
}

impl Query {
    /// A query not answered yet.
    pub fn new(message: Message, client: (IpAddress, u16)) -> (r: Query)
        ensures
            r.client == client,
            r.message@ == message@,
            !r.done,
    {
        Query { client, message, done: false }
    }
}

} // verus!
