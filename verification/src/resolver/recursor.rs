//! The recursive resolver: its cache and its store of name servers.
use crate::message::Message;
use crate::resolver::cache::MessageCache;
use crate::resolver::nsas::ns_address_store::NSAddressStore;
use crate::resolver::running_query::{RunningQuery, RunningQueryV};
use vstd::prelude::*;

verus! {

/// How many responses each of the resolver's caches keeps.
pub const DEFAULT_MESSAGE_CACHE_SIZE: usize = 10000;

/// A recursive resolver.
pub struct Recursor {
    pub cache: MessageCache,
    pub nsas: NSAddressStore,
}

impl Recursor {
    /// A resolver with empty caches.
    pub fn new() -> (r: Recursor)
        ensures
            r.cache.wf(),
            r.nsas.wf(),
            r.cache@.positive.capacity == DEFAULT_MESSAGE_CACHE_SIZE,
            r.cache@.negative.capacity == DEFAULT_MESSAGE_CACHE_SIZE,
            r.cache@.positive.messages.len() == 0,
            r.cache@.negative.messages.len() == 0,
    {
        Recursor { cache: MessageCache::new(DEFAULT_MESSAGE_CACHE_SIZE), nsas: NSAddressStore::new() }
    }

    /// A running query for `query` at nesting depth `depth`.
    pub fn new_query(&self, query: Message, depth: usize) -> (r: RunningQuery)
        requires
            query@.question is Some,
        ensures
            r@ == (RunningQueryV {
                current_name: query@.question.unwrap().0,
                current_type: query@.question.unwrap().1,
                current_zone: None,
                cname_depth: 0,
                query: Some(query@),
                response: Some(query@),
                depth: depth as nat,
            }),
    {
        RunningQuery::new(query, depth)
    }

    /// A running query for a client's query: nesting depth 1.
    pub fn handle_query(&self, query: Message) -> (r: RunningQuery)
        requires
            query@.question is Some,
        ensures
            r@ == (RunningQueryV {
                current_name: query@.question.unwrap().0,
                current_type: query@.question.unwrap().1,
                current_zone: None,
                cname_depth: 0,
                query: Some(query@),
                response: Some(query@),
                depth: 1,
            }),
    {
        RunningQuery::new(query, 1)
    }
}

} // verus!
