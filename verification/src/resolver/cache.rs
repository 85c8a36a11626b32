//! The resolver's cache: responses to questions, kept apart by whether they
//! are positive or negative, and the record sets they hold.
use crate::cache::message_cache::{answer_outcome, deepest_ns, lemma_deepest_ns_is_ancestor, response_sets_added, store_outcome, MessageCacheV, MessageLruCache};
use crate::cache::rrset_cache::add_entries;
use crate::cache::trust_level::RRsetTrustLevel as CacheTrustLevel;
use crate::clock::now_nanos;
use crate::message::{Message, MessageV};
use crate::name::{is_subdomain_of, Name};
use crate::resolver::message_classifier::{CategoryV, ResponseCategory};
use crate::rr::{RRType, RRset, RRsetV};
use vstd::prelude::*;

verus! {

/// The trust level of a record set the resolver caches, from the least to
/// the most trusted.
#[derive(Clone, Copy, Debug, PartialEq, Eq, Structural, PartialOrd, Ord)]
pub enum RRsetTrustLevel {
    AdditionalWithoutAA,
    AuthorityWithoutAA,
    AdditionalWithAA,
    NonAuthAnswerWithAA,
    AnswerWithoutAA,
    PrimGlue,
    AuthorityWithAA,
    AnswerWithAA,
    PrimNonGlue,
}

/// The cache's trust level of the same name.
pub open spec fn cache_level(t: RRsetTrustLevel) -> CacheTrustLevel {
    match t {
        RRsetTrustLevel::AdditionalWithoutAA => CacheTrustLevel::AdditionalWithoutAA,
        RRsetTrustLevel::AuthorityWithoutAA => CacheTrustLevel::AuthorityWithoutAA,
        RRsetTrustLevel::AdditionalWithAA => CacheTrustLevel::AdditionalWithAA,
        RRsetTrustLevel::NonAuthAnswerWithAA => CacheTrustLevel::NonAuthAnswerWithAA,
        RRsetTrustLevel::AnswerWithoutAA => CacheTrustLevel::AnswerWithoutAA,
        RRsetTrustLevel::PrimGlue => CacheTrustLevel::PrimGlue,
        RRsetTrustLevel::AuthorityWithAA => CacheTrustLevel::AuthorityWithAA,
        RRsetTrustLevel::AnswerWithAA => CacheTrustLevel::AnswerWithAA,
        RRsetTrustLevel::PrimNonGlue => CacheTrustLevel::PrimNonGlue,
    }
}

impl RRsetTrustLevel {
    /// The cache's trust level of the same name.
    pub fn to_cache_level(self) -> (r: CacheTrustLevel)
        ensures
            r == cache_level(self),
    {
        match self {
            RRsetTrustLevel::AdditionalWithoutAA => CacheTrustLevel::AdditionalWithoutAA,
            RRsetTrustLevel::AuthorityWithoutAA => CacheTrustLevel::AuthorityWithoutAA,
            RRsetTrustLevel::AdditionalWithAA => CacheTrustLevel::AdditionalWithAA,
            RRsetTrustLevel::NonAuthAnswerWithAA => CacheTrustLevel::NonAuthAnswerWithAA,
            RRsetTrustLevel::AnswerWithoutAA => CacheTrustLevel::AnswerWithoutAA,
            RRsetTrustLevel::PrimGlue => CacheTrustLevel::PrimGlue,
            RRsetTrustLevel::AuthorityWithAA => CacheTrustLevel::AuthorityWithAA,
            RRsetTrustLevel::AnswerWithAA => CacheTrustLevel::AnswerWithAA,
            RRsetTrustLevel::PrimNonGlue => CacheTrustLevel::PrimNonGlue,
        }
    }
}

/// The abstract state of the resolver's cache: the cache of positive and
/// that of negative responses.
pub struct ResolverCacheV {
    pub positive: MessageCacheV,
    pub negative: MessageCacheV,
}

/// What storing `response`, classified as `category`, at `now` does: an
/// answer goes to the positive cache, a negative answer to the negative
/// cache, the sets of a referral to the positive cache's sets; anything else
/// is not kept.
pub open spec fn response_stored(c: ResolverCacheV, category: CategoryV, response: MessageV, now: u64) -> ResolverCacheV {
    match category {
        CategoryV::Answer | CategoryV::AnswerCName => ResolverCacheV {
            positive: store_outcome(c.positive, response, now),
            ..c
        },
        CategoryV::NXDomain | CategoryV::NXRRset => ResolverCacheV {
            negative: store_outcome(c.negative, response, now),
            ..c
        },
        CategoryV::Referral => ResolverCacheV {
            positive: MessageCacheV {
                positive: response_sets_added(c.positive.positive, c.positive.positive_capacity, response, now),
                ..c.positive
            },
            ..c
        },
        _ => c,
    }
}

/// What answering query `q` at `now` from cache `c` does: the positive
/// cache answers if it can, the negative cache otherwise. Gives whether it
/// answered, the message and the cache after.
pub open spec fn resolver_answer(c: ResolverCacheV, q: MessageV, now: u64) -> (bool, MessageV, ResolverCacheV) {
    let (ok, q1, p) = answer_outcome(c.positive, q, now);
    if ok {
        (true, q1, ResolverCacheV { positive: p, ..c })
    } else {
        let (ok2, q2, n) = answer_outcome(c.negative, q1, now);
        (ok2, q2, ResolverCacheV { positive: p, negative: n })
    }
}

/// The cache `c` after `rrset` is added at trust level `t` at `now`: an SOA
/// set goes to the negative cache's sets, any other to the positive cache's,
/// as `add_entries` says.
pub open spec fn cache_rrset_added(c: ResolverCacheV, rrset: RRsetV, t: RRsetTrustLevel, now: u64) -> ResolverCacheV {
    if rrset.typ == RRType::SOA {
        ResolverCacheV {
            negative: MessageCacheV {
                positive: add_entries(c.negative.positive, c.negative.positive_capacity, rrset, cache_level(t), now),
                ..c.negative
            },
            ..c
        }
    } else {
        ResolverCacheV {
            positive: MessageCacheV {
                positive: add_entries(c.positive.positive, c.positive.positive_capacity, rrset, cache_level(t), now),
                ..c.positive
            },
            ..c
        }
    }
}

/// The abstract value of an optional name.
pub open spec fn opt_name_view(o: Option<Name>) -> Option<Seq<Seq<u8>>> {
    match o {
        Some(n) => Some(n@),
        None => None,
    }
}

/// Whether looking up the deepest NS ancestor of `name` in cache `c` at
/// `now` leaves `c2` and finds `found`, as `deepest_ns` says of the positive
/// cache's sets.
pub open spec fn deepest_ns_outcome(
    c: ResolverCacheV,
    name: Seq<Seq<u8>>,
    now: u64,
    c2: ResolverCacheV,
    found: Option<Seq<Seq<u8>>>,
) -> bool {
    let (v, f) = deepest_ns(c.positive.positive, name, name.len(), now);
    &&& c2 == (ResolverCacheV { positive: MessageCacheV { positive: v, ..c.positive }, ..c })
    &&& found == f
}

/// The resolver's cache.
pub struct MessageCache {
    positive_cache: MessageLruCache,
    negative_cache: MessageLruCache,
}

impl View for MessageCache {
    type V = ResolverCacheV;

    closed spec fn view(&self) -> ResolverCacheV {
        ResolverCacheV { positive: self.positive_cache@, negative: self.negative_cache@ }
    }
}

impl MessageCache {
    /// Both caches are well formed and small enough that their sizes add up
    /// in a `usize`.
    pub closed spec fn wf(&self) -> bool {
        &&& self.positive_cache.wf()
        &&& self.negative_cache.wf()
        &&& self@.positive.capacity <= usize::MAX / 2
        &&& self@.negative.capacity <= usize::MAX / 2
    }

    /// A cache whose two response caches each hold at most `cap` responses.
    pub fn new(cap: usize) -> (r: MessageCache)
        requires
            0 < cap <= usize::MAX / 2,
        ensures
            r.wf(),
            r@.positive.messages.len() == 0,
            r@.negative.messages.len() == 0,
            r@.positive.capacity == cap,
            r@.negative.capacity == cap,
    {
        MessageCache { positive_cache: MessageLruCache::new(cap), negative_cache: MessageLruCache::new(cap) }
    }

    /// The number of cached responses.
    pub fn len(&self) -> (r: usize)
        requires
            self.wf(),
        ensures
            r == self@.positive.messages.len() + self@.negative.messages.len(),
    {
        proof {
            crate::cache::message_cache::lemma_message_keys_distinct(self.positive_cache);
            crate::cache::message_cache::lemma_message_keys_distinct(self.negative_cache);
        }
        self.positive_cache.len() + self.negative_cache.len()
    }

    /// Answers `query` at `now` from the positive cache, or failing that
    /// from the negative cache. Gives whether it answered.
    pub fn gen_response_at(&mut self, query: &mut Message, now: u64) -> (r: bool)
        requires
            old(self).wf(),
            old(query)@.question is Some,
        ensures
            final(self).wf(),
            (r, final(query)@, final(self)@) == resolver_answer(old(self)@, old(query)@, now),
    {
        if self.positive_cache.gen_response_at(query, now) {
            true
        } else {
            self.negative_cache.gen_response_at(query, now)
        }
    }

    /// Answers `query` now, as `gen_response_at` says.
    pub fn gen_response(&mut self, query: &mut Message) -> (r: bool)
        requires
            old(self).wf(),
            old(query)@.question is Some,
        ensures
            final(self).wf(),
            exists|now: u64| (r, final(query)@, final(self)@) == #[trigger] resolver_answer(old(self)@, old(query)@, now),
    {
        let now = now_nanos();
        self.gen_response_at(query, now)
    }

    /// Stores `response`, classified as `response_type`, at `now`, as
    /// `response_stored` says.
    pub fn add_response_at(&mut self, response_type: ResponseCategory, response: Message, now: u64)
        requires
            old(self).wf(),
            response@.question is Some,
        ensures
            final(self).wf(),
            final(self)@ == response_stored(old(self)@, response_type@, response@, now),
    {
        match response_type {
            ResponseCategory::Answer | ResponseCategory::AnswerCName => {
                self.positive_cache.add_message_at(response, now);
            },
            ResponseCategory::NXDomain | ResponseCategory::NXRRset => {
                self.negative_cache.add_message_at(response, now);
            },
            ResponseCategory::Referral => {
                self.positive_cache.add_rrset_in_response_at(&response, now);
            },
            _ => {},
        }
    }

    /// Stores `response` now, as `add_response_at` says.
    pub fn add_response(&mut self, response_type: ResponseCategory, response: Message)
        requires
            old(self).wf(),
            response@.question is Some,
        ensures
            final(self).wf(),
            exists|now: u64| final(self)@ == #[trigger] response_stored(old(self)@, response_type@, response@, now),
    {
        let now = now_nanos();
        self.add_response_at(response_type, response, now);
    }

    /// Adds `rrset` at trust level `trust_level` at `now`: an SOA set to the
    /// negative cache's sets, any other to the positive cache's.
    pub fn add_rrset_at(&mut self, rrset: RRset, trust_level: RRsetTrustLevel, now: u64)
        requires
            old(self).wf(),
        ensures
            final(self).wf(),
            final(self)@ == cache_rrset_added(old(self)@, rrset@, trust_level, now),
    {
        let is_soa = match rrset.typ {
            RRType::SOA => true,
            _ => false,
        };
        if is_soa {
            self.negative_cache.add_rrset_at(rrset, trust_level.to_cache_level(), now);
        } else {
            self.positive_cache.add_rrset_at(rrset, trust_level.to_cache_level(), now);
        }
    }

    /// Adds `rrset` now, as `add_rrset_at` says.
    pub fn add_rrset(&mut self, rrset: RRset, trust_level: RRsetTrustLevel)
        requires
            old(self).wf(),
        ensures
            final(self).wf(),
            exists|now: u64| final(self)@ == #[trigger] cache_rrset_added(old(self)@, rrset@, trust_level, now),
    {
        let now = now_nanos();
        self.add_rrset_at(rrset, trust_level, now);
    }

    /// The deepest ancestor of `name` with an unexpired NS set in the
    /// positive cache at `now`, as `deepest_ns` says.
    pub fn get_deepest_ns_at(&mut self, name: &Name, now: u64) -> (r: Option<Name>)
        requires
            old(self).wf(),
        ensures
            final(self).wf(),
            deepest_ns_outcome(old(self)@, name@, now, final(self)@, opt_name_view(r)),
    {
        self.positive_cache.get_deepest_ns_at(name, now)
    }

    /// The deepest ancestor of `name` with an unexpired NS set in the
    /// positive cache now, as `get_deepest_ns_at` says.
    pub fn get_deepest_ns(&mut self, name: &Name) -> (r: Option<Name>)
        requires
            old(self).wf(),
        ensures
            final(self).wf(),
            exists|now: u64| #[trigger] deepest_ns_outcome(old(self)@, name@, now, final(self)@, opt_name_view(r)),
            r matches Some(n) ==> is_subdomain_of(name@, n@),
    {
        let now = now_nanos();
        let ghost v0 = self@.positive.positive;
        let r = self.get_deepest_ns_at(name, now);
        proof {
            lemma_deepest_ns_is_ancestor(v0, name@, name@.len(), now);
        }
        r
    }
}

} // verus!
