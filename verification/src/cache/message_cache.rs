//! A cache of whole responses, keyed by the question they answer. The sets
//! of a response live in two record-set caches, one for negative answers.
use crate::cache::message_entry::{
    add_all, add_rrset_in_section, entry_of_message, entry_wf, fill_outcome, negative_after, positive_after, MessageEntry,
    MessageEntryV,
};
use crate::cache::message_util::{can_message_be_cached, cacheable, get_rrset_trust_level, section_trust};
use crate::cache::rrset_cache::{add_entries, lookup, RRsetLruCache};
use crate::cache::rrset_entry::RRsetEntryV;
use crate::cache::trust_level::RRsetTrustLevel;
use crate::clock::now_nanos;
use crate::lru_store::{
    items_ok, key_of, key_pos, key_view, keys_of, lemma_put_fresh_item, lemma_remove_item, make_key, push_bounded,
    CachedItem, KeyV, LruStore,
};
use crate::message::{Message, MessageV, SectionType};
use crate::name::{ancestor_at, is_subdomain_of, Name};
use crate::rr::{RRType, RRset};
use crate::seqs::{first_index, lemma_first_index};
use vstd::prelude::*;

verus! {

/// The number of responses a cache made with capacity 0 holds.
pub const DEFAULT_MESSAGE_CACHE_SIZE: usize = 10000;

/// The cached response an item holds.
pub open spec fn item_message(item: CachedItem) -> MessageEntryV {
    match item {
        CachedItem::Message(e) => e@,
        _ => arbitrary(),
    }
}

/// Whether an item is a well-formed cached response.
pub open spec fn message_item_ok(item: CachedItem) -> bool {
    item is Message && entry_wf(item_message(item))
}

/// The key of the question a cached response answers.
pub open spec fn message_key(e: MessageEntryV) -> KeyV {
    key_of(e.name, e.typ)
}

/// The key an item holding a cached response is stored under.
pub open spec fn message_item_key(item: CachedItem) -> KeyV {
    message_key(item_message(item))
}

/// The cached response of a store entry.
pub open spec fn entry_message(e: (KeyV, CachedItem)) -> MessageEntryV {
    item_message(e.1)
}

/// The position in `v` of the response to the question of key `k`, or -1.
pub open spec fn message_pos(v: Seq<MessageEntryV>, k: KeyV) -> int {
    first_index(v.map_values(|e: MessageEntryV| message_key(e)), k)
}

/// The abstract state of a response cache.
pub struct MessageCacheV {
    pub messages: Seq<MessageEntryV>,
    pub capacity: nat,
    pub positive: Seq<RRsetEntryV>,
    pub positive_capacity: nat,
    pub negative: Seq<RRsetEntryV>,
    pub negative_capacity: nat,
}

/// What answering query `q` at `now` does to cache `c`: whether it
/// answered, the message, and the cache after. A cached response of the
/// question fills the query as `fill_outcome` says; it becomes the most
/// recently used where it answered and is dropped where it did not.
pub open spec fn answer_outcome(c: MessageCacheV, q: MessageV, now: u64) -> (bool, MessageV, MessageCacheV) {
    let qk = q.question.unwrap();
    let i = message_pos(c.messages, key_of(qk.0, qk.1));
    if i < 0 {
        (false, q, c)
    } else {
        let e = c.messages[i];
        let (ok, q2, p, n) = fill_outcome(e, q, c.positive, c.negative, now);
        (
            ok,
            q2,
            MessageCacheV {
                messages: if ok { c.messages.remove(i).push(e) } else { c.messages.remove(i) },
                positive: p,
                negative: n,
                ..c
            },
        )
    }
}

/// The cache `c` after storing response `m` at `now`: a response that can be
/// cached replaces any of the same question and becomes the most recently
/// used, and its sets go to the record-set caches; any other leaves it as it
/// is.
pub open spec fn store_outcome(c: MessageCacheV, m: MessageV, now: u64) -> MessageCacheV {
    if !cacheable(m) {
        c
    } else {
        let qk = m.question.unwrap();
        let i = message_pos(c.messages, key_of(qk.0, qk.1));
        MessageCacheV {
            messages: push_bounded(
                if i >= 0 { c.messages.remove(i) } else { c.messages },
                c.capacity,
                entry_of_message(m, now),
            ),
            positive: positive_after(c.positive, c.positive_capacity, m, now),
            negative: negative_after(c.negative, c.negative_capacity, m, now),
            ..c
        }
    }
}

/// The entries after adding the sets of response `m` at `now` to `v`, each
/// at the trust level of its section, answer first.
pub open spec fn response_sets_added(v: Seq<RRsetEntryV>, cap: nat, m: MessageV, now: u64) -> Seq<RRsetEntryV> {
    let aa = m.header.flags.aa;
    add_all(
        add_all(
            add_all(v, cap, m.answer, section_trust(aa, SectionType::Answer), now),
            cap,
            m.authority,
            section_trust(aa, SectionType::Authority),
            now,
        ),
        cap,
        m.additional,
        section_trust(aa, SectionType::Additional),
        now,
    )
}

/// A search, at `now`, of the entries `v` for an NS set of the ancestors of
/// `name` keeping its last `depth` labels or fewer, the deepest first: the
/// entries after the lookups, and the ancestor whose set was found first.
pub open spec fn deepest_ns(v: Seq<RRsetEntryV>, name: Seq<Seq<u8>>, depth: nat, now: u64) -> (Seq<RRsetEntryV>, Option<Seq<Seq<u8>>>)
    decreases depth,
{
    let a = ancestor_at(name, depth as int);
    let (v1, found) = lookup(v, key_of(a, RRType::NS), now);
    if found is Some {
        (v1, Some(a))
    } else if depth == 0 {
        (v1, None)
    } else {
        deepest_ns(v1, name, (depth - 1) as nat, now)
    }
}

/// A cache of responses.
pub struct MessageLruCache {
    messages: LruStore,
    positive_cache: RRsetLruCache,
    negative_cache: RRsetLruCache,
}

impl View for MessageLruCache {
    type V = MessageCacheV;

    closed spec fn view(&self) -> MessageCacheV {
        MessageCacheV {
            messages: self.messages.entries().map_values(|e: (KeyV, CachedItem)| entry_message(e)),
            capacity: self.messages.capacity(),
            positive: self.positive_cache.entries(),
            positive_capacity: self.positive_cache.capacity(),
            negative: self.negative_cache.entries(),
            negative_capacity: self.negative_cache.capacity(),
        }
    }
}

impl MessageLruCache {
    /// The stores are well formed and every stored response is well formed
    /// and stored under the key of its question.
    pub closed spec fn wf(&self) -> bool {
        &&& self.messages.wf()
        &&& items_ok(self.messages.entries(), |i: CachedItem| message_item_ok(i), |i: CachedItem| message_item_key(i))
        &&& self.positive_cache.wf()
        &&& self.negative_cache.wf()
    }

    proof fn lemma_keys(&self)
        requires
            self.wf(),
        ensures
            keys_of(self.messages.entries()) == self@.messages.map_values(|e: MessageEntryV| message_key(e)),
            forall|i: int| 0 <= i < self@.messages.len() ==> entry_wf(#[trigger] self@.messages[i]),
    {
        assert(keys_of(self.messages.entries()) =~= self@.messages.map_values(|e: MessageEntryV| message_key(e)));
        assert forall|i: int| 0 <= i < self@.messages.len() implies entry_wf(#[trigger] self@.messages[i]) by {
            assert(message_item_ok(self.messages.entries()[i].1));
        }
    }

    /// A cache of at most `cap` responses (10000 where `cap` is 0), with
    /// room for twice as many record sets of positive answers and as many of
    /// negative answers.
    pub fn new(cap: usize) -> (r: MessageLruCache)
        requires
            cap <= usize::MAX / 2,
        ensures
            r.wf(),
            r@.messages == Seq::<MessageEntryV>::empty(),
            r@.positive == Seq::<RRsetEntryV>::empty(),
            r@.negative == Seq::<RRsetEntryV>::empty(),
            r@.capacity == (if cap == 0 { DEFAULT_MESSAGE_CACHE_SIZE } else { cap }),
            r@.positive_capacity == 2 * r@.capacity,
            r@.negative_capacity == r@.capacity,
    {
        let cap = if cap == 0 { DEFAULT_MESSAGE_CACHE_SIZE } else { cap };
        let r = MessageLruCache {
            messages: LruStore::new(cap),
            positive_cache: RRsetLruCache::new(2 * cap),
            negative_cache: RRsetLruCache::new(cap),
        };
        proof {
            assert(r@.messages =~= Seq::<MessageEntryV>::empty());
        }
        r
    }

    /// The number of cached responses.
    pub fn len(&self) -> (r: usize)
        requires
            self.wf(),
        ensures
            r == self@.messages.len(),
    {
        self.messages.len()
    }

    /// Answers `query` at `now` from the cache, as `answer_outcome` says.
    pub fn gen_response_at(&mut self, query: &mut Message, now: u64) -> (r: bool)
        requires
            old(self).wf(),
            old(query)@.question is Some,
        ensures
            final(self).wf(),
            (r, final(query)@, final(self)@) == answer_outcome(old(self)@, old(query)@, now),
    {
        proof {
            self.lemma_keys();
        }
        let ghost s0 = self.messages.entries();
        let ghost c0 = self@;
        let key = match &query.question {
            Some(q) => make_key(&q.name, q.typ),
            None => {
                proof {
                    assert(false);
                }
                make_key(&crate::name::Name::root(), RRType::A)
            },
        };
        let ghost k = key_view(key);
        proof {
            lemma_first_index(keys_of(s0), k);
        }
        let popped = self.messages.pop(&key);
        match popped {
            None => {
                false
            },
            Some(item) => {
                let ghost i = key_pos(s0, k);
                proof {
                    lemma_remove_item(
                        s0,
                        i,
                        |i: CachedItem| message_item_ok(i),
                        |i: CachedItem| message_item_key(i),
                        |e: (KeyV, CachedItem)| entry_message(e),
                    );
                    assert(message_item_ok(s0[i].1));
                }
                match item {
                    CachedItem::Message(e) => {
                        let ok = e.fill_message_at(query, &mut self.positive_cache, &mut self.negative_cache, now);
                        if ok {
                            let ghost mid = self.messages.entries();
                            proof {
                                lemma_put_fresh_item(
                                    mid,
                                    self.messages.capacity(),
                                    k,
                                    CachedItem::Message(e),
                                    |i: CachedItem| message_item_ok(i),
                                    |i: CachedItem| message_item_key(i),
                                    |e: (KeyV, CachedItem)| entry_message(e),
                                );
                            }
                            self.messages.put(key, CachedItem::Message(e));
                        }
                        ok
                    },
                    _ => {
                        proof {
                            assert(false);
                        }
                        false
                    },
                }
            },
        }
    }

    /// Answers `query` now from the cache, as `answer_outcome` says.
    pub fn gen_response(&mut self, query: &mut Message) -> (r: bool)
        requires
            old(self).wf(),
            old(query)@.question is Some,
        ensures
            final(self).wf(),
            exists|now: u64| (r, final(query)@, final(self)@) == #[trigger] answer_outcome(old(self)@, old(query)@, now),
    {
        let now = now_nanos();
        self.gen_response_at(query, now)
    }

    /// Stores response `message` at `now`, as `store_outcome` says.
    pub fn add_message_at(&mut self, message: Message, now: u64)
        requires
            old(self).wf(),
            message@.question is Some,
        ensures
            final(self).wf(),
            final(self)@ == store_outcome(old(self)@, message@, now),
    {
        if !can_message_be_cached(&message) {
            return;
        }
        proof {
            self.lemma_keys();
        }
        let ghost s0 = self.messages.entries();
        let ghost m = message@;
        let key = match &message.question {
            Some(q) => make_key(&q.name, q.typ),
            None => {
                proof {
                    assert(false);
                }
                make_key(&crate::name::Name::root(), RRType::A)
            },
        };
        let ghost k = key_view(key);
        proof {
            lemma_first_index(keys_of(s0), k);
        }
        self.messages.pop(&key);
        proof {
            let i = key_pos(s0, k);
            if i >= 0 {
                lemma_remove_item(
                    s0,
                    i,
                    |i: CachedItem| message_item_ok(i),
                    |i: CachedItem| message_item_key(i),
                    |e: (KeyV, CachedItem)| entry_message(e),
                );
            }
        }
        let ghost mid = self.messages.entries();
        let entry = MessageEntry::new_at(message, &mut self.positive_cache, &mut self.negative_cache, now);
        proof {
            lemma_put_fresh_item(
                mid,
                self.messages.capacity(),
                k,
                CachedItem::Message(entry),
                |i: CachedItem| message_item_ok(i),
                |i: CachedItem| message_item_key(i),
                |e: (KeyV, CachedItem)| entry_message(e),
            );
        }
        self.messages.put(key, CachedItem::Message(entry));
    }

    /// Adds `rrset` at trust level `trust_level` at `now` to the sets of
    /// positive answers.
    pub fn add_rrset_at(&mut self, rrset: RRset, trust_level: RRsetTrustLevel, now: u64)
        requires
            old(self).wf(),
        ensures
            final(self).wf(),
            final(self)@ == (MessageCacheV {
                positive: add_entries(old(self)@.positive, old(self)@.positive_capacity, rrset@, trust_level, now),
                ..old(self)@
            }),
    {
        self.positive_cache.add_rrset_at(rrset, trust_level, now);
    }

    /// Adds the sets of `response` at `now` to the sets of positive answers,
    /// each at the trust level of its section, without storing the
    /// response itself.
    pub fn add_rrset_in_response_at(&mut self, response: &Message, now: u64)
        requires
            old(self).wf(),
        ensures
            final(self).wf(),
            final(self)@ == (MessageCacheV {
                positive: response_sets_added(old(self)@.positive, old(self)@.positive_capacity, response@, now),
                ..old(self)@
            }),
    {
        let mut min: u32 = u32::MAX;
        let t_answer = get_rrset_trust_level(response, SectionType::Answer);
        let t_auth = get_rrset_trust_level(response, SectionType::Authority);
        let t_additional = get_rrset_trust_level(response, SectionType::Additional);
        add_rrset_in_section(&mut self.positive_cache, &response.answer, t_answer, &mut min, now);
        add_rrset_in_section(&mut self.positive_cache, &response.authority, t_auth, &mut min, now);
        add_rrset_in_section(&mut self.positive_cache, &response.additional, t_additional, &mut min, now);
    }

    /// The deepest ancestor of `name`, `name` itself included, with an
    /// unexpired NS set among the sets of positive answers at `now`, as
    /// `deepest_ns` says.
    pub fn get_deepest_ns_at(&mut self, name: &Name, now: u64) -> (r: Option<Name>)
        requires
            old(self).wf(),
        ensures
            final(self).wf(),
            ({
                let (v, found) = deepest_ns(old(self)@.positive, name@, name@.len(), now);
                &&& final(self)@ == (MessageCacheV { positive: v, ..old(self)@ })
                &&& match r {
                    Some(n) => found == Some(n@),
                    None => found is None,
                }
            }),
    {
        let ghost c0 = self@;
        let mut depth: usize = name.label_count();
        loop
            invariant
                self.wf(),
                c0 == old(self)@,
                depth <= name@.len(),
                deepest_ns(self@.positive, name@, depth as nat, now) == deepest_ns(c0.positive, name@, name@.len(), now),
                self@ == (MessageCacheV { positive: self@.positive, ..c0 }),
            decreases depth,
        {
            let a = name.ancestor(depth);
            let found = self.positive_cache.get_rrset_at(&a, RRType::NS, now);
            if found.is_some() {
                return Some(a);
            }
            if depth == 0 {
                return None;
            }
            depth = depth - 1;
        }
    }

    /// Stores response `message` now, as `store_outcome` says.
    pub fn add_message(&mut self, message: Message)
        requires
            old(self).wf(),
            message@.question is Some,
        ensures
            final(self).wf(),
            exists|now: u64| final(self)@ == #[trigger] store_outcome(old(self)@, message@, now),
    {
        let now = now_nanos();
        self.add_message_at(message, now);
    }
}

/// A response that can be cached, stored in a cache of nonzero capacity, is
/// then the cached response to its question, and the most recently used.
pub proof fn lemma_stored_response_found(c: MessageLruCache, m: MessageV, now: u64)
    requires
        c.wf(),
        c@.capacity > 0,
        m.question is Some,
        cacheable(m),
    ensures
        ({
            let after = store_outcome(c@, m, now).messages;
            let qk = m.question.unwrap();
            &&& message_pos(after, key_of(qk.0, qk.1)) == after.len() - 1
            &&& after.last() == entry_of_message(m, now)
        }),
{
    c.lemma_keys();
    lemma_message_keys_distinct(c);
    let v = c@.messages;
    let qk = m.question.unwrap();
    let k = key_of(qk.0, qk.1);
    let keys = v.map_values(|e: MessageEntryV| message_key(e));
    lemma_first_index(keys, k);
    let i = message_pos(v, k);
    let u = if i >= 0 { v.remove(i) } else { v };
    assert forall|j: int| 0 <= j < u.len() implies message_key(#[trigger] u[j]) != k by {
        if i >= 0 {
            let j2 = if j < i { j } else { j + 1 };
            assert(u[j] == v[j2]);
            assert(keys[i] == message_key(v[i]));
            assert(keys[j2] == message_key(v[j2]));
        } else {
            assert(keys[j] == message_key(v[j]));
        }
    }
    let e = entry_of_message(m, now);
    let w = store_outcome(c@, m, now).messages;
    let base = if u.len() == c@.capacity { u.drop_first() } else { u };
    assert(w == base.push(e));
    let wkeys = w.map_values(|x: MessageEntryV| message_key(x));
    assert forall|j: int| 0 <= j < w.len() - 1 implies wkeys[j] != k by {
        if u.len() == c@.capacity {
            assert(w[j] == u[j + 1]);
        } else {
            assert(w[j] == u[j]);
        }
    }
    assert(wkeys[w.len() - 1] == k);
    crate::seqs::lemma_first_index_is(wkeys, k, w.len() - 1);
}

/// In a well-formed cache, no two cached responses answer the same question,
/// and there are no more than the capacity.
pub proof fn lemma_message_keys_distinct(c: MessageLruCache)
    requires
        c.wf(),
    ensures
        c@.messages.len() <= c@.capacity,
        forall|i: int, j: int|
            0 <= i < j < c@.messages.len() ==> message_key(#[trigger] c@.messages[i]) != message_key(
                #[trigger] c@.messages[j],
            ),
{
    assert forall|i: int, j: int| 0 <= i < j < c@.messages.len() implies message_key(
        #[trigger] c@.messages[i],
    ) != message_key(#[trigger] c@.messages[j]) by {
        assert(c.messages.entries()[i].0 != c.messages.entries()[j].0);
    }
}

/// What the search for the deepest NS set finds is an ancestor of the name,
/// or the name itself.
pub proof fn lemma_deepest_ns_is_ancestor(v: Seq<RRsetEntryV>, name: Seq<Seq<u8>>, depth: nat, now: u64)
    requires
        depth <= name.len(),
    ensures
        deepest_ns(v, name, depth, now).1 matches Some(a) ==> is_subdomain_of(name, a),
    decreases depth,
{
    let a = ancestor_at(name, depth as int);
    assert(name.subrange(name.len() - a.len(), name.len() as int) =~= a);
    let (v1, found) = lookup(v, key_of(a, RRType::NS), now);
    if found is None && depth > 0 {
        lemma_deepest_ns_is_ancestor(v1, name, (depth - 1) as nat, now);
    }
}

} // verus!
