//! A cache of record sets, keyed by name and type, that forgets the least
//! recently used set when full.
use crate::cache::rrset_entry::{entry_of, expire_at, expired, rrset_at, RRsetEntry, RRsetEntryV};
use crate::cache::trust_level::{trust_rank, RRsetTrustLevel};
use crate::clock::now_nanos;
use crate::lru_store::{key_of, key_pos, key_view, keys_of, make_key, put_entries, CachedItem, KeyV, LruStore};
use crate::message::{Header, HeaderFlag, HeaderFlags, Message, MessageV};
use crate::name::{is_subdomain_of, Name};
use crate::rr::{opt_rrset_view, rdatas_view, RData, RDataV, RRType, RRset, RRsetV};
use crate::seqs::{first_index, lemma_first_index};
use vstd::prelude::*;

verus! {

/// The key of a cached record set.
pub open spec fn entry_key(e: RRsetEntryV) -> KeyV {
    key_of(e.name, e.typ)
}

/// The position in `v` of the set with key `k`, or -1.
pub open spec fn rrset_pos(v: Seq<RRsetEntryV>, k: KeyV) -> int {
    first_index(v.map_values(|e: RRsetEntryV| entry_key(e)), k)
}

/// The entries after adding `e`, whose key is in none of `v`, to a cache of
/// capacity `cap`: it becomes the most recently used, and in a full cache
/// the least recently used entry goes; a cache of capacity 0 keeps nothing.
pub open spec fn push_entry(v: Seq<RRsetEntryV>, cap: nat, e: RRsetEntryV) -> Seq<RRsetEntryV> {
    if cap == 0 {
        v
    } else if v.len() == cap {
        v.drop_first().push(e)
    } else {
        v.push(e)
    }
}

/// A lookup of key `k` at `now` in entries `v`: the entries after it and
/// the record set found. An unexpired set is given with the seconds it has
/// left and becomes the most recently used; an expired one is dropped.
pub open spec fn lookup(v: Seq<RRsetEntryV>, k: KeyV, now: u64) -> (Seq<RRsetEntryV>, Option<RRsetV>) {
    let i = rrset_pos(v, k);
    if i < 0 {
        (v, None)
    } else if expired(v[i].expire_time, now) {
        (v.remove(i), None)
    } else {
        (v.remove(i).push(v[i]), Some(rrset_at(v[i], now)))
    }
}

/// Whether an add of a set with key `k` at trust level `t` at `now` leaves
/// the entries `v` as they are: an unexpired set of the same key is trusted
/// more.
pub open spec fn add_is_refused(v: Seq<RRsetEntryV>, k: KeyV, t: RRsetTrustLevel, now: u64) -> bool {
    let i = rrset_pos(v, k);
    i >= 0 && !expired(v[i].expire_time, now) && trust_rank(v[i].trust_level) > trust_rank(t)
}

/// The entries after adding `rrset` at trust level `t` at `now` to entries
/// `v` of a cache of capacity `cap`.
pub open spec fn add_entries(v: Seq<RRsetEntryV>, cap: nat, rrset: RRsetV, t: RRsetTrustLevel, now: u64) -> Seq<RRsetEntryV> {
    let k = key_of(rrset.name, rrset.typ);
    let i = rrset_pos(v, k);
    if add_is_refused(v, k, t, now) {
        v
    } else {
        push_entry(if i >= 0 { v.remove(i) } else { v }, cap, entry_of(rrset, t, now))
    }
}

/// The record sets an optional one makes: none or one.
pub open spec fn opt_seq(r: Option<RRsetV>) -> Seq<RRsetV> {
    match r {
        Some(x) => seq![x],
        None => Seq::empty(),
    }
}

/// The lookups of the address sets of one name server of `owner`: for an
/// NS record whose server name lies at or below `owner`, its A set and then
/// its AAAA set; the entries after them and the sets found, in that order.
pub open spec fn glue_step(v: Seq<RRsetEntryV>, rd: RDataV, owner: Seq<Seq<u8>>, now: u64) -> (Seq<RRsetEntryV>, Seq<RRsetV>) {
    match rd {
        RDataV::NS(n) => if is_subdomain_of(n, owner) {
            let (v1, a) = lookup(v, key_of(n, RRType::A), now);
            let (v2, aaaa) = lookup(v1, key_of(n, RRType::AAAA), now);
            (v2, opt_seq(a) + opt_seq(aaaa))
        } else {
            (v, Seq::empty())
        },
        _ => (v, Seq::empty()),
    }
}

/// `glue_step` over the records `rds` in order.
pub open spec fn glue_lookups(v: Seq<RRsetEntryV>, rds: Seq<RDataV>, owner: Seq<Seq<u8>>, now: u64) -> (Seq<RRsetEntryV>, Seq<RRsetV>)
    decreases rds.len(),
{
    if rds.len() == 0 {
        (v, Seq::empty())
    } else {
        let (v1, found) = glue_lookups(v, rds.drop_last(), owner, now);
        let (v2, more) = glue_step(v1, rds.last(), owner, now);
        (v2, found + more)
    }
}

/// The message a cached answer makes of `m`: a response with recursion
/// available, the additional sets appended and the answer set appended.
pub open spec fn response_with(m: MessageV, answer: RRsetV, additional: Seq<RRsetV>) -> MessageV {
    MessageV {
        header: Header {
            flags: HeaderFlags { qr: true, ra: true, ..m.header.flags },
            ..m.header
        },
        answer: m.answer.push(answer),
        additional: m.additional + additional,
        ..m
    }
}

/// The cached record set an item holds.
pub open spec fn item_entry(item: CachedItem) -> RRsetEntryV {
    match item {
        CachedItem::RRset(e) => e@,
        _ => arbitrary(),
    }
}

/// The cached sets that store entries `s` hold.
pub open spec fn store_sets(s: Seq<(KeyV, CachedItem)>) -> Seq<RRsetEntryV> {
    s.map_values(|e: (KeyV, CachedItem)| item_entry(e.1))
}

/// Every item of `s` is a record set stored under its own key.
pub open spec fn store_items_ok(s: Seq<(KeyV, CachedItem)>) -> bool {
    forall|i: int| 0 <= i < s.len() ==> {
        &&& (#[trigger] s[i]).1 is RRset
        &&& s[i].0 == entry_key(item_entry(s[i].1))
    }
}

/// Removing the entry at `i` keeps the items as they are and leaves no entry
/// of the removed key, where keys are distinct.
proof fn lemma_remove_entry(s: Seq<(KeyV, CachedItem)>, i: int)
    requires
        0 <= i < s.len(),
        store_items_ok(s),
        crate::lru_store::keys_distinct(s),
    ensures
        store_items_ok(s.remove(i)),
        store_sets(s.remove(i)) == store_sets(s).remove(i),
        key_pos(s.remove(i), s[i].0) < 0,
{
    let t = s.remove(i);
    assert forall|j: int| 0 <= j < t.len() implies {
        &&& (#[trigger] t[j]).1 is RRset
        &&& t[j].0 == entry_key(item_entry(t[j].1))
    } by {
        let j2 = if j < i { j } else { j + 1 };
        assert(t[j] == s[j2]);
    }
    assert(store_sets(t) =~= store_sets(s).remove(i));
    assert forall|j: int| 0 <= j < t.len() implies #[trigger] keys_of(t)[j] != s[i].0 by {
        let j2 = if j < i { j } else { j + 1 };
        assert(t[j] == s[j2]);
    }
    crate::seqs::lemma_first_index_is(keys_of(t), s[i].0, -1);
}

/// Putting a record set under a key that no entry has adds it as
/// `push_entry` says and keeps the items as they are.
proof fn lemma_put_fresh(s: Seq<(KeyV, CachedItem)>, cap: nat, k: KeyV, item: CachedItem)
    requires
        key_pos(s, k) < 0,
        store_items_ok(s),
        item is RRset,
        k == entry_key(item_entry(item)),
    ensures
        store_items_ok(put_entries(s, cap, k, item)),
        store_sets(put_entries(s, cap, k, item)) == push_entry(store_sets(s), cap, item_entry(item)),
{
    let t = put_entries(s, cap, k, item);
    if cap == 0 {
    } else if s.len() == cap {
        assert(store_sets(t) =~= store_sets(s).drop_first().push(item_entry(item)));
        assert forall|j: int| 0 <= j < t.len() implies {
            &&& (#[trigger] t[j]).1 is RRset
            &&& t[j].0 == entry_key(item_entry(t[j].1))
        } by {
            if j < t.len() - 1 {
                assert(t[j] == s[j + 1]);
            }
        }
    } else {
        assert(store_sets(t) =~= store_sets(s).push(item_entry(item)));
        assert forall|j: int| 0 <= j < t.len() implies {
            &&& (#[trigger] t[j]).1 is RRset
            &&& t[j].0 == entry_key(item_entry(t[j].1))
        } by {
            if j < t.len() - 1 {
                assert(t[j] == s[j]);
            }
        }
    }
}

/// A cache of record sets.
pub struct RRsetLruCache {
    store: LruStore,
}

impl RRsetLruCache {
    /// The cached sets, from the least to the most recently used.
    pub closed spec fn entries(&self) -> Seq<RRsetEntryV> {
        self.store.entries().map_values(|e: (KeyV, CachedItem)| item_entry(e.1))
    }

    /// The most sets the cache holds.
    pub closed spec fn capacity(&self) -> nat {
        self.store.capacity()
    }

    /// Every stored item is a record set, stored under its own key, and the
    /// store is well formed.
    pub closed spec fn wf(&self) -> bool {
        &&& self.store.wf()
        &&& store_items_ok(self.store.entries())
    }

    /// Facts of a well-formed cache: no two sets share a key, and the sets
    /// fit the capacity.
    pub proof fn lemma_wf(&self)
        requires
            self.wf(),
        ensures
            self.entries().len() <= self.capacity(),
            forall|i: int, j: int|
                0 <= i < j < self.entries().len() ==> entry_key(#[trigger] self.entries()[i]) != entry_key(
                    #[trigger] self.entries()[j],
                ),
    {
        assert forall|i: int, j: int| 0 <= i < j < self.entries().len() implies entry_key(
            #[trigger] self.entries()[i],
        ) != entry_key(#[trigger] self.entries()[j]) by {
            assert(self.store.entries()[i].0 != self.store.entries()[j].0);
        }
    }

    proof fn lemma_keys(&self)
        requires
            self.wf(),
        ensures
            keys_of(self.store.entries()) == self.entries().map_values(|e: RRsetEntryV| entry_key(e)),
    {
        assert(keys_of(self.store.entries()) =~= self.entries().map_values(|e: RRsetEntryV| entry_key(e)));
    }

    /// An empty cache for at most `cap` record sets.
    pub fn new(cap: usize) -> (r: RRsetLruCache)
        ensures
            r.wf(),
            r.entries() == Seq::<RRsetEntryV>::empty(),
            r.capacity() == cap,
    {
        let r = RRsetLruCache { store: LruStore::new(cap) };
        proof {
            assert(r.entries() =~= Seq::<RRsetEntryV>::empty());
        }
        r
    }

    /// The number of cached sets.
    pub fn len(&self) -> (r: usize)
        requires
            self.wf(),
        ensures
            r == self.entries().len(),
    {
        self.store.len()
    }

    /// Whether a set of `name` and `typ` is cached, expired or not.
    pub fn has_rrset(&self, name: &Name, typ: RRType) -> (r: bool)
        requires
            self.wf(),
        ensures
            r == (rrset_pos(self.entries(), key_of(name@, typ)) >= 0),
    {
        proof {
            self.lemma_keys();
        }
        let key = make_key(name, typ);
        self.store.peek(&key).is_some()
    }

    /// Adds `rrset` at trust level `trust_level` at `now`, unless an
    /// unexpired set of the same name and type is trusted more: the set
    /// replaces any of its key and becomes the most recently used, as
    /// `add_entries` says.
    pub fn add_rrset_at(&mut self, rrset: RRset, trust_level: RRsetTrustLevel, now: u64)
        requires
            old(self).wf(),
        ensures
            final(self).wf(),
            final(self).capacity() == old(self).capacity(),
            final(self).entries() == add_entries(old(self).entries(), old(self).capacity(), rrset@, trust_level, now),
    {
        proof {
            self.lemma_keys();
        }
        let ghost v = self.entries();
        let ghost old_store = self.store.entries();
        let ghost rv = rrset@;
        let key = make_key(&rrset.name, rrset.typ);
        let ghost k = key_view(key);
        proof {
            lemma_first_index(keys_of(old_store), k);
            assert(store_sets(old_store) == v);
        }
        match self.store.peek(&key) {
            Some(CachedItem::RRset(e)) => {
                if !e.is_expired_at(now) && e.trust().is_above(trust_level) {
                    return;
                }
            },
            _ => {},
        }
        self.store.pop(&key);
        let ghost mid = self.store.entries();
        proof {
            let i = key_pos(old_store, k);
            if i >= 0 {
                lemma_remove_entry(old_store, i);
            }
        }
        let entry = RRsetEntry::new_at(rrset, trust_level, now);
        let ghost item = CachedItem::RRset(entry);
        proof {
            lemma_put_fresh(mid, self.store.capacity(), k, item);
        }
        self.store.put(key, CachedItem::RRset(entry));
    }

    /// Adds `rrset` at trust level `trust_level` now, as `add_rrset_at` says.
    pub fn add_rrset(&mut self, rrset: RRset, trust_level: RRsetTrustLevel)
        requires
            old(self).wf(),
        ensures
            final(self).wf(),
            final(self).capacity() == old(self).capacity(),
            exists|now: u64|
                final(self).entries() == #[trigger] add_entries(
                    old(self).entries(),
                    old(self).capacity(),
                    rrset@,
                    trust_level,
                    now,
                ),
    {
        let now = now_nanos();
        self.add_rrset_at(rrset, trust_level, now);
    }

    /// Looks up the set of `name` and `typ` now, as `lookup` says.
    pub fn get_rrset(&mut self, name: &Name, typ: RRType) -> (r: Option<RRset>)
        requires
            old(self).wf(),
        ensures
            final(self).wf(),
            final(self).capacity() == old(self).capacity(),
            exists|now: u64|
                (final(self).entries(), opt_rrset_view(r)) == #[trigger] lookup(
                    old(self).entries(),
                    key_of(name@, typ),
                    now,
                ),
    {
        let now = now_nanos();
        self.get_rrset_at(name, typ, now)
    }

    /// Answers `message` from the cache at `now` with the set of `name` and
    /// `typ`. Where it is found, the message becomes a response with
    /// recursion available and the set as answer; for an NS set, the A and
    /// AAAA sets of each server named at or below the set's name are
    /// looked up and those found added as additional data. Gives whether
    /// the set was found.
    pub fn gen_response_at(&mut self, name: &Name, typ: RRType, message: &mut Message, now: u64) -> (r: bool)
        requires
            old(self).wf(),
        ensures
            final(self).wf(),
            final(self).capacity() == old(self).capacity(),
            ({
                let (v1, found) = lookup(old(self).entries(), key_of(name@, typ), now);
                match found {
                    None => !r && final(self).entries() == v1 && final(message)@ == old(message)@,
                    Some(set) => {
                        let (v2, glue) = if typ == RRType::NS {
                            glue_lookups(v1, set.rdatas, set.name, now)
                        } else {
                            (v1, Seq::empty())
                        };
                        &&& r
                        &&& final(self).entries() == v2
                        &&& final(message)@ == response_with(old(message)@, set, glue)
                    },
                }
            }),
    {
        let found = self.get_rrset_at(name, typ, now);
        match found {
            None => false,
            Some(rrset) => {
                let ghost set = rrset@;
                let ghost v1 = self.entries();
                let ghost m0 = message@;
                message.make_response();
                message.set_flag(HeaderFlag::RecursionAvailable);
                let is_ns = match typ {
                    RRType::NS => true,
                    _ => false,
                };
                if is_ns {
                    let mut i: usize = 0;
                    while i < rrset.rdatas.len()
                        invariant
                            self.wf(),
                            self.capacity() == old(self).capacity(),
                            i <= rrset.rdatas.len(),
                            set == rrset@,
                            set.rdatas == rdatas_view(rrset.rdatas@),
                            ({
                                let (vi, gi) = glue_lookups(v1, set.rdatas.subrange(0, i as int), set.name, now);
                                &&& self.entries() == vi
                                &&& message@ == MessageV {
                                    header: Header {
                                        flags: HeaderFlags { qr: true, ra: true, ..m0.header.flags },
                                        ..m0.header
                                    },
                                    additional: m0.additional + gi,
                                    ..m0
                                }
                            }),
                        decreases rrset.rdatas.len() - i,
                    {
                        let ghost pre = set.rdatas.subrange(0, i as int);
                        let ghost (vi, gi) = glue_lookups(v1, pre, set.name, now);
                        proof {
                            assert(set.rdatas.subrange(0, i + 1).drop_last() =~= pre);
                            assert(set.rdatas.subrange(0, i + 1).last() == rrset.rdatas@[i as int]@);
                        }
                        match &rrset.rdatas[i] {
                            RData::NS(ns) => {
                                if ns.is_subdomain(&rrset.name) {
                                    let a = self.get_rrset_at(ns, RRType::A, now);
                                    let ghost ma = message@;
                                    match a {
                                        Some(x) => {
                                            message.add_additional(x);
                                        },
                                        None => {},
                                    }
                                    let ghost mb = message@;
                                    proof {
                                        assert(mb.additional =~= ma.additional + opt_seq(opt_rrset_view(a)));
                                    }
                                    let aaaa = self.get_rrset_at(ns, RRType::AAAA, now);
                                    match aaaa {
                                        Some(x) => {
                                            message.add_additional(x);
                                        },
                                        None => {},
                                    }
                                    proof {
                                        assert(message@.additional =~= mb.additional + opt_seq(opt_rrset_view(aaaa)));
                                        assert(message@.additional =~= m0.additional + (gi + (opt_seq(opt_rrset_view(a)) + opt_seq(opt_rrset_view(aaaa)))));
                                    }
                                } else {
                                    proof {
                                        assert(gi + Seq::<RRsetV>::empty() =~= gi);
                                    }
                                }
                            },
                            _ => {
                                proof {
                                    assert(gi + Seq::<RRsetV>::empty() =~= gi);
                                }
                            },
                        }
                        i = i + 1;
                    }
                    proof {
                        assert(set.rdatas.subrange(0, rrset.rdatas.len() as int) =~= set.rdatas);
                    }
                } else {
                    proof {
                        assert(m0.additional + Seq::<RRsetV>::empty() =~= m0.additional);
                    }
                }
                message.add_answer(rrset);
                true
            },
        }
    }

    /// Looks up the set of `name` and `typ` at `now`, as `lookup` says.
    pub fn get_rrset_at(&mut self, name: &Name, typ: RRType, now: u64) -> (r: Option<RRset>)
        requires
            old(self).wf(),
        ensures
            final(self).wf(),
            final(self).capacity() == old(self).capacity(),
            (final(self).entries(), opt_rrset_view(r)) == lookup(old(self).entries(), key_of(name@, typ), now),
    {
        proof {
            self.lemma_keys();
            self.lemma_wf();
        }
        let ghost old_store = self.store.entries();
        let ghost v = self.entries();
        let key = make_key(name, typ);
        let ghost k = key_view(key);
        let popped = self.store.pop(&key);
        proof {
            lemma_first_index(keys_of(old_store), k);
        }
        match popped {
            None => {
                proof {
                    assert(self.entries() =~= v);
                }
                None
            },
            Some(item) => {
                let ghost i = key_pos(old_store, k);
                proof {
                    assert(old_store[i].1 is RRset);
                    assert(self.store.entries() =~= old_store.remove(i));
                    assert(self.entries() =~= v.remove(i));
                }
                match item {
                    CachedItem::RRset(e) => {
                        let r = e.get_rrset_at(now);
                        if r.is_some() {
                            let ghost mid = self.store.entries();
                            proof {
                                assert forall|j: int| 0 <= j < mid.len() implies #[trigger] keys_of(mid)[j] != k by {
                                    let j2 = if j < i { j } else { j + 1 };
                                    assert(mid[j] == old_store[j2]);
                                    assert(keys_of(old_store)[j2] == old_store[j2].0);
                                }
                                crate::seqs::lemma_first_index_is(keys_of(mid), k, -1);
                            }
                            self.store.put(key, CachedItem::RRset(e));
                            proof {
                                assert(self.store.entries() =~= mid.push((k, CachedItem::RRset(e))));
                                assert(self.entries() =~= v.remove(i).push(v[i]));
                                assert forall|j: int| 0 <= j < self.store.entries().len() implies {
                                    &&& (#[trigger] self.store.entries()[j]).1 is RRset
                                    &&& self.store.entries()[j].0 == entry_key(item_entry(self.store.entries()[j].1))
                                } by {
                                    if j < mid.len() {
                                        let j2 = if j < i { j } else { j + 1 };
                                        assert(self.store.entries()[j] == old_store[j2]);
                                    }
                                }
                            }
                        } else {
                            proof {
                                assert forall|j: int| 0 <= j < self.store.entries().len() implies {
                                    &&& (#[trigger] self.store.entries()[j]).1 is RRset
                                    &&& self.store.entries()[j].0 == entry_key(item_entry(self.store.entries()[j].1))
                                } by {
                                    let j2 = if j < i { j } else { j + 1 };
                                    assert(self.store.entries()[j] == old_store[j2]);
                                }
                            }
                        }
                        r
                    },
                    _ => {
                        proof {
                            assert(false);
                        }
                        None
                    },
                }
            },
        }
    }
}

/// A set added to a cache of nonzero capacity, where the add is not refused,
/// is what a later lookup of its name and type finds until it expires: the
/// same name, type and data, with the seconds it has left as time to live.
pub proof fn lemma_lookup_after_add(
    c: RRsetLruCache,
    rrset: RRsetV,
    t: RRsetTrustLevel,
    now: u64,
    later: u64,
)
    requires
        c.wf(),
        c.capacity() > 0,
        !add_is_refused(c.entries(), key_of(rrset.name, rrset.typ), t, now),
        later < expire_at(now, rrset.ttl),
    ensures
        lookup(add_entries(c.entries(), c.capacity(), rrset, t, now), key_of(rrset.name, rrset.typ), later).1
            == Some(rrset_at(entry_of(rrset, t, now), later)),
{
    c.lemma_wf();
    let v = c.entries();
    let k = key_of(rrset.name, rrset.typ);
    let keys = v.map_values(|e: RRsetEntryV| entry_key(e));
    lemma_first_index(keys, k);
    let i = rrset_pos(v, k);
    let u = if i >= 0 { v.remove(i) } else { v };
    assert forall|j: int| 0 <= j < u.len() implies entry_key(#[trigger] u[j]) != k by {
        if i >= 0 {
            let j2 = if j < i { j } else { j + 1 };
            assert(u[j] == v[j2]);
            assert(keys[i] == entry_key(v[i]));
            assert(keys[j2] == entry_key(v[j2]));
        } else {
            assert(keys[j] == entry_key(v[j]));
        }
    }
    let e = entry_of(rrset, t, now);
    let w = add_entries(v, c.capacity(), rrset, t, now);
    assert(w == push_entry(u, c.capacity(), e));
    let base = if u.len() == c.capacity() { u.drop_first() } else { u };
    assert(w == base.push(e));
    let wkeys = w.map_values(|x: RRsetEntryV| entry_key(x));
    assert forall|j: int| 0 <= j < w.len() - 1 implies wkeys[j] != k by {
        if u.len() == c.capacity() {
            assert(w[j] == u[j + 1]);
        } else {
            assert(w[j] == u[j]);
        }
    }
    assert(wkeys[w.len() - 1] == k);
    crate::seqs::lemma_first_index_is(wkeys, k, w.len() - 1);
}

/// A set is not replaced by an add of a less trusted one while it has not
/// expired.
pub proof fn lemma_trusted_set_kept(c: RRsetLruCache, rrset: RRsetV, t: RRsetTrustLevel, now: u64)
    requires
        c.wf(),
        rrset_pos(c.entries(), key_of(rrset.name, rrset.typ)) >= 0,
        !expired(c.entries()[rrset_pos(c.entries(), key_of(rrset.name, rrset.typ))].expire_time, now),
        trust_rank(c.entries()[rrset_pos(c.entries(), key_of(rrset.name, rrset.typ))].trust_level) > trust_rank(t),
    ensures
        add_entries(c.entries(), c.capacity(), rrset, t, now) == c.entries(),
{
}

/// A cache never holds more sets than its capacity.
pub proof fn lemma_within_capacity(c: RRsetLruCache)
    requires
        c.wf(),
    ensures
        c.entries().len() <= c.capacity(),
{
    c.lemma_wf();
}

/// An add is refused only in favour of a cached set of the same name and
/// type that has not expired and is trusted strictly more. So after adding
/// a set at a trust level no lower than that of any unexpired cached set of
/// its name and type, to a cache that can hold one, a lookup before the
/// added set expires gives the added set: its name, type and data, class
/// IN, with the whole seconds it has left as time to live.
pub proof fn lemma_add_not_below_replaces(c: RRsetLruCache, rrset: RRsetV, t: RRsetTrustLevel, now: u64, later: u64)
    requires
        c.wf(),
        c.capacity() > 0,
        forall|j: int|
            0 <= j < c.entries().len() && entry_key(#[trigger] c.entries()[j]) == key_of(rrset.name, rrset.typ) && !expired(
                c.entries()[j].expire_time,
                now,
            ) ==> trust_rank(c.entries()[j].trust_level) <= trust_rank(t),
        now <= later < expire_at(now, rrset.ttl),
    ensures
        lookup(add_entries(c.entries(), c.capacity(), rrset, t, now), key_of(rrset.name, rrset.typ), later).1 == Some(
            RRsetV {
                name: rrset.name,
                typ: rrset.typ,
                class: crate::rr::CLASS_IN,
                ttl: crate::cache::rrset_entry::seconds_left(expire_at(now, rrset.ttl), later),
                rdatas: rrset.rdatas,
            },
        ),
{
    let v = c.entries();
    let k = key_of(rrset.name, rrset.typ);
    let keys = v.map_values(|e: RRsetEntryV| entry_key(e));
    lemma_first_index(keys, k);
    let i = rrset_pos(v, k);
    if i >= 0 {
        assert(keys[i] == entry_key(v[i]));
    }
    assert(!add_is_refused(v, k, t, now));
    lemma_lookup_after_add(c, rrset, t, now, later);
}

} // verus!
