//! A bounded store that forgets the least recently used entry, kept in an
//! `lru::LruCache`.
use crate::cache::message_entry::MessageEntry;
use crate::cache::rrset_entry::RRsetEntry;
use crate::resolver::nsas::nameserver_entry::NameserverEntry;
use crate::resolver::nsas::zone_cache::ZoneEntry;

use crate::name::{labels_view, Name};
use crate::rr::RRType;
use crate::seqs::{first_index, lemma_first_index, lemma_first_index_is};
use lru::LruCache;
use vstd::prelude::*;

verus! {

/// The key of a cache entry: the labels of a name and a record type code.
pub type CacheKey = (Vec<Vec<u8>>, u16);

/// The abstract value of a key.
pub type KeyV = (Seq<Seq<u8>>, u16);

/// The abstract value of a key.
pub open spec fn key_view(k: CacheKey) -> KeyV {
    (labels_view(k.0@), k.1)
}

/// The key of `name` and `typ`.
pub open spec fn key_of(name: Seq<Seq<u8>>, typ: RRType) -> KeyV {
    (name, typ.spec_code())
}

/// Makes the key of a name and a type.
pub fn make_key(name: &Name, typ: RRType) -> (r: CacheKey)
    ensures
        key_view(r) == key_of(name@, typ),
{
    (name.to_labels(), typ.code())
}

/// The key of a name alone.
pub open spec fn name_key(name: Seq<Seq<u8>>) -> KeyV {
    (name, 0u16)
}

/// Makes the key of a name alone.
pub fn make_name_key(name: &Name) -> (r: CacheKey)
    ensures
        key_view(r) == name_key(name@),
{
    (name.to_labels(), 0u16)
}

/// An entry of one of the library's caches.
pub enum CachedItem {
    RRset(RRsetEntry),
    Message(MessageEntry),
    Nameserver(NameserverEntry),
    Zone(ZoneEntry),

}

#[verifier::external_type_specification]
#[verifier::external_body]
#[verifier::reject_recursive_types(K)]
#[verifier::reject_recursive_types(V)]
#[verifier::reject_recursive_types(S)]
pub struct ExLruCache<K, V, S>(LruCache<K, V, S>);

#[verifier::external_type_specification]
#[verifier::external_body]
pub struct ExDefaultHasher(lru::DefaultHasher);

/// The entries of an `lru::LruCache`, from the least to the most recently used.
pub uninterp spec fn lru_entries(c: LruCache<CacheKey, CachedItem>) -> Seq<(KeyV, CachedItem)>;

/// The capacity an `lru::LruCache` was made with.
pub uninterp spec fn lru_capacity(c: LruCache<CacheKey, CachedItem>) -> nat;

/// The keys of entries, in order.
pub open spec fn keys_of(s: Seq<(KeyV, CachedItem)>) -> Seq<KeyV> {
    s.map_values(|e: (KeyV, CachedItem)| e.0)
}

/// The position of the entry with key `k`, or -1.
pub open spec fn key_pos(s: Seq<(KeyV, CachedItem)>, k: KeyV) -> int {
    first_index(keys_of(s), k)
}

/// The entries after a put of `k` and `v` into a cache of capacity `cap`:
/// an entry of the same key is replaced and becomes the most recent; a new
/// key becomes the most recent, and, in a full cache, the least recent
/// entry goes; a cache of capacity 0 keeps nothing.
pub open spec fn put_entries(s: Seq<(KeyV, CachedItem)>, cap: nat, k: KeyV, v: CachedItem) -> Seq<(KeyV, CachedItem)> {
    let i = key_pos(s, k);
    if i >= 0 {
        s.remove(i).push((k, v))
    } else if cap == 0 {
        s
    } else if s.len() == cap {
        s.drop_first().push((k, v))
    } else {
        s.push((k, v))
    }
}

/// `LruCache::new`: an empty cache that holds at most `cap` entries.
#[verifier::external_body]
fn lru_new(cap: usize) -> (r: LruCache<CacheKey, CachedItem>)
    ensures
        lru_entries(r) == Seq::<(KeyV, CachedItem)>::empty(),
        lru_capacity(r) == cap,
{
    LruCache::new(cap)
}

/// `LruCache::put`: stores `v` under `k` as described by `put_entries` and
/// gives back the value it replaced under the same key.
#[verifier::external_body]
fn lru_put(c: &mut LruCache<CacheKey, CachedItem>, k: CacheKey, v: CachedItem) -> (r: Option<CachedItem>)
    ensures
        lru_capacity(*final(c)) == lru_capacity(*old(c)),
        lru_entries(*final(c)) == put_entries(lru_entries(*old(c)), lru_capacity(*old(c)), key_view(k), v),
        key_pos(lru_entries(*old(c)), key_view(k)) >= 0 ==> r == Some(
            lru_entries(*old(c))[key_pos(lru_entries(*old(c)), key_view(k))].1,
        ),
        key_pos(lru_entries(*old(c)), key_view(k)) < 0 ==> r is None,
{
    c.put(k, v)
}

/// `LruCache::pop`: removes the entry of key `k` and gives back its value.
#[verifier::external_body]
fn lru_pop(c: &mut LruCache<CacheKey, CachedItem>, k: &CacheKey) -> (r: Option<CachedItem>)
    ensures
        lru_capacity(*final(c)) == lru_capacity(*old(c)),
        key_pos(lru_entries(*old(c)), key_view(*k)) >= 0 ==> r == Some(
            lru_entries(*old(c))[key_pos(lru_entries(*old(c)), key_view(*k))].1,
        ) && lru_entries(*final(c)) == lru_entries(*old(c)).remove(
            key_pos(lru_entries(*old(c)), key_view(*k)),
        ),
        key_pos(lru_entries(*old(c)), key_view(*k)) < 0 ==> r is None && lru_entries(*final(c))
            == lru_entries(*old(c)),
{
    c.pop(k)
}

/// `LruCache::peek`: the value of key `k`, without making it more recent.
#[verifier::external_body]
fn lru_peek<'a>(c: &'a LruCache<CacheKey, CachedItem>, k: &CacheKey) -> (r: Option<&'a CachedItem>)
    ensures
        key_pos(lru_entries(*c), key_view(*k)) >= 0 ==> r == Some(
            &lru_entries(*c)[key_pos(lru_entries(*c), key_view(*k))].1,
        ),
        key_pos(lru_entries(*c), key_view(*k)) < 0 ==> r is None,
{
    c.peek(k)
}

/// `LruCache::len`: the number of entries.
#[verifier::external_body]
fn lru_len(c: &LruCache<CacheKey, CachedItem>) -> (r: usize)
    ensures
        r == lru_entries(*c).len(),
{
    c.len()
}

/// No two entries have the same key.
pub open spec fn keys_distinct(s: Seq<(KeyV, CachedItem)>) -> bool {
    forall|i: int, j: int| 0 <= i < j < s.len() ==> #[trigger] s[i].0 != #[trigger] s[j].0
}

/// `v` with `e` added as the last element, in a sequence that holds at most
/// `cap` elements: where it is full the first goes; where `cap` is 0 nothing
/// is added.
pub open spec fn push_bounded<T>(v: Seq<T>, cap: nat, e: T) -> Seq<T> {
    if cap == 0 {
        v
    } else if v.len() == cap {
        v.drop_first().push(e)
    } else {
        v.push(e)
    }
}

/// Every item of `s` satisfies `ok` and is stored under the key `key` gives it.
pub open spec fn items_ok(s: Seq<(KeyV, CachedItem)>, ok: spec_fn(CachedItem) -> bool, key: spec_fn(CachedItem) -> KeyV) -> bool {
    forall|i: int| 0 <= i < s.len() ==> {
        &&& ok((#[trigger] s[i]).1)
        &&& s[i].0 == key(s[i].1)
    }
}

/// Removing the entry at `i` keeps the items as they are, maps to removing
/// the value at `i`, and leaves no entry of the removed key, where keys are
/// distinct.
pub proof fn lemma_remove_item<B>(
    s: Seq<(KeyV, CachedItem)>,
    i: int,
    ok: spec_fn(CachedItem) -> bool,
    key: spec_fn(CachedItem) -> KeyV,
    f: spec_fn((KeyV, CachedItem)) -> B,
)
    requires
        0 <= i < s.len(),
        items_ok(s, ok, key),
        keys_distinct(s),
    ensures
        items_ok(s.remove(i), ok, key),
        keys_distinct(s.remove(i)),
        s.remove(i).map_values(f) == s.map_values(f).remove(i),
        key_pos(s.remove(i), s[i].0) < 0,
{
    let t = s.remove(i);
    assert forall|j: int| 0 <= j < t.len() implies {
        &&& ok((#[trigger] t[j]).1)
        &&& t[j].0 == key(t[j].1)
    } by {
        let j2 = if j < i { j } else { j + 1 };
        assert(t[j] == s[j2]);
    }
    assert forall|a: int, b: int| 0 <= a < b < t.len() implies #[trigger] t[a].0 != #[trigger] t[b].0 by {
        let a2 = if a < i { a } else { a + 1 };
        let b2 = if b < i { b } else { b + 1 };
        assert(t[a] == s[a2]);
        assert(t[b] == s[b2]);
    }
    assert(t.map_values(f) =~= s.map_values(f).remove(i));
    assert forall|j: int| 0 <= j < t.len() implies #[trigger] keys_of(t)[j] != s[i].0 by {
        let j2 = if j < i { j } else { j + 1 };
        assert(t[j] == s[j2]);
    }
    lemma_first_index_is(keys_of(t), s[i].0, -1);
}

/// Putting an item under a key that no entry has adds it as `push_bounded`
/// says and keeps the items as they are.
pub proof fn lemma_put_fresh_item<B>(
    s: Seq<(KeyV, CachedItem)>,
    cap: nat,
    k: KeyV,
    item: CachedItem,
    ok: spec_fn(CachedItem) -> bool,
    key: spec_fn(CachedItem) -> KeyV,
    f: spec_fn((KeyV, CachedItem)) -> B,
)
    requires
        key_pos(s, k) < 0,
        items_ok(s, ok, key),
        ok(item),
        k == key(item),
    ensures
        put_entries(s, cap, k, item) == push_bounded(s, cap, (k, item)),
        items_ok(put_entries(s, cap, k, item), ok, key),
        put_entries(s, cap, k, item).map_values(f) == push_bounded(s.map_values(f), cap, f((k, item))),
{
    let t = put_entries(s, cap, k, item);
    if cap == 0 {
    } else if s.len() == cap {
        assert(t.map_values(f) =~= s.map_values(f).drop_first().push(f((k, item))));
        assert forall|j: int| 0 <= j < t.len() implies {
            &&& ok((#[trigger] t[j]).1)
            &&& t[j].0 == key(t[j].1)
        } by {
            if j < t.len() - 1 {
                assert(t[j] == s[j + 1]);
            }
        }
    } else {
        assert(t.map_values(f) =~= s.map_values(f).push(f((k, item))));
        assert forall|j: int| 0 <= j < t.len() implies {
            &&& ok((#[trigger] t[j]).1)
            &&& t[j].0 == key(t[j].1)
        } by {
            if j < t.len() - 1 {
                assert(t[j] == s[j]);
            }
        }
    }
}

/// A store of keyed entries that holds at most a fixed number of them and,
/// when full, forgets the least recently used one to make room.
pub struct LruStore {
    cache: LruCache<CacheKey, CachedItem>,
}

impl LruStore {
    /// The entries, from the least to the most recently used.
    pub closed spec fn entries(&self) -> Seq<(KeyV, CachedItem)> {
        lru_entries(self.cache)
    }

    /// The most entries the store holds.
    pub closed spec fn capacity(&self) -> nat {
        lru_capacity(self.cache)
    }

    /// Keys are distinct and the entries fit the capacity.
    pub open spec fn wf(&self) -> bool {
        keys_distinct(self.entries()) && self.entries().len() <= self.capacity()
    }

    /// An empty store for at most `cap` entries.
    pub fn new(cap: usize) -> (r: LruStore)
        ensures
            r.wf(),
            r.entries() == Seq::<(KeyV, CachedItem)>::empty(),
            r.capacity() == cap,
    {
        LruStore { cache: lru_new(cap) }
    }

    /// The number of entries.
    pub fn len(&self) -> (r: usize)
        ensures
            r == self.entries().len(),
    {
        lru_len(&self.cache)
    }

    /// The value stored under `k`, if any; the order of use is unchanged.
    pub fn peek(&self, k: &CacheKey) -> (r: Option<&CachedItem>)
        ensures
            key_pos(self.entries(), key_view(*k)) >= 0 ==> r == Some(
                &self.entries()[key_pos(self.entries(), key_view(*k))].1,
            ),
            key_pos(self.entries(), key_view(*k)) < 0 ==> r is None,
    {
        lru_peek(&self.cache, k)
    }

    /// Removes the entry of key `k` and gives back its value.
    pub fn pop(&mut self, k: &CacheKey) -> (r: Option<CachedItem>)
        requires
            old(self).wf(),
        ensures
            final(self).wf(),
            final(self).capacity() == old(self).capacity(),
            key_pos(old(self).entries(), key_view(*k)) >= 0 ==> r == Some(
                old(self).entries()[key_pos(old(self).entries(), key_view(*k))].1,
            ) && final(self).entries() == old(self).entries().remove(
                key_pos(old(self).entries(), key_view(*k)),
            ),
            key_pos(old(self).entries(), key_view(*k)) < 0 ==> r is None && final(self).entries()
                == old(self).entries(),
    {
        let r = lru_pop(&mut self.cache, k);
        proof {
            let s = old(self).entries();
            let i = key_pos(s, key_view(*k));
            lemma_first_index(keys_of(s), key_view(*k));
            if i >= 0 {
                assert forall|a: int, b: int| 0 <= a < b < s.remove(i).len() implies #[trigger] s.remove(i)[a].0
                    != #[trigger] s.remove(i)[b].0 by {
                    let a2 = if a < i { a } else { a + 1 };
                    let b2 = if b < i { b } else { b + 1 };
                    assert(s.remove(i)[a] == s[a2]);
                    assert(s.remove(i)[b] == s[b2]);
                }
            }
        }
        r
    }

    /// Stores `v` under `k` as the most recently used entry. An entry of the
    /// same key is replaced, and its value given back; a new key in a full
    /// store takes the place of the least recently used entry; a store of
    /// capacity 0 keeps nothing.
    pub fn put(&mut self, k: CacheKey, v: CachedItem) -> (r: Option<CachedItem>)
        requires
            old(self).wf(),
        ensures
            final(self).wf(),
            final(self).capacity() == old(self).capacity(),
            final(self).entries() == put_entries(old(self).entries(), old(self).capacity(), key_view(k), v),
            key_pos(old(self).entries(), key_view(k)) >= 0 ==> r == Some(
                old(self).entries()[key_pos(old(self).entries(), key_view(k))].1,
            ),
            key_pos(old(self).entries(), key_view(k)) < 0 ==> r is None,
    {
        let ghost kv = key_view(k);
        let r = lru_put(&mut self.cache, k, v);
        proof {
            let s = old(self).entries();
            let i = key_pos(s, kv);
            lemma_first_index(keys_of(s), kv);
            let t = final(self).entries();
            if i >= 0 {
                let u = s.remove(i);
                assert forall|a: int, b: int| 0 <= a < b < t.len() implies #[trigger] t[a].0 != #[trigger] t[b].0 by {
                    if b == t.len() - 1 {
                        let a2 = if a < i { a } else { a + 1 };
                        assert(t[a] == s[a2]);
                        assert(keys_of(s)[a2] == s[a2].0);
                        assert(keys_of(s)[i] == kv);
                    } else {
                        let a2 = if a < i { a } else { a + 1 };
                        let b2 = if b < i { b } else { b + 1 };
                        assert(t[a] == s[a2]);
                        assert(t[b] == s[b2]);
                    }
                }
            } else if old(self).capacity() == 0 {
            } else if s.len() == old(self).capacity() {
                assert forall|a: int, b: int| 0 <= a < b < t.len() implies #[trigger] t[a].0 != #[trigger] t[b].0 by {
                    if b == t.len() - 1 {
                        assert(t[a] == s[a + 1]);
                        assert(keys_of(s)[a + 1] == s[a + 1].0);
                    } else {
                        assert(t[a] == s[a + 1]);
                        assert(t[b] == s[b + 1]);
                    }
                }
            } else {
                assert forall|a: int, b: int| 0 <= a < b < t.len() implies #[trigger] t[a].0 != #[trigger] t[b].0 by {
                    if b == t.len() - 1 {
                        assert(t[a] == s[a]);
                        assert(keys_of(s)[a] == s[a].0);
                    } else {
                        assert(t[a] == s[a]);
                        assert(t[b] == s[b]);
                    }
                }
            }
        }
        r
    }
}

} // verus!
