//! A name server and its addresses, and the cache of them.
use crate::clock::now_nanos;
use crate::lru_store::{
    items_ok, key_pos, key_view, keys_of, lemma_put_fresh_item, lemma_remove_item, make_name_key, name_key, push_bounded,
    CachedItem, KeyV, LruStore,
};
use crate::name::Name;
use crate::resolver::nsas::address_entry::{
    addresses_view, has_v4, is_selected, reported_rtt, select_address, with_rtt, AddressEntry, AddressV, IpAddress,
};
use crate::seqs::{first_index, lemma_first_index, lemma_first_index_is};
use vstd::prelude::*;

verus! {

/// A server to send a query to: its name, the address chosen, and the
/// round-trip time of that address. Servers are ordered by that time.
#[derive(Debug)]
pub struct Nameserver {
    pub name: Name,
    pub address: IpAddress,
    pub rtt: u32,
}

/// The abstract value of a chosen server.
pub struct NameserverV {
    pub name: Seq<Seq<u8>>,
    pub address: IpAddress,
    pub rtt: u32,
}

impl View for Nameserver {
    type V = NameserverV;

    open spec fn view(&self) -> NameserverV {
        NameserverV { name: self.name@, address: self.address, rtt: self.rtt }
    }
}

/// The abstract value of an optional chosen server.
pub open spec fn opt_server_view(o: Option<Nameserver>) -> Option<NameserverV> {
    match o {
        Some(n) => Some(n@),
        None => None,
    }
}

impl Nameserver {
    /// An independent copy.
    pub fn copy(&self) -> (r: Nameserver)
        ensures
            r@ == self@,
    {
        Nameserver { name: self.name.copy(), address: self.address, rtt: self.rtt }
    }
}

/// A name server and its known addresses.
pub struct NameserverEntry {
    name: Name,
    addresses: Vec<AddressEntry>,
}

/// The abstract value of a name server entry.
pub struct NameserverEntryV {
    pub name: Seq<Seq<u8>>,
    pub addresses: Seq<AddressV>,
}

impl View for NameserverEntry {
    type V = NameserverEntryV;

    closed spec fn view(&self) -> NameserverEntryV {
        NameserverEntryV { name: self.name@, addresses: addresses_view(self.addresses@) }
    }
}

/// The server of entry `e` at the address at `i`.
pub open spec fn server_at(e: NameserverEntryV, i: int) -> NameserverV {
    NameserverV { name: e.name, address: e.addresses[i].address, rtt: reported_rtt(e.addresses[i]) }
}

/// Whether `n` is the server of `e` at its chosen address.
pub open spec fn is_chosen_server(e: NameserverEntryV, n: NameserverV) -> bool {
    exists|i: int| is_selected(e.addresses, i) && n == server_at(e, i)
}

/// The position of the first address of `s` equal to `a`, or -1.
pub open spec fn address_pos(s: Seq<AddressV>, a: IpAddress) -> int {
    first_index(s.map_values(|x: AddressV| x.address), a)
}

/// The entry after recording round-trip time `rtt` at `now` for the first
/// of its addresses equal to `target`; unchanged where none is.
pub open spec fn entry_with_rtt(e: NameserverEntryV, target: IpAddress, rtt: u32, now: u64) -> NameserverEntryV {
    let i = address_pos(e.addresses, target);
    if i < 0 {
        e
    } else {
        NameserverEntryV { addresses: e.addresses.update(i, with_rtt(e.addresses[i], rtt, now)), ..e }
    }
}

/// There is one selected address at most.
pub proof fn lemma_selected_unique(s: Seq<AddressV>, i: int, j: int)
    requires
        is_selected(s, i),
        is_selected(s, j),
    ensures
        i == j,
{
    if i < j {
        assert(s[j].rtt < s[i].rtt);
    } else if j < i {
        assert(s[i].rtt < s[j].rtt);
    }
}

impl NameserverEntry {
    /// An entry of server `name` with `addresses`, of which there is one at
    /// least.
    pub fn new(name: Name, addresses: Vec<AddressEntry>) -> (r: NameserverEntry)
        requires
            addresses.len() > 0,
        ensures
            r@ == (NameserverEntryV { name: name@, addresses: addresses_view(addresses@) }),
    {
        NameserverEntry { name, addresses }
    }

    /// The key of the entry: its name.
    pub fn get_key(&self) -> (r: crate::lru_store::CacheKey)
        ensures
            key_view(r) == name_key(self@.name),
    {
        make_name_key(&self.name)
    }

    /// The name of the server.
    pub fn get_name(&self) -> (r: &Name)
        ensures
            r@ == self@.name,
    {
        &self.name
    }

    /// The addresses of the server.
    pub fn get_addresses(&self) -> (r: &Vec<AddressEntry>)
        ensures
            addresses_view(r@) == self@.addresses,
    {
        &self.addresses
    }

    /// The server at the version 4 address with the least round-trip time.
    pub fn select_nameserver(&self) -> (r: Nameserver)
        requires
            has_v4(self@.addresses),
        ensures
            is_chosen_server(self@, r@),
    {
        let a = select_address(&self.addresses);
        match a {
            Some(addr) => {
                let r = Nameserver { name: self.name.copy(), address: addr.get_addr(), rtt: addr.get_rtt() };
                proof {
                    let i = choose|i: int| is_selected(self@.addresses, i) && addr@ == self@.addresses[i];
                    assert(r@ == server_at(self@, i));
                }
                r
            },
            None => {
                proof {
                    assert(false);
                }
                Nameserver { name: self.name.copy(), address: IpAddress::V4(0), rtt: 0 }
            },
        }
    }

    /// Records round-trip time `rtt` at `now` for the first address equal
    /// to `target`, as `entry_with_rtt` says.
    pub fn update_address_rtt_at(&mut self, target: IpAddress, rtt: u32, now: u64)
        ensures
            final(self)@ == entry_with_rtt(old(self)@, target, rtt, now),
    {
        let ghost s = self@.addresses;
        let ghost addrs = s.map_values(|x: AddressV| x.address);
        proof {
            lemma_first_index(addrs, target);
        }
        let mut i: usize = 0;
        while i < self.addresses.len()
            invariant
                i <= self.addresses.len(),
                s == old(self)@.addresses,
                addrs == s.map_values(|x: AddressV| x.address),
                self@ == old(self)@,
                s.len() == self.addresses.len(),
                forall|j: int| 0 <= j < i ==> addrs[j] != target,
            decreases self.addresses.len() - i,
        {
            proof {
                assert(addrs[i as int] == self.addresses@[i as int]@.address);
            }
            if self.addresses[i].get_addr() == target {
                proof {
                    crate::seqs::lemma_first_index_is(addrs, target, i as int);
                }
                let mut a = self.addresses[i];
                a.set_rtt_at(rtt, now);
                self.addresses.set(i, a);
                proof {
                    assert(addresses_view(self.addresses@) =~= s.update(i as int, with_rtt(s[i as int], rtt, now)));
                }
                return;
            }
            i = i + 1;
        }
        proof {
            crate::seqs::lemma_first_index_is(addrs, target, -1);
        }
    }

    /// Records round-trip time `rtt` now for the first address equal to
    /// `target`.
    pub fn update_address_rtt(&mut self, target: IpAddress, rtt: u32)
        ensures
            exists|now: u64| final(self)@ == #[trigger] entry_with_rtt(old(self)@, target, rtt, now),
    {
        let now = now_nanos();
        self.update_address_rtt_at(target, rtt, now);
    }

    /// Marks the first address equal to `target` unreachable at `now`.
    pub fn set_address_unreachable_at(&mut self, target: IpAddress, now: u64)
        ensures
            final(self)@ == entry_with_rtt(old(self)@, target, crate::resolver::nsas::address_entry::UNREACHABLE_RTT, now),
    {
        self.update_address_rtt_at(target, crate::resolver::nsas::address_entry::UNREACHABLE_RTT, now);
    }

    /// Marks the first address equal to `target` unreachable now.
    pub fn set_address_unreachable(&mut self, target: IpAddress)
        ensures
            exists|now: u64| final(self)@ == #[trigger] entry_with_rtt(
                old(self)@,
                target,
                crate::resolver::nsas::address_entry::UNREACHABLE_RTT,
                now,
            ),
    {
        let now = now_nanos();
        self.set_address_unreachable_at(target, now);
    }

    /// Records the round-trip time of `nameserver` at `now` for its address.
    pub fn update_nameserver_at(&mut self, nameserver: &Nameserver, now: u64)
        ensures
            final(self)@ == entry_with_rtt(old(self)@, nameserver.address, nameserver.rtt, now),
    {
        self.update_address_rtt_at(nameserver.address, nameserver.rtt, now);
    }
}

/// The server of `e` at its chosen address.
pub open spec fn chosen_server(e: NameserverEntryV) -> NameserverV {
    server_at(e, choose|i: int| is_selected(e.addresses, i))
}

/// The name server entry an item holds.
pub open spec fn item_nameserver(item: CachedItem) -> NameserverEntryV {
    match item {
        CachedItem::Nameserver(e) => e@,
        _ => arbitrary(),
    }
}

/// The name server entry of a store entry.
pub open spec fn entry_nameserver(e: (KeyV, CachedItem)) -> NameserverEntryV {
    item_nameserver(e.1)
}

/// Whether an item is a name server entry.
pub open spec fn nameserver_item_ok(item: CachedItem) -> bool {
    item is Nameserver
}

/// The key an item holding a name server entry is stored under.
pub open spec fn nameserver_item_key(item: CachedItem) -> KeyV {
    name_key(item_nameserver(item).name)
}

/// The position in `v` of the entry of server `name`, or -1.
pub open spec fn nameserver_pos(v: Seq<NameserverEntryV>, name: Seq<Seq<u8>>) -> int {
    first_index(v.map_values(|e: NameserverEntryV| name_key(e.name)), name_key(name))
}

/// A lookup of server `name` in entries `v`: the entries after it, with the
/// entry found made the most recently used, and the server at its chosen
/// address, where it has a version 4 address.
pub open spec fn nameserver_lookup(v: Seq<NameserverEntryV>, name: Seq<Seq<u8>>) -> (Seq<NameserverEntryV>, Option<NameserverV>) {
    let i = nameserver_pos(v, name);
    if i < 0 {
        (v, None)
    } else {
        (v.remove(i).push(v[i]), if has_v4(v[i].addresses) { Some(chosen_server(v[i])) } else { None })
    }
}

/// Cache `c` after entry `e` is stored in place of any entry of the same
/// server, as the most recently used.
pub open spec fn nameserver_added(c: NameserverCacheV, e: NameserverEntryV) -> NameserverCacheV {
    let i = nameserver_pos(c.entries, e.name);
    NameserverCacheV { entries: push_bounded(if i >= 0 { c.entries.remove(i) } else { c.entries }, c.capacity, e), ..c }
}

/// The cache of name server entries, by server name.
pub struct NameserverCache {
    store: LruStore,
}

/// The abstract state of a name server cache.
pub struct NameserverCacheV {
    pub entries: Seq<NameserverEntryV>,
    pub capacity: nat,
}

impl View for NameserverCache {
    type V = NameserverCacheV;

    closed spec fn view(&self) -> NameserverCacheV {
        NameserverCacheV {
            entries: self.store.entries().map_values(|e: (KeyV, CachedItem)| entry_nameserver(e)),
            capacity: self.store.capacity(),
        }
    }
}

impl NameserverCache {
    /// The store is well formed and holds name server entries under their
    /// names.
    pub closed spec fn wf(&self) -> bool {
        &&& self.store.wf()
        &&& items_ok(self.store.entries(), |i: CachedItem| nameserver_item_ok(i), |i: CachedItem| nameserver_item_key(i))
    }

    proof fn lemma_keys(&self)
        requires
            self.wf(),
        ensures
            keys_of(self.store.entries()) == self@.entries.map_values(|e: NameserverEntryV| name_key(e.name)),
    {
        assert(keys_of(self.store.entries()) =~= self@.entries.map_values(|e: NameserverEntryV| name_key(e.name)));
    }

    /// An empty cache for at most `cap` servers.
    pub fn new(cap: usize) -> (r: NameserverCache)
        ensures
            r.wf(),
            r@.entries == Seq::<NameserverEntryV>::empty(),
            r@.capacity == cap,
    {
        let r = NameserverCache { store: LruStore::new(cap) };
        proof {
            assert(r@.entries =~= Seq::<NameserverEntryV>::empty());
        }
        r
    }

    /// The number of servers cached.
    pub fn len(&self) -> (r: usize)
        ensures
            r == self@.entries.len(),
    {
        self.store.len()
    }

    /// Stores `entry`, in place of any entry of the same server, as the most
    /// recently used.
    pub fn add_nameserver(&mut self, entry: NameserverEntry)
        requires
            old(self).wf(),
        ensures
            final(self).wf(),
            final(self)@ == nameserver_added(old(self)@, entry@),
    {
        proof {
            self.lemma_keys();
        }
        let ghost s0 = self.store.entries();
        let key = entry.get_key();
        let ghost k = key_view(key);
        proof {
            lemma_first_index(keys_of(s0), k);
        }
        self.store.pop(&key);
        proof {
            let i = key_pos(s0, k);
            if i >= 0 {
                lemma_remove_item(
                    s0,
                    i,
                    |i: CachedItem| nameserver_item_ok(i),
                    |i: CachedItem| nameserver_item_key(i),
                    |e: (KeyV, CachedItem)| entry_nameserver(e),
                );
            }
        }
        let ghost mid = self.store.entries();
        proof {
            lemma_put_fresh_item(
                mid,
                self.store.capacity(),
                k,
                CachedItem::Nameserver(entry),
                |i: CachedItem| nameserver_item_ok(i),
                |i: CachedItem| nameserver_item_key(i),
                |e: (KeyV, CachedItem)| entry_nameserver(e),
            );
        }
        self.store.put(key, CachedItem::Nameserver(entry));
    }

    /// Looks up server `name`, as `nameserver_lookup` says.
    pub fn get_nameserver(&mut self, name: &Name) -> (r: Option<Nameserver>)
        requires
            old(self).wf(),
        ensures
            final(self).wf(),
            (final(self)@.entries, opt_server_view(r)) == nameserver_lookup(old(self)@.entries, name@),
            final(self)@.capacity == old(self)@.capacity,
    {
        proof {
            self.lemma_keys();
        }
        let ghost s0 = self.store.entries();
        let key = make_name_key(name);
        let ghost k = key_view(key);
        proof {
            lemma_first_index(keys_of(s0), k);
        }
        let popped = self.store.pop(&key);
        match popped {
            None => None,
            Some(item) => {
                let ghost i = key_pos(s0, k);
                proof {
                    lemma_remove_item(
                        s0,
                        i,
                        |i: CachedItem| nameserver_item_ok(i),
                        |i: CachedItem| nameserver_item_key(i),
                        |e: (KeyV, CachedItem)| entry_nameserver(e),
                    );
                    assert(nameserver_item_ok(s0[i].1));
                }
                match item {
                    CachedItem::Nameserver(e) => {
                        let r = if has_v4_address(&e.addresses) {
                            let n = e.select_nameserver();
                            proof {
                                let j = choose|j: int| is_selected(e@.addresses, j) && n@ == server_at(e@, j);
                                let c = choose|i: int| is_selected(e@.addresses, i);
                                lemma_selected_unique(e@.addresses, j, c);
                            }
                            Some(n)
                        } else {
                            None
                        };
                        let ghost mid = self.store.entries();
                        proof {
                            lemma_put_fresh_item(
                                mid,
                                self.store.capacity(),
                                k,
                                CachedItem::Nameserver(e),
                                |i: CachedItem| nameserver_item_ok(i),
                                |i: CachedItem| nameserver_item_key(i),
                                |e: (KeyV, CachedItem)| entry_nameserver(e),
                            );
                        }
                        self.store.put(key, CachedItem::Nameserver(e));
                        r
                    },
                    _ => {
                        proof {
                            assert(false);
                        }
                        None
                    },
                }
            },
        }
    }

    /// Records the round-trip time of `nameserver` at `now` for its address
    /// in its entry, which becomes the most recently used; nothing changes
    /// where the server is not cached.
    pub fn update_nameserver_rtt_at(&mut self, nameserver: &Nameserver, now: u64)
        requires
            old(self).wf(),
        ensures
            final(self).wf(),
            final(self)@.capacity == old(self)@.capacity,
            ({
                let v = old(self)@.entries;
                let i = nameserver_pos(v, nameserver@.name);
                final(self)@.entries == if i < 0 {
                    v
                } else {
                    v.remove(i).push(entry_with_rtt(v[i], nameserver.address, nameserver.rtt, now))
                }
            }),
    {
        proof {
            self.lemma_keys();
        }
        let ghost s0 = self.store.entries();
        let key = make_name_key(&nameserver.name);
        let ghost k = key_view(key);
        proof {
            lemma_first_index(keys_of(s0), k);
        }
        let popped = self.store.pop(&key);
        match popped {
            None => {},
            Some(item) => {
                let ghost i = key_pos(s0, k);
                proof {
                    lemma_remove_item(
                        s0,
                        i,
                        |i: CachedItem| nameserver_item_ok(i),
                        |i: CachedItem| nameserver_item_key(i),
                        |e: (KeyV, CachedItem)| entry_nameserver(e),
                    );
                    assert(nameserver_item_ok(s0[i].1));
                }
                match item {
                    CachedItem::Nameserver(mut e) => {
                        e.update_nameserver_at(nameserver, now);
                        let ghost mid = self.store.entries();
                        proof {
                            lemma_put_fresh_item(
                                mid,
                                self.store.capacity(),
                                k,
                                CachedItem::Nameserver(e),
                                |i: CachedItem| nameserver_item_ok(i),
                                |i: CachedItem| nameserver_item_key(i),
                                |e: (KeyV, CachedItem)| entry_nameserver(e),
                            );
                        }
                        self.store.put(key, CachedItem::Nameserver(e));
                    },
                    _ => {
                        proof {
                            assert(false);
                        }
                    },
                }
            },
        }
    }
}

/// Whether some address is of version 4.
pub fn has_v4_address(addresses: &Vec<AddressEntry>) -> (r: bool)
    ensures
        r == has_v4(addresses_view(addresses@)),
{
    select_address(addresses).is_some()
}

/// A server just stored in a cache that can hold one is what a lookup of its
/// name gives: the server at its chosen address, where it has a version 4
/// address, and none otherwise.
pub proof fn lemma_nameserver_found_after_add(c: NameserverCache, e: NameserverEntryV)
    requires
        c.wf(),
        c@.capacity > 0,
    ensures
        nameserver_lookup(nameserver_added(c@, e).entries, e.name).1 == (if has_v4(e.addresses) {
            Some(chosen_server(e))
        } else {
            None
        }),
{
    c.lemma_keys();
    let v = c@.entries;
    let k = name_key(e.name);
    let keys = v.map_values(|x: NameserverEntryV| name_key(x.name));
    let i = nameserver_pos(v, e.name);
    lemma_first_index(keys, k);
    let rest = if i >= 0 { v.remove(i) } else { v };
    assert forall|j: int| 0 <= j < rest.len() implies name_key(#[trigger] rest[j].name) != k by {
        if i >= 0 {
            let j2 = if j < i { j } else { j + 1 };
            assert(rest[j] == v[j2]);
            assert(keys[j2] == name_key(v[j2].name));
            assert(keys[i] == k);
            assert(c.store.entries()[j2].0 != c.store.entries()[i].0);
        } else {
            assert(keys[j] == name_key(v[j].name));
        }
    }
    let w = nameserver_added(c@, e).entries;
    let wk = w.map_values(|x: NameserverEntryV| name_key(x.name));
    let last = w.len() - 1;
    assert(w.len() >= 1 && w[last] == e);
    assert forall|j: int| 0 <= j < last implies wk[j] != k by {
        if rest.len() == c@.capacity {
            assert(w[j] == rest[j + 1]);
        } else {
            assert(w[j] == rest[j]);
        }
    }
    lemma_first_index_is(wk, k, last);
}

} // verus!
