//! The name servers of zones, and the cache of them.
use crate::cache::rrset_entry::{expired, expire_time_at, expire_at};
use crate::clock::now_nanos;
use crate::lru_store::{
    items_ok, key_pos, key_view, keys_of, lemma_put_fresh_item, lemma_remove_item, make_name_key, name_key, push_bounded,
    CachedItem, KeyV, LruStore,
};
use crate::name::Name;
use crate::resolver::nsas::nameserver_entry::{opt_server_view, nameserver_lookup, Nameserver, NameserverCache, NameserverV};
use crate::seqs::{first_index, lemma_first_index, lemma_first_index_is};
use vstd::prelude::*;

verus! {

/// A zone, the names of its servers, and when the knowledge expires
/// (nanoseconds since the epoch).
pub struct ZoneEntry {
    name: Name,
    nameservers: Vec<Name>,
    expire_time: u64,
}

/// The abstract value of a zone entry.
pub struct ZoneEntryV {
    pub name: Seq<Seq<u8>>,
    pub nameservers: Seq<Seq<Seq<u8>>>,
    pub expire_time: u64,
}

/// The views of names.
pub open spec fn names_view(v: Seq<Name>) -> Seq<Seq<Seq<u8>>> {
    v.map_values(|n: Name| n@)
}

impl View for ZoneEntry {
    type V = ZoneEntryV;

    closed spec fn view(&self) -> ZoneEntryV {
        ZoneEntryV { name: self.name@, nameservers: names_view(self.nameservers@), expire_time: self.expire_time }
    }
}

/// `s` without its element at `i`, whose place the last element takes.
pub open spec fn swap_remove<A>(s: Seq<A>, i: int) -> Seq<A> {
    if i == s.len() - 1 {
        s.drop_last()
    } else {
        s.update(i, s.last()).drop_last()
    }
}

/// `swap_remove` keeps the elements before `i` in place, puts the last
/// element at `i` and keeps the others after it in place; what it keeps is
/// what was there, one `s[i]` fewer, and it keeps a sequence free of
/// repeats.
pub proof fn lemma_swap_remove<A>(s: Seq<A>, i: int)
    requires
        0 <= i < s.len(),
    ensures
        swap_remove(s, i).len() == s.len() - 1,
        forall|k: int| 0 <= k < i ==> #[trigger] swap_remove(s, i)[k] == s[k],
        forall|k: int| i < k < s.len() - 1 ==> #[trigger] swap_remove(s, i)[k] == s[k],
        i < s.len() - 1 ==> swap_remove(s, i)[i] == s[s.len() - 1],
        swap_remove(s, i).to_multiset() == s.to_multiset().remove(s[i]),
        s.no_duplicates() ==> swap_remove(s, i).no_duplicates(),
        s.no_duplicates() ==> !swap_remove(s, i).contains(s[i]),
{
    broadcast use vstd::multiset::group_multiset_axioms;

    let r = swap_remove(s, i);
    let last = s.len() - 1;
    if i == last {
        assert(s.drop_last() == s.remove(i));
        vstd::seq_lib::to_multiset_remove(s, i);
    } else {
        let t = s.update(i, s[last]);
        vstd::seq_lib::to_multiset_update(s, i, s[last]);
        assert(t.drop_last() == t.remove(last));
        vstd::seq_lib::to_multiset_remove(t, last);
        assert(r.to_multiset() =~= s.to_multiset().remove(s[i]));
    }
    if s.no_duplicates() {
        assert forall|a: int, b: int| 0 <= a < r.len() && 0 <= b < r.len() && a != b implies r[a] != r[b] by {
            let a2 = if a == i { last } else { a };
            let b2 = if b == i { last } else { b };
            assert(r[a] == s[a2]);
            assert(r[b] == s[b2]);
        }
        assert forall|a: int| 0 <= a < r.len() implies r[a] != s[i] by {
            let a2 = if a == i { last } else { a };
            assert(r[a] == s[a2]);
        }
    }
}

/// The choice of servers of a zone, going over the names `names[0..k]` from
/// the last: each name is taken out with `swap_remove`; a server found in
/// the cache `cache` with a version 4 address is kept, and the name of any
/// other is put back at the end. Gives the servers kept, in that order, the
/// names put back, and the cache after the lookups.
pub open spec fn choose_servers(
    names: Seq<Seq<Seq<u8>>>,
    k: nat,
    servers: Seq<NameserverV>,
    cache: Seq<crate::resolver::nsas::nameserver_entry::NameserverEntryV>,
) -> (Seq<NameserverV>, Seq<Seq<Seq<u8>>>, Seq<crate::resolver::nsas::nameserver_entry::NameserverEntryV>)
    decreases k,
{
    if k == 0 {
        (servers, names, cache)
    } else {
        let i = k - 1;
        let name = names[i];
        let rest = swap_remove(names, i);
        let (c1, found) = nameserver_lookup(cache, name);
        match found {
            Some(n) => choose_servers(rest, (k - 1) as nat, servers.push(n), c1),
            None => choose_servers(rest.push(name), (k - 1) as nat, servers, c1),
        }
    }
}

/// `choose_servers` over all of `names`, starting with no server.
pub open spec fn selection(
    names: Seq<Seq<Seq<u8>>>,
    cache: Seq<crate::resolver::nsas::nameserver_entry::NameserverEntryV>,
) -> (Seq<NameserverV>, Seq<Seq<Seq<u8>>>, Seq<crate::resolver::nsas::nameserver_entry::NameserverEntryV>) {
    choose_servers(names, names.len(), Seq::empty(), cache)
}

/// The names of servers, in order.
pub open spec fn server_names(v: Seq<NameserverV>) -> Seq<Seq<Seq<u8>>> {
    v.map_values(|n: NameserverV| n.name)
}

/// A server a lookup of `name` finds is a server of that name.
proof fn lemma_lookup_name(v: Seq<crate::resolver::nsas::nameserver_entry::NameserverEntryV>, name: Seq<Seq<u8>>)
    ensures
        nameserver_lookup(v, name).1 matches Some(n) ==> n.name == name,
{
    let keys = v.map_values(|e: crate::resolver::nsas::nameserver_entry::NameserverEntryV| name_key(e.name));
    lemma_first_index(keys, name_key(name));
}

/// A lookup of `x` leaves what a lookup of another name `y` finds as it was.
proof fn lemma_lookup_other(v: Seq<crate::resolver::nsas::nameserver_entry::NameserverEntryV>, x: Seq<Seq<u8>>, y: Seq<Seq<u8>>)
    requires
        x != y,
    ensures
        nameserver_lookup(nameserver_lookup(v, x).0, y).1 == nameserver_lookup(v, y).1,
{
    let kf = v.map_values(|e: crate::resolver::nsas::nameserver_entry::NameserverEntryV| name_key(e.name));
    lemma_first_index(kf, name_key(x));
    lemma_first_index(kf, name_key(y));
    let ix = first_index(kf, name_key(x));
    if ix >= 0 {
        let v1 = v.remove(ix).push(v[ix]);
        let kf1 = v1.map_values(|e: crate::resolver::nsas::nameserver_entry::NameserverEntryV| name_key(e.name));
        assert(kf[ix] == name_key(v[ix].name));
        let p = first_index(kf, name_key(y));
        if p < 0 {
            assert forall|k: int| 0 <= k < kf1.len() implies kf1[k] != name_key(y) by {
                if k < ix {
                    assert(v1[k] == v[k]);
                    assert(kf[k] == name_key(v[k].name));
                } else if k < v.len() - 1 {
                    assert(v1[k] == v[k + 1]);
                    assert(kf[k + 1] == name_key(v[k + 1].name));
                } else {
                    assert(v1[k] == v[ix]);
                }
            }
            lemma_first_index_is(kf1, name_key(y), -1);
        } else {
            assert(p != ix);
            let p2 = if p < ix { p } else { p - 1 };
            assert(v1[p2] == v[p]);
            assert(kf[p] == name_key(v[p].name));
            assert forall|k: int| 0 <= k < p2 implies kf1[k] != name_key(y) by {
                let k2 = if k < ix { k } else { k + 1 };
                assert(v1[k] == v[k2]);
                assert(kf[k2] == name_key(v[k2].name));
            }
            lemma_first_index_is(kf1, name_key(y), p2);
        }
    }
}

/// The choice keeps every name: the names of the servers chosen and the
/// names left, together, are the names it started with and those of the
/// servers it was given.
proof fn lemma_choose_servers_names(
    names: Seq<Seq<Seq<u8>>>,
    k: nat,
    servers: Seq<NameserverV>,
    cache: Seq<crate::resolver::nsas::nameserver_entry::NameserverEntryV>,
)
    requires
        k <= names.len(),
    ensures
        server_names(choose_servers(names, k, servers, cache).0).to_multiset().add(choose_servers(names, k, servers, cache).1.to_multiset())
            == server_names(servers).to_multiset().add(names.to_multiset()),
    decreases k,
{
    broadcast use vstd::multiset::group_multiset_axioms;

    if k > 0 {
        let i = k - 1;
        let name = names[i];
        let rest = swap_remove(names, i);
        lemma_swap_remove(names, i);
        assert(names.contains(name));
        vstd::seq_lib::to_multiset_contains(names, name);
        let (c1, found) = nameserver_lookup(cache, name);
        lemma_lookup_name(cache, name);
        match found {
            Some(n) => {
                let s2 = servers.push(n);
                lemma_choose_servers_names(rest, (k - 1) as nat, s2, c1);
                assert(server_names(s2) =~= server_names(servers).push(name));
                vstd::seq_lib::to_multiset_build(server_names(servers), name);
                assert(server_names(s2).to_multiset().add(rest.to_multiset()) =~= server_names(servers).to_multiset().add(
                    names.to_multiset(),
                ));
            },
            None => {
                lemma_choose_servers_names(rest.push(name), (k - 1) as nat, servers, c1);
                vstd::seq_lib::to_multiset_build(rest, name);
                assert(rest.push(name).to_multiset() =~= names.to_multiset());
            },
        }
    }
}

/// Over distinct names, the choice gives each name that the cache `c0` it
/// started from finds a server of, that server, and leaves the others.
proof fn lemma_choose_servers_found(
    names: Seq<Seq<Seq<u8>>>,
    k: nat,
    servers: Seq<NameserverV>,
    cache: Seq<crate::resolver::nsas::nameserver_entry::NameserverEntryV>,
    c0: Seq<crate::resolver::nsas::nameserver_entry::NameserverEntryV>,
)
    requires
        k <= names.len(),
        names.no_duplicates(),
        forall|j: int| 0 <= j < k ==> nameserver_lookup(cache, #[trigger] names[j]).1 == nameserver_lookup(c0, names[j]).1,
        forall|j: int| 0 <= j < servers.len() ==> nameserver_lookup(c0, (#[trigger] servers[j]).name).1 == Some(servers[j]),
        forall|j: int| k <= j < names.len() ==> nameserver_lookup(c0, #[trigger] names[j]).1 is None,
    ensures
        ({
            let (sv, m, _c) = choose_servers(names, k, servers, cache);
            &&& forall|j: int| 0 <= j < sv.len() ==> nameserver_lookup(c0, (#[trigger] sv[j]).name).1 == Some(sv[j])
            &&& forall|j: int| 0 <= j < m.len() ==> nameserver_lookup(c0, #[trigger] m[j]).1 is None
        }),
    decreases k,
{
    if k > 0 {
        let i = k - 1;
        let name = names[i];
        let rest = swap_remove(names, i);
        lemma_swap_remove(names, i);
        assert(names[i] == name);
        let (c1, found) = nameserver_lookup(cache, name);
        lemma_lookup_name(cache, name);
        assert forall|j: int| 0 <= j < k - 1 implies nameserver_lookup(c1, #[trigger] rest[j]).1 == nameserver_lookup(c0, rest[j]).1 by {
            assert(rest[j] == names[j]);
            assert(names[j] != names[i]);
            lemma_lookup_other(cache, name, names[j]);
        }
        match found {
            Some(n) => {
                let s2 = servers.push(n);
                assert forall|j: int| 0 <= j < s2.len() implies nameserver_lookup(c0, (#[trigger] s2[j]).name).1 == Some(s2[j]) by {
                    if j < servers.len() {
                        assert(s2[j] == servers[j]);
                    }
                }
                assert forall|j: int| k - 1 <= j < rest.len() implies nameserver_lookup(c0, #[trigger] rest[j]).1 is None by {
                    if j == i {
                        assert(rest[j] == names[names.len() - 1]);
                    } else {
                        assert(rest[j] == names[j]);
                    }
                }
                lemma_choose_servers_found(rest, (k - 1) as nat, s2, c1, c0);
                assert(choose_servers(names, k, servers, cache) == choose_servers(rest, (k - 1) as nat, s2, c1));
            },
            None => {
                let r2 = rest.push(name);
                assert forall|a: int, b: int| 0 <= a < r2.len() && 0 <= b < r2.len() && a != b implies r2[a] != r2[b] by {
                    if a < rest.len() && b < rest.len() {
                        assert(r2[a] == rest[a] && r2[b] == rest[b]);
                    } else if a < rest.len() {
                        assert(r2[a] == rest[a] && rest.contains(rest[a]));
                    } else if b < rest.len() {
                        assert(r2[b] == rest[b] && rest.contains(rest[b]));
                    }
                }
                assert forall|j: int| 0 <= j < k - 1 implies nameserver_lookup(c1, #[trigger] r2[j]).1 == nameserver_lookup(c0, r2[j]).1 by {
                    assert(r2[j] == rest[j]);
                }
                assert forall|j: int| k - 1 <= j < r2.len() implies nameserver_lookup(c0, #[trigger] r2[j]).1 is None by {
                    if j == rest.len() {
                        assert(r2[j] == name);
                    } else if j == i {
                        assert(r2[j] == names[names.len() - 1]);
                    } else {
                        assert(r2[j] == names[j]);
                    }
                }
                lemma_choose_servers_found(r2, (k - 1) as nat, servers, c1, c0);
                assert(choose_servers(names, k, servers, cache) == choose_servers(r2, (k - 1) as nat, servers, c1));
            },
        }
    } else {
        assert(choose_servers(names, k, servers, cache) == (servers, names, cache));
    }
}

/// The choice of a zone's servers stated directly: the names of the servers
/// found and the names left without a known address are, together, the
/// zone's server names. Where those are distinct, a name gives a server
/// exactly when a lookup of it in the cache finds one, and it is that server.
pub proof fn lemma_selection(
    names: Seq<Seq<Seq<u8>>>,
    cache: Seq<crate::resolver::nsas::nameserver_entry::NameserverEntryV>,
)
    ensures
        ({
            let (sv, missing, _c) = selection(names, cache);
            &&& server_names(sv).to_multiset().add(missing.to_multiset()) == names.to_multiset()
            &&& names.no_duplicates() ==> forall|j: int| 0 <= j < sv.len() ==> nameserver_lookup(cache, (#[trigger] sv[j]).name).1 == Some(sv[j])
            &&& names.no_duplicates() ==> forall|j: int| 0 <= j < missing.len() ==> nameserver_lookup(cache, #[trigger] missing[j]).1 is None
        }),
{
    broadcast use vstd::multiset::group_multiset_axioms;

    let empty = Seq::<NameserverV>::empty();
    assert(server_names(empty) =~= Seq::<Seq<Seq<u8>>>::empty());
    assert forall|a: Seq<Seq<u8>>| server_names(empty).to_multiset().count(a) == 0 by {
        vstd::seq_lib::to_multiset_contains(server_names(empty), a);
    }
    assert(server_names(empty).to_multiset() =~= vstd::multiset::Multiset::<Seq<Seq<u8>>>::empty());
    lemma_choose_servers_names(names, names.len(), empty, cache);
    assert(vstd::multiset::Multiset::<Seq<Seq<u8>>>::empty().add(names.to_multiset()) =~= names.to_multiset());
    if names.no_duplicates() {
        lemma_choose_servers_found(names, names.len(), empty, cache, cache);
    }
}

/// Whether `s[i]` has the least round-trip time of `s`, and no earlier
/// server has as little.
pub open spec fn is_fastest(s: Seq<NameserverV>, i: int) -> bool {
    &&& 0 <= i < s.len()
    &&& forall|j: int| 0 <= j < s.len() ==> s[i].rtt <= (#[trigger] s[j]).rtt
    &&& forall|j: int| 0 <= j < i ==> s[i].rtt < (#[trigger] s[j]).rtt
}

impl ZoneEntry {
    /// The entry of zone `name` served by `nameservers`, made at `now`,
    /// which expires `ttl` seconds later.
    pub fn new_at(name: Name, nameservers: Vec<Name>, ttl: u32, now: u64) -> (r: ZoneEntry)
        ensures
            r@ == (ZoneEntryV { name: name@, nameservers: names_view(nameservers@), expire_time: expire_at(now, ttl) }),
    {
        ZoneEntry { name, nameservers, expire_time: expire_time_at(now, ttl) }
    }

    /// The entry of zone `name` served by `nameservers`, made now, which
    /// expires `ttl` seconds later.
    pub fn new(name: Name, nameservers: Vec<Name>, ttl: u32) -> (r: ZoneEntry)
        ensures
            r@.name == name@,
            r@.nameservers == names_view(nameservers@),
            exists|now: u64| r@.expire_time == #[trigger] expire_at(now, ttl),
    {
        ZoneEntry::new_at(name, nameservers, ttl, now_nanos())
    }

    /// The key of the entry: the zone's name.
    pub fn get_key(&self) -> (r: crate::lru_store::CacheKey)
        ensures
            key_view(r) == name_key(self@.name),
    {
        make_name_key(&self.name)
    }

    /// The names of the zone's servers.
    pub fn get_server_names(&self) -> (r: &Vec<Name>)
        ensures
            names_view(r@) == self@.nameservers,
    {
        &self.nameservers
    }

    /// A copy of the names of the zone's servers.
    pub fn get_nameservers(&self) -> (r: Vec<Name>)
        ensures
            names_view(r@) == self@.nameservers,
    {
        copy_names(&self.nameservers)
    }

    /// Whether the entry has expired at `now`.
    pub fn is_expired_at(&self, now: u64) -> (r: bool)
        ensures
            r == expired(self@.expire_time, now),
    {
        self.expire_time <= now
    }

    /// Whether the entry has expired now.
    pub fn is_expired(&self) -> (r: bool)
        ensures
            exists|now: u64| r == expired(self@.expire_time, now),
    {
        self.is_expired_at(now_nanos())
    }

    /// Chooses a server of the zone: the fastest of those `nameservers`
    /// knows an address of version 4 for, the first of them where several
    /// tie, as `choose_servers` finds them; and the names of the servers it
    /// knows no such address of.
    pub fn select_nameserver(&self, nameservers: &mut NameserverCache) -> (r: (Option<Nameserver>, Vec<Name>))
        requires
            old(nameservers).wf(),
        ensures
            final(nameservers).wf(),
            final(nameservers)@.capacity == old(nameservers)@.capacity,
            final(nameservers)@.entries == selection(self@.nameservers, old(nameservers)@.entries).2,
            names_view(r.1@) == selection(self@.nameservers, old(nameservers)@.entries).1,
            r.0 is None <==> selection(self@.nameservers, old(nameservers)@.entries).0.len() == 0,
            r.0 is Some ==> exists|i: int|
                is_fastest(selection(self@.nameservers, old(nameservers)@.entries).0, i) && r.0->0@ == selection(
                    self@.nameservers,
                    old(nameservers)@.entries,
                ).0[i],
    {
        let mut missing = copy_names(&self.nameservers);
        let mut servers: Vec<Nameserver> = Vec::new();
        let ghost total = self@.nameservers;
        let ghost c0 = nameservers@.entries;
        let mut k: usize = missing.len();
        proof {
            assert(servers_view(servers@) =~= Seq::<NameserverV>::empty());
            assert(names_view(missing@).len() == missing@.len());
        }
        while k > 0
            invariant
                k <= missing.len(),
                total == self@.nameservers,
                c0 == old(nameservers)@.entries,
                nameservers.wf(),
                nameservers@.capacity == old(nameservers)@.capacity,
                choose_servers(names_view(missing@), k as nat, servers_view(servers@), nameservers@.entries)
                    == choose_servers(total, total.len(), Seq::empty(), c0),
            decreases k,
        {
            let i = k - 1;
            let ghost before = names_view(missing@);
            let name = missing.swap_remove(i);
            proof {
                assert(names_view(missing@) =~= swap_remove(before, i as int));
            }
            let found = nameservers.get_nameserver(&name);
            match found {
                Some(n) => {
                    let ghost sv = servers_view(servers@);
                    servers.push(n);
                    proof {
                        assert(servers_view(servers@) =~= sv.push(n@));
                    }
                },
                None => {
                    let ghost mv = names_view(missing@);
                    missing.push(name);
                    proof {
                        assert(names_view(missing@) =~= mv.push(name@));
                    }
                },
            }
            k = i;
        }
        let ghost sv = servers_view(servers@);
        proof {
            assert(sv.len() == servers@.len());
            assert(k == 0);
            assert(choose_servers(names_view(missing@), 0, sv, nameservers@.entries) == (
                sv,
                names_view(missing@),
                nameservers@.entries,
            ));
        }
        if servers.len() == 0 {
            (None, missing)
        } else {
            let mut best: usize = 0;
            let mut j: usize = 1;
            while j < servers.len()
                invariant
                    1 <= j <= servers.len(),
                    best < j,
                    sv == servers_view(servers@),
                    forall|x: int| 0 <= x < j ==> sv[best as int].rtt <= (#[trigger] sv[x]).rtt,
                    forall|x: int| 0 <= x < best ==> sv[best as int].rtt < (#[trigger] sv[x]).rtt,
                decreases servers.len() - j,
            {
                if servers[j].rtt < servers[best].rtt {
                    best = j;
                }
                j = j + 1;
            }
            proof {
                assert(is_fastest(sv, best as int));
            }
            let chosen = servers[best].copy();
            proof {
                assert(chosen@ == sv[best as int]);
                assert(sv == selection(self@.nameservers, old(nameservers)@.entries).0);
                assert(is_fastest(selection(self@.nameservers, old(nameservers)@.entries).0, best as int));
                assert(chosen@ == selection(self@.nameservers, old(nameservers)@.entries).0[best as int]);
            }
            (Some(chosen), missing)
        }
    }
}

/// The views of chosen servers.
pub open spec fn servers_view(v: Seq<Nameserver>) -> Seq<NameserverV> {
    v.map_values(|n: Nameserver| n@)
}

/// Independent copies of names.
pub fn copy_names(v: &Vec<Name>) -> (r: Vec<Name>)
    ensures
        names_view(r@) == names_view(v@),
{
    let mut r: Vec<Name> = Vec::new();
    let mut i: usize = 0;
    while i < v.len()
        invariant
            i <= v.len(),
            r@.len() == i,
            names_view(r@) == names_view(v@).subrange(0, i as int),
        decreases v.len() - i,
    {
        let ghost before = r@;
        r.push(v[i].copy());
        proof {
            assert(names_view(r@) =~= names_view(v@).subrange(0, i + 1));
        }
        i = i + 1;
    }
    proof {
        assert(names_view(v@).subrange(0, v.len() as int) =~= names_view(v@));
    }
    r
}

/// The zone entry an item holds.
pub open spec fn item_zone(item: CachedItem) -> ZoneEntryV {
    match item {
        CachedItem::Zone(e) => e@,
        _ => arbitrary(),
    }
}

/// The zone entry of a store entry.
pub open spec fn entry_zone(e: (KeyV, CachedItem)) -> ZoneEntryV {
    item_zone(e.1)
}

/// Whether an item is a zone entry.
pub open spec fn zone_item_ok(item: CachedItem) -> bool {
    item is Zone
}

/// The key an item holding a zone entry is stored under.
pub open spec fn zone_item_key(item: CachedItem) -> KeyV {
    name_key(item_zone(item).name)
}

/// The position in `v` of the entry of zone `name`, or -1.
pub open spec fn zone_pos(v: Seq<ZoneEntryV>, name: Seq<Seq<u8>>) -> int {
    first_index(v.map_values(|e: ZoneEntryV| name_key(e.name)), name_key(name))
}

/// The abstract state of a zone cache.
pub struct ZoneCacheV {
    pub entries: Seq<ZoneEntryV>,
    pub capacity: nat,
}

/// The entries of a zone cache after adding `e` at `now` to entries `v`: an
/// unexpired entry of the same zone stays, made the most recently used; an
/// expired one is replaced.
pub open spec fn zone_added(v: Seq<ZoneEntryV>, cap: nat, e: ZoneEntryV, now: u64) -> Seq<ZoneEntryV> {
    let i = zone_pos(v, e.name);
    if i < 0 {
        push_bounded(v, cap, e)
    } else if expired(v[i].expire_time, now) {
        push_bounded(v.remove(i), cap, e)
    } else {
        v.remove(i).push(v[i])
    }
}

/// What choosing a server of zone `name` at `now` does to zone entries `v`
/// and name server cache `c`, giving `v2`, `c2`, server `server` and the
/// names `missing` of servers without a known address: where the zone is
/// cached and its entry has not expired, the entry becomes the most recently
/// used and `selection` chooses; an expired entry is dropped; otherwise
/// nothing changes. Without a chosen zone there is no server and no name.
pub open spec fn zone_server_outcome(
    v: Seq<ZoneEntryV>,
    c: crate::resolver::nsas::nameserver_entry::NameserverCacheV,
    name: Seq<Seq<u8>>,
    now: u64,
    v2: Seq<ZoneEntryV>,
    c2: crate::resolver::nsas::nameserver_entry::NameserverCacheV,
    server: Option<NameserverV>,
    missing: Seq<Seq<Seq<u8>>>,
) -> bool {
    let i = zone_pos(v, name);
    if i < 0 {
        server is None && missing.len() == 0 && v2 == v && c2 == c
    } else if expired(v[i].expire_time, now) {
        server is None && missing.len() == 0 && v2 == v.remove(i) && c2 == c
    } else {
        let sel = selection(v[i].nameservers, c.entries);
        &&& v2 == v.remove(i).push(v[i])
        &&& c2.entries == sel.2
        &&& c2.capacity == c.capacity
        &&& missing == sel.1
        &&& (server is None <==> sel.0.len() == 0)
        &&& (server is Some ==> exists|j: int| is_fastest(sel.0, j) && server->0 == sel.0[j])
    }
}

/// The names of the servers without a known address that choosing a server
/// of zone `name` at `now` finds, as `zone_server_outcome` says.
pub open spec fn zone_missing(
    v: Seq<ZoneEntryV>,
    c: crate::resolver::nsas::nameserver_entry::NameserverCacheV,
    name: Seq<Seq<u8>>,
    now: u64,
) -> Seq<Seq<Seq<u8>>> {
    let i = zone_pos(v, name);
    if i < 0 || expired(v[i].expire_time, now) {
        Seq::empty()
    } else {
        selection(v[i].nameservers, c.entries).1
    }
}

/// The cache of zone entries, by zone name.
pub struct ZoneCache {
    store: LruStore,
}

impl View for ZoneCache {
    type V = ZoneCacheV;

    closed spec fn view(&self) -> ZoneCacheV {
        ZoneCacheV {
            entries: self.store.entries().map_values(|e: (KeyV, CachedItem)| entry_zone(e)),
            capacity: self.store.capacity(),
        }
    }
}

impl ZoneCache {
    /// The store is well formed and holds zone entries under their names.
    pub closed spec fn wf(&self) -> bool {
        &&& self.store.wf()
        &&& items_ok(self.store.entries(), |i: CachedItem| zone_item_ok(i), |i: CachedItem| zone_item_key(i))
    }

    proof fn lemma_keys(&self)
        requires
            self.wf(),
        ensures
            keys_of(self.store.entries()) == self@.entries.map_values(|e: ZoneEntryV| name_key(e.name)),
    {
        assert(keys_of(self.store.entries()) =~= self@.entries.map_values(|e: ZoneEntryV| name_key(e.name)));
    }

    /// An empty cache for at most `cap` zones.
    pub fn new(cap: usize) -> (r: ZoneCache)
        ensures
            r.wf(),
            r@.entries == Seq::<ZoneEntryV>::empty(),
            r@.capacity == cap,
    {
        let r = ZoneCache { store: LruStore::new(cap) };
        proof {
            assert(r@.entries =~= Seq::<ZoneEntryV>::empty());
        }
        r
    }

    /// The number of zones cached.
    pub fn len(&self) -> (r: usize)
        ensures
            r == self@.entries.len(),
    {
        self.store.len()
    }

    /// Takes the entry of zone key `key` out of the store.
    fn take(&mut self, key: &crate::lru_store::CacheKey) -> (r: Option<ZoneEntry>)
        requires
            old(self).wf(),
        ensures
            final(self).wf(),
            final(self)@.capacity == old(self)@.capacity,
            ({
                let v = old(self)@.entries;
                let i = first_index(v.map_values(|e: ZoneEntryV| name_key(e.name)), key_view(*key));
                &&& -1 <= i < v.len()
                &&& i < 0 ==> r is None && final(self)@.entries == v
                &&& i >= 0 ==> r is Some && r->0@ == v[i] && final(self)@.entries == v.remove(i)
                &&& forall|j: int| 0 <= j < final(self)@.entries.len() ==> name_key((#[trigger] final(self)@.entries[j]).name) != key_view(*key)
            }),
    {
        proof {
            self.lemma_keys();
        }
        let ghost s0 = self.store.entries();
        let ghost k = key_view(*key);
        proof {
            lemma_first_index(keys_of(s0), k);
        }
        let popped = self.store.pop(key);
        match popped {
            None => {
                proof {
                    assert forall|j: int| 0 <= j < self@.entries.len() implies name_key((#[trigger] self@.entries[j]).name) != k by {
                        assert(keys_of(s0)[j] == s0[j].0);
                    }
                }
                None
            },
            Some(item) => {
                let ghost i = key_pos(s0, k);
                proof {
                    lemma_remove_item(
                        s0,
                        i,
                        |i: CachedItem| zone_item_ok(i),
                        |i: CachedItem| zone_item_key(i),
                        |e: (KeyV, CachedItem)| entry_zone(e),
                    );
                    assert(zone_item_ok(s0[i].1));
                    let t = self.store.entries();
                    assert forall|j: int| 0 <= j < self@.entries.len() implies name_key((#[trigger] self@.entries[j]).name) != k by {
                        let j2 = if j < i { j } else { j + 1 };
                        assert(t[j] == s0[j2]);
                        assert(keys_of(s0)[j2] == s0[j2].0);
                        assert(s0[j2].0 != s0[i].0);
                    }
                }
                match item {
                    CachedItem::Zone(e) => Some(e),
                    _ => {
                        proof {
                            assert(false);
                        }
                        None
                    },
                }
            },
        }
    }

    /// Puts `entry` into the store, where no entry of its zone is.
    fn put_fresh(&mut self, entry: ZoneEntry)
        requires
            old(self).wf(),
            forall|j: int| 0 <= j < old(self)@.entries.len() ==> name_key((#[trigger] old(self)@.entries[j]).name) != name_key(entry@.name),
        ensures
            final(self).wf(),
            final(self)@ == (ZoneCacheV { entries: push_bounded(old(self)@.entries, old(self)@.capacity, entry@), ..old(self)@ }),
    {
        proof {
            self.lemma_keys();
        }
        let ghost s0 = self.store.entries();
        let key = entry.get_key();
        let ghost k = key_view(key);
        proof {
            assert forall|j: int| 0 <= j < keys_of(s0).len() implies keys_of(s0)[j] != k by {
                assert(keys_of(s0)[j] == name_key(self@.entries[j].name));
            }
            crate::seqs::lemma_first_index_is(keys_of(s0), k, -1);
            lemma_put_fresh_item(
                s0,
                self.store.capacity(),
                k,
                CachedItem::Zone(entry),
                |i: CachedItem| zone_item_ok(i),
                |i: CachedItem| zone_item_key(i),
                |e: (KeyV, CachedItem)| entry_zone(e),
            );
        }
        self.store.put(key, CachedItem::Zone(entry));
    }

    /// Adds `entry` at `now`, as `zone_added` says.
    pub fn add_zone_at(&mut self, entry: ZoneEntry, now: u64)
        requires
            old(self).wf(),
        ensures
            final(self).wf(),
            final(self)@ == (ZoneCacheV { entries: zone_added(old(self)@.entries, old(self)@.capacity, entry@, now), ..old(self)@ }),
    {
        let key = entry.get_key();
        let old_entry = self.take(&key);
        match old_entry {
            Some(o) => {
                if o.is_expired_at(now) {
                    self.put_fresh(entry);
                } else {
                    self.put_fresh(o);
                }
            },
            None => {
                self.put_fresh(entry);
            },
        }
    }

    /// Adds `entry` now, as `add_zone_at` says.
    pub fn add_zone(&mut self, entry: ZoneEntry)
        requires
            old(self).wf(),
        ensures
            final(self).wf(),
            exists|now: u64| final(self)@ == (ZoneCacheV { entries: #[trigger] zone_added(old(self)@.entries, old(self)@.capacity, entry@, now), ..old(self)@ }),
    {
        let now = now_nanos();
        self.add_zone_at(entry, now);
    }

    /// Chooses a server of zone `name` at `now`: where the zone is cached and
    /// its entry has not expired, the entry becomes the most recently used
    /// and chooses as `ZoneEntry::select_nameserver` says; an expired entry
    /// is dropped. Gives no server and no names where the zone is not cached
    /// or its entry has expired.
    pub fn get_nameserver_at(&mut self, name: &Name, nameservers: &mut NameserverCache, now: u64) -> (r: (Option<Nameserver>, Vec<Name>))
        requires
            old(self).wf(),
            old(nameservers).wf(),
        ensures
            final(self).wf(),
            final(nameservers).wf(),
            final(nameservers)@.capacity == old(nameservers)@.capacity,
            final(self)@.capacity == old(self)@.capacity,
            zone_server_outcome(
                old(self)@.entries,
                old(nameservers)@,
                name@,
                now,
                final(self)@.entries,
                final(nameservers)@,
                opt_server_view(r.0),
                names_view(r.1@),
            ),
    {
        let key = make_name_key(name);
        let found = self.take(&key);
        match found {
            None => (None, Vec::new()),
            Some(e) => {
                if e.is_expired_at(now) {
                    (None, Vec::new())
                } else {
                    let r = e.select_nameserver(nameservers);
                    self.put_fresh(e);
                    r
                }
            },
        }
    }
}

/// After an entry of a zone is added at `now` to a cache that can hold one,
/// the zone is cached as the most recently used entry: an unexpired entry
/// it already had stays, otherwise the added entry is the one kept.
pub proof fn lemma_zone_cached_after_add(c: ZoneCache, e: ZoneEntryV, now: u64)
    requires
        c.wf(),
        c@.capacity > 0,
    ensures
        ({
            let v = c@.entries;
            let i = zone_pos(v, e.name);
            let w = zone_added(v, c@.capacity, e, now);
            &&& w.len() > 0
            &&& zone_pos(w, e.name) == w.len() - 1
            &&& w[w.len() - 1] == if i >= 0 && !expired(v[i].expire_time, now) {
                v[i]
            } else {
                e
            }
        }),
{
    c.lemma_keys();
    let v = c@.entries;
    let k = name_key(e.name);
    let keys = v.map_values(|x: ZoneEntryV| name_key(x.name));
    let i = zone_pos(v, e.name);
    lemma_first_index(keys, k);
    let rest = if i >= 0 { v.remove(i) } else { v };
    assert forall|j: int| 0 <= j < rest.len() implies name_key(#[trigger] rest[j].name) != k by {
        if i >= 0 {
            let j2 = if j < i { j } else { j + 1 };
            assert(rest[j] == v[j2]);
            assert(keys[j2] == name_key(v[j2].name));
            assert(keys[i] == k);
            assert(c.store.entries()[j2].0 != c.store.entries()[i].0);
        } else {
            assert(keys[j] == name_key(v[j].name));
        }
    }
    let w = zone_added(v, c@.capacity, e, now);
    let wk = w.map_values(|x: ZoneEntryV| name_key(x.name));
    let last = w.len() - 1;
    if i >= 0 {
        assert(keys[i] == name_key(v[i].name));
    }
    assert(w.len() >= 1 && wk[last] == k);
    assert forall|j: int| 0 <= j < last implies wk[j] != k by {
        if i >= 0 && !expired(v[i].expire_time, now) {
            assert(w[j] == rest[j]);
        } else if rest.len() == c@.capacity {
            assert(w[j] == rest[j + 1]);
        } else {
            assert(w[j] == rest[j]);
        }
    }
    lemma_first_index_is(wk, k, last);
}

} // verus!
