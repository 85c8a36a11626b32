//! The name server address store: the zones and servers it knows, and the
//! servers whose addresses are being looked up.
use crate::clock::now_nanos;
use crate::name::Name;
use crate::resolver::nsas::nameserver_entry::{opt_server_view, entry_with_rtt, nameserver_added, nameserver_pos, Nameserver, NameserverCache, NameserverCacheV, NameserverEntry, NameserverV};
use crate::resolver::nsas::nameserver_fetcher::{FetcherV, NameserverFetcher};
use crate::resolver::nsas::zone_cache::{names_view, zone_missing, zone_server_outcome, ZoneCache, ZoneCacheV, ZoneEntry};
use vstd::prelude::*;

verus! {

/// How many zones the store keeps.
pub const DEFAULT_ZONE_ENTRY_CACHE_SIZE: usize = 1009;

/// How many name servers the store keeps.
pub const DEFAULT_NAMESERVER_ENTRY_CACHE_SIZE: usize = 3001;

/// The names of `missing`, in order, that are not in `probing`, each once,
/// and `probing` with them added at the end.
pub open spec fn probe_split(probing: Seq<Seq<Seq<u8>>>, missing: Seq<Seq<Seq<u8>>>) -> (Seq<Seq<Seq<u8>>>, Seq<Seq<Seq<u8>>>)
    decreases missing.len(),
{
    if missing.len() == 0 {
        (probing, Seq::empty())
    } else {
        let (p, fresh) = probe_split(probing, missing.drop_last());
        let x = missing.last();
        if p.contains(x) {
            (p, fresh)
        } else {
            (p.push(x), fresh.push(x))
        }
    }
}


/// The abstract state of the store.
pub struct StoreV {
    pub zones: ZoneCacheV,
    pub nameservers: NameserverCacheV,
    pub probing: Seq<Seq<Seq<u8>>>,
}

/// Whether choosing a server to ask about `zone` at `now` takes store `s` to
/// `s2` and gives `server` and `fresh`: the zone cache and the server cache
/// change and the server is chosen as `zone_server_outcome` says; where a
/// server is chosen, the names of the zone's servers without a known
/// address not yet being looked up are marked as being looked up and are
/// `fresh`; otherwise nothing is marked and `fresh` is empty.
pub open spec fn server_chosen(
    s: StoreV,
    zone: Seq<Seq<u8>>,
    now: u64,
    s2: StoreV,
    server: Option<NameserverV>,
    fresh: Seq<Seq<Seq<u8>>>,
) -> bool {
    let missing = zone_missing(s.zones.entries, s.nameservers, zone, now);
    &&& zone_server_outcome(s.zones.entries, s.nameservers, zone, now, s2.zones.entries, s2.nameservers, server, missing)
    &&& server is None ==> fresh.len() == 0 && s2.probing == s.probing
    &&& server is Some ==> (s2.probing, fresh) == probe_split(s.probing, missing)
    &&& s2.zones.capacity == s.zones.capacity
}

/// Store `s` after recording round-trip time `n.rtt` at `now` for address
/// `n.address` of server `n.name`: the server's entry, where there is one,
/// is updated as `entry_with_rtt` says and becomes the most recently used.
pub open spec fn rtt_recorded(s: StoreV, n: NameserverV, now: u64) -> StoreV {
    let v = s.nameservers.entries;
    let i = nameserver_pos(v, n.name);
    StoreV {
        nameservers: NameserverCacheV {
            entries: if i < 0 {
                v
            } else {
                v.remove(i).push(entry_with_rtt(v[i], n.address, n.rtt, now))
            },
            ..s.nameservers
        },
        ..s
    }
}

/// The store of zones, their servers and the servers' addresses.
pub struct NSAddressStore {
    nameservers: NameserverCache,
    zones: ZoneCache,
    probing: Vec<Name>,
}

impl View for NSAddressStore {
    type V = StoreV;

    closed spec fn view(&self) -> StoreV {
        StoreV { zones: self.zones@, nameservers: self.nameservers@, probing: names_view(self.probing@) }
    }
}

/// Whether `name` is among `names`.
fn contains_name(names: &Vec<Name>, name: &Name) -> (r: bool)
    ensures
        r == names_view(names@).contains(name@),
{
    let mut i: usize = 0;
    while i < names.len()
        invariant
            i <= names.len(),
            forall|j: int| 0 <= j < i ==> names_view(names@)[j] != name@,
        decreases names.len() - i,
    {
        if names[i].eq_name(name) {
            proof {
                assert(names_view(names@)[i as int] == name@);
            }
            return true;
        }
        i = i + 1;
    }
    false
}

impl NSAddressStore {
    /// Both caches are well formed.
    pub closed spec fn wf(&self) -> bool {
        self.nameservers.wf() && self.zones.wf()
    }

    /// An empty store.
    pub fn new() -> (r: NSAddressStore)
        ensures
            r.wf(),
            r@.zones.entries.len() == 0,
            r@.zones.capacity == DEFAULT_ZONE_ENTRY_CACHE_SIZE,
            r@.nameservers.entries.len() == 0,
            r@.nameservers.capacity == DEFAULT_NAMESERVER_ENTRY_CACHE_SIZE,
            r@.probing.len() == 0,
    {
        NSAddressStore {
            nameservers: NameserverCache::new(DEFAULT_NAMESERVER_ENTRY_CACHE_SIZE),
            zones: ZoneCache::new(DEFAULT_ZONE_ENTRY_CACHE_SIZE),
            probing: Vec::new(),
        }
    }

    /// The number of name servers known.
    pub fn nameserver_count(&self) -> (r: usize)
        ensures
            r == self@.nameservers.entries.len(),
    {
        self.nameservers.len()
    }

    /// The number of zones known.
    pub fn zone_count(&self) -> (r: usize)
        ensures
            r == self@.zones.entries.len(),
    {
        self.zones.len()
    }

    /// Chooses a server to ask about zone `zone` at `now`, as
    /// `zone_server_outcome` says. Where one is chosen, the names of the
    /// zone's servers without a known address that are not being looked up
    /// yet are marked as being looked up and given back, to be looked up.
    pub fn get_nameserver_at(&mut self, zone: &Name, now: u64) -> (r: (Option<Nameserver>, Vec<Name>))
        requires
            old(self).wf(),
        ensures
            final(self).wf(),
            server_chosen(old(self)@, zone@, now, final(self)@, opt_server_view(r.0), names_view(r.1@)),
    {
        let (server, missing) = self.zones.get_nameserver_at(zone, &mut self.nameservers, now);
        let ghost mv = names_view(missing@);
        proof {
            assert(zone_server_outcome(
                old(self)@.zones.entries,
                old(self)@.nameservers,
                zone@,
                now,
                self@.zones.entries,
                self@.nameservers,
                opt_server_view(server),
                mv,
            ));
        }
        match server {
            None => (None, Vec::new()),
            Some(s) => {
                let mut fresh: Vec<Name> = Vec::new();
                let mut i: usize = 0;
                let ghost p0 = names_view(self.probing@);
                let ghost zs = self@.zones;
                let ghost ns = self@.nameservers;
                proof {
                    assert(names_view(fresh@) =~= Seq::<Seq<Seq<u8>>>::empty());
                    assert(mv.subrange(0, 0) =~= Seq::<Seq<Seq<u8>>>::empty());
                }
                while i < missing.len()
                    invariant
                        i <= missing.len(),
                        mv == names_view(missing@),
                        self.wf(),
                        self@.zones == zs,
                        self@.nameservers == ns,
                        (names_view(self.probing@), names_view(fresh@)) == probe_split(p0, mv.subrange(0, i as int)),
                    decreases missing.len() - i,
                {
                    proof {
                        assert(mv.subrange(0, i + 1).drop_last() =~= mv.subrange(0, i as int));
                        assert(mv.subrange(0, i + 1).last() == missing@[i as int]@);
                    }
                    let n = &missing[i];
                    if !contains_name(&self.probing, n) {
                        let ghost pv = names_view(self.probing@);
                        let ghost fv = names_view(fresh@);
                        self.probing.push(n.copy());
                        fresh.push(n.copy());
                        proof {
                            assert(names_view(self.probing@) =~= pv.push(n@));
                            assert(names_view(fresh@) =~= fv.push(n@));
                        }
                    }
                    i = i + 1;
                }
                proof {
                    assert(mv.subrange(0, missing.len() as int) =~= mv);
                }
                (Some(s), fresh)
            },
        }
    }

    /// Chooses a server to ask about zone `zone` now, as `get_nameserver_at`
    /// says.
    pub fn get_nameserver(&mut self, zone: &Name) -> (r: (Option<Nameserver>, Vec<Name>))
        requires
            old(self).wf(),
        ensures
            final(self).wf(),
            exists|now: u64| #[trigger] server_chosen(old(self)@, zone@, now, final(self)@, opt_server_view(r.0), names_view(r.1@)),
    {
        let now = now_nanos();
        self.get_nameserver_at(zone, now)
    }

    /// A fetcher of the addresses of the servers `nameservers`, whose
    /// answers go to this store.
    pub fn fetch_nameservers(&self, nameservers: Vec<Name>) -> (r: NameserverFetcher)
        ensures
            r@ == (FetcherV { names: names_view(nameservers@), current: None }),
    {
        NameserverFetcher::new(nameservers)
    }

    /// The look-up of the addresses of `names` is over: they are no longer
    /// marked as being looked up.
    pub fn probe_done(&mut self, names: &Vec<Name>)
        requires
            old(self).wf(),
        ensures
            final(self).wf(),
            final(self)@.zones == old(self)@.zones,
            final(self)@.nameservers == old(self)@.nameservers,
            final(self)@.probing == old(self)@.probing.filter(|n: Seq<Seq<u8>>| !names_view(names@).contains(n)),
    {
        let ghost p0 = names_view(self.probing@);
        let mut kept: Vec<Name> = Vec::new();
        let mut i: usize = 0;
        proof {
            reveal(Seq::filter);
            assert(p0.subrange(0, 0).filter(|n: Seq<Seq<u8>>| !names_view(names@).contains(n)) =~= Seq::<Seq<Seq<u8>>>::empty());
            assert(names_view(kept@) =~= Seq::<Seq<Seq<u8>>>::empty());
        }
        while i < self.probing.len()
            invariant
                i <= self.probing.len(),
                p0 == names_view(self.probing@),
                names_view(kept@) == p0.subrange(0, i as int).filter(|n: Seq<Seq<u8>>| !names_view(names@).contains(n)),
            decreases self.probing.len() - i,
        {
            proof {
                assert(p0.subrange(0, i + 1).drop_last() =~= p0.subrange(0, i as int));
                assert(p0.subrange(0, i + 1).last() == self.probing@[i as int]@);
                reveal(Seq::filter);
            }
            if !contains_name(names, &self.probing[i]) {
                let ghost kv = names_view(kept@);
                kept.push(self.probing[i].copy());
                proof {
                    assert(names_view(kept@) =~= kv.push(p0[i as int]));
                }
            }
            i = i + 1;
        }
        proof {
            assert(p0.subrange(0, self.probing.len() as int) =~= p0);
        }
        self.probing = kept;
    }

    /// Records the round-trip time of `nameserver` at `now`, as
    /// `NameserverCache::update_nameserver_rtt_at` says.
    pub fn update_nameserver_rtt_at(&mut self, nameserver: &Nameserver, now: u64)
        requires
            old(self).wf(),
        ensures
            final(self).wf(),
            final(self)@ == rtt_recorded(old(self)@, nameserver@, now),
    {
        self.nameservers.update_nameserver_rtt_at(nameserver, now);
    }

    /// Records the round-trip time of `nameserver` now.
    pub fn update_nameserver_rtt(&mut self, nameserver: &Nameserver)
        requires
            old(self).wf(),
        ensures
            final(self).wf(),
            exists|now: u64| final(self)@ == #[trigger] rtt_recorded(old(self)@, nameserver@, now),
    {
        let now = now_nanos();
        self.update_nameserver_rtt_at(nameserver, now);
    }

    /// Adds zone `entry` at `now`, as `ZoneCache::add_zone_at` says.
    pub fn add_zone_at(&mut self, entry: ZoneEntry, now: u64)
        requires
            old(self).wf(),
        ensures
            final(self).wf(),
            final(self)@ == (StoreV {
                zones: ZoneCacheV {
                    entries: crate::resolver::nsas::zone_cache::zone_added(
                        old(self)@.zones.entries,
                        old(self)@.zones.capacity,
                        entry@,
                        now,
                    ),
                    ..old(self)@.zones
                },
                ..old(self)@
            }),
    {
        self.zones.add_zone_at(entry, now);
    }

    /// Adds name server `entry`, as `NameserverCache::add_nameserver` says.
    pub fn add_nameserver(&mut self, entry: NameserverEntry)
        requires
            old(self).wf(),
        ensures
            final(self).wf(),
            final(self)@.zones == old(self)@.zones,
            final(self)@.probing == old(self)@.probing,
            final(self)@.nameservers == nameserver_added(old(self)@.nameservers, entry@),
    {
        self.nameservers.add_nameserver(entry);
    }
}

} // verus!
