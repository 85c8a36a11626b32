//! A record set held in a cache until its time to live runs out.
use crate::cache::trust_level::RRsetTrustLevel;
use crate::clock::{now_nanos, NANOS_PER_SEC};
use crate::name::Name;
use crate::rr::{copy_rdatas, opt_rrset_view, rdatas_view, RData, RDataV, RRType, RRset, RRsetV, CLASS_IN};
use vstd::prelude::*;

verus! {

/// A cached record set: its name, type and data, how far it is trusted, and
/// the time (nanoseconds since the epoch) at which it expires.
pub struct RRsetEntry {
    name: Name,
    typ: RRType,
    pub trust_level: RRsetTrustLevel,
    rdatas: Vec<RData>,
    expire_time: u64,
}

/// The abstract value of a cached record set.
pub struct RRsetEntryV {
    pub name: Seq<Seq<u8>>,
    pub typ: RRType,
    pub trust_level: RRsetTrustLevel,
    pub rdatas: Seq<RDataV>,
    pub expire_time: u64,
}

impl View for RRsetEntry {
    type V = RRsetEntryV;

    closed spec fn view(&self) -> RRsetEntryV {
        RRsetEntryV {
            name: self.name@,
            typ: self.typ,
            trust_level: self.trust_level,
            rdatas: rdatas_view(self.rdatas@),
            expire_time: self.expire_time,
        }
    }
}

/// The time at which something with `ttl` seconds to live, stored at `now`,
/// expires; times past the end of `u64` are cut to its maximum.
pub open spec fn expire_at(now: u64, ttl: u32) -> u64 {
    if now + ttl * NANOS_PER_SEC > u64::MAX {
        u64::MAX
    } else {
        (now + ttl * NANOS_PER_SEC) as u64
    }
}

/// The whole seconds left at `now` until `expire`, cut to 32 bits.
pub open spec fn seconds_left(expire: u64, now: u64) -> u32 {
    ((expire - now) / (NANOS_PER_SEC as int)) as u32
}

/// Whether an entry that expires at `expire` has expired at `now`.
pub open spec fn expired(expire: u64, now: u64) -> bool {
    expire <= now
}

/// What reading entry `e` at `now` gives: its record set with the time left,
/// or `None` once it has expired.
pub open spec fn rrset_read(e: RRsetEntryV, now: u64) -> Option<RRsetV> {
    if expired(e.expire_time, now) {
        None
    } else {
        Some(rrset_at(e, now))
    }
}

/// The entry made of `rrset` with `trust_level` at `now`.
pub open spec fn entry_of(rrset: RRsetV, trust_level: RRsetTrustLevel, now: u64) -> RRsetEntryV {
    RRsetEntryV {
        name: rrset.name,
        typ: rrset.typ,
        trust_level,
        rdatas: rrset.rdatas,
        expire_time: expire_at(now, rrset.ttl),
    }
}

/// The record set an unexpired entry gives at `now`: class IN and the
/// seconds it has left as time to live.
pub open spec fn rrset_at(e: RRsetEntryV, now: u64) -> RRsetV {
    RRsetV { name: e.name, typ: e.typ, class: CLASS_IN, ttl: seconds_left(e.expire_time, now), rdatas: e.rdatas }
}

/// A set stored at `t0` and read at `now`, no earlier, is gone once its time
/// to live has run out, and otherwise comes back with its name, type and
/// records, class IN, and as time to live the whole seconds left, which is
/// at most the time it was stored with, and less once any time has passed.
pub proof fn lemma_read_after_store(r: RRsetV, t: RRsetTrustLevel, t0: u64, now: u64)
    requires
        t0 <= now,
    ensures
        rrset_read(entry_of(r, t, t0), now) is None <==> expired(expire_at(t0, r.ttl), now),
        rrset_read(entry_of(r, t, t0), now) matches Some(s) ==> {
            &&& s.name == r.name
            &&& s.typ == r.typ
            &&& s.class == CLASS_IN
            &&& s.rdatas == r.rdatas
            &&& s.ttl == seconds_left(expire_at(t0, r.ttl), now)
            &&& s.ttl <= r.ttl
            &&& t0 < now ==> s.ttl < r.ttl
        },
{
    let e = expire_at(t0, r.ttl);
    if !expired(e, now) {
        let d: int = e - now;
        let ttl: int = r.ttl as int;
        let el: int = now - t0;
        assert(d <= ttl * 1_000_000_000 - el);
        assert(d / 1_000_000_000 <= ttl) by (nonlinear_arith)
            requires
                0 < d,
                0 <= el,
                d <= ttl * 1_000_000_000 - el,
        ;
        assert(el > 0 ==> d / 1_000_000_000 < ttl) by (nonlinear_arith)
            requires
                0 < d,
                0 <= el,
                d <= ttl * 1_000_000_000 - el,
        ;
        assert(0 <= d / 1_000_000_000);
    }
}

/// Computes `expire_at`.
pub fn expire_time_at(now: u64, ttl: u32) -> (r: u64)
    ensures
        r == expire_at(now, ttl),
{
    let d: u64 = (ttl as u64) * NANOS_PER_SEC;
    now.saturating_add(d)
}

impl RRsetEntry {
    /// The entry of `rrset`, stored at `now`.
    pub fn new_at(rrset: RRset, trust_level: RRsetTrustLevel, now: u64) -> (r: RRsetEntry)
        ensures
            r@ == entry_of(rrset@, trust_level, now),
    {
        let expire_time = expire_time_at(now, rrset.ttl);
        RRsetEntry { name: rrset.name, typ: rrset.typ, trust_level, rdatas: rrset.rdatas, expire_time }
    }

    /// The entry of `rrset`, stored now.
    pub fn new(rrset: RRset, trust_level: RRsetTrustLevel) -> (r: RRsetEntry)
        ensures
            exists|now: u64| r@ == entry_of(rrset@, trust_level, now),
    {
        let now = now_nanos();
        RRsetEntry::new_at(rrset, trust_level, now)
    }

    /// The key of the entry: its name and type.
    pub fn key(&self) -> (r: crate::lru_store::CacheKey)
        ensures
            crate::lru_store::key_view(r) == crate::lru_store::key_of(self@.name, self@.typ),
    {
        crate::lru_store::make_key(&self.name, self.typ)
    }

    /// The name of the record set.
    pub fn name(&self) -> (r: &Name)
        ensures
            r@ == self@.name,
    {
        &self.name
    }

    /// The type of the record set.
    pub fn typ(&self) -> (r: RRType)
        ensures
            r == self@.typ,
    {
        self.typ
    }

    /// How far the record set is trusted.
    pub fn trust(&self) -> (r: RRsetTrustLevel)
        ensures
            r == self@.trust_level,
    {
        self.trust_level
    }

    /// The expiry time.
    pub fn expire_time(&self) -> (r: u64)
        ensures
            r == self@.expire_time,
    {
        self.expire_time
    }

    /// Whether the entry has expired at `now`.
    pub fn is_expired_at(&self, now: u64) -> (r: bool)
        ensures
            r == expired(self@.expire_time, now),
    {
        self.expire_time <= now
    }

    /// Whether the entry has expired now.
    pub fn is_expired(&self) -> (r: bool)
        ensures
            exists|now: u64| r == expired(self@.expire_time, now),
    {
        self.is_expired_at(now_nanos())
    }

    /// The record set at `now`, or `None` once the entry has expired.
    pub fn get_rrset_at(&self, now: u64) -> (r: Option<RRset>)
        ensures
            expired(self@.expire_time, now) ==> r is None,
            !expired(self@.expire_time, now) ==> r is Some && r->0@ == rrset_at(self@, now),
            opt_rrset_view(r) == rrset_read(self@, now),
    {
        if self.expire_time <= now {
            return None;
        }
        let left: u64 = (self.expire_time - now) / NANOS_PER_SEC;
        Some(RRset {
            name: self.name.copy(),
            typ: self.typ,
            class: CLASS_IN,
            ttl: left as u32,
            rdatas: copy_rdatas(&self.rdatas),
        })
    }

    /// The record set now, or `None` once the entry has expired.
    pub fn get_rrset(&self) -> (r: Option<RRset>)
        ensures
            exists|now: u64| opt_rrset_view(r) == #[trigger] rrset_read(self@, now),
    {
        self.get_rrset_at(now_nanos())
    }

    /// An independent copy of this entry.
    pub fn copy(&self) -> (r: RRsetEntry)
        ensures
            r@ == self@,
    {
        RRsetEntry {
            name: self.name.copy(),
            typ: self.typ,
            trust_level: self.trust_level,
            rdatas: copy_rdatas(&self.rdatas),
            expire_time: self.expire_time,
        }
    }
}

} // verus!
