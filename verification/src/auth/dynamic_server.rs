//! Changes to the served zones: adding and removing zones, and changing the
//! data of a zone.
use crate::auth::error::AuthError;
use crate::auth::zones::{exact_pos, zones_wf, AuthZone};
use crate::datasrc::memory_zone::{node_index, with_node_sets, zone_add_succeeds, zone_added, zone_wf, MemoryZone, ZoneV};
use crate::datasrc::rdataset::{rdata_delete_succeeds, rdata_deleted, rdata_update_in_range, rdata_update_succeeds, rdata_updated, type_index};
use crate::datasrc::zone_loader::{load_refusal, loaded};
use crate::name::Name;
use crate::rr::{rrsets_view, RRType, RRset, RRsetV};
use vstd::prelude::*;

verus! {

/// A change of the data of a zone.
pub enum ZoneOp {
    /// Add a record set.
    AddRRset(RRset),
    /// Remove a name and its record sets.
    DeleteDomain(Name),
    /// Remove the record set of a type at a name.
    DeleteRRset(Name, RRType),
    /// Remove records from the record set of their type at their name.
    DeleteRdata(RRset),
}

/// The abstract value of a change.
pub enum ZoneOpV {
    AddRRset(RRsetV),
    DeleteDomain(Seq<Seq<u8>>),
    DeleteRRset(Seq<Seq<u8>>, RRType),
    DeleteRdata(RRsetV),
}

impl View for ZoneOp {
    type V = ZoneOpV;

    open spec fn view(&self) -> ZoneOpV {
        match self {
            ZoneOp::AddRRset(r) => ZoneOpV::AddRRset(r@),
            ZoneOp::DeleteDomain(n) => ZoneOpV::DeleteDomain(n@),
            ZoneOp::DeleteRRset(n, t) => ZoneOpV::DeleteRRset(n@, *t),
            ZoneOp::DeleteRdata(r) => ZoneOpV::DeleteRdata(r@),
        }
    }
}

/// The views of changes.
pub open spec fn ops_view(v: Seq<ZoneOp>) -> Seq<ZoneOpV> {
    v.map_values(|o: ZoneOp| o@)
}

/// What change `op` does to zone `z`: the zone after it, and whether it
/// succeeded. A refused change leaves the zone as it was, but for a removal
/// of records, whose removals before the missing record stay.
pub open spec fn apply_op(z: ZoneV, op: ZoneOpV) -> (ZoneV, bool) {
    match op {
        ZoneOpV::AddRRset(r) => if zone_add_succeeds(z, r) {
            (ZoneV { nodes: zone_added(z, r), ..z }, true)
        } else {
            (z, false)
        },
        ZoneOpV::DeleteDomain(n) => {
            let i = node_index(z.nodes, n);
            if n != z.origin && i >= 0 {
                (ZoneV { nodes: z.nodes.remove(i), ..z }, true)
            } else {
                (z, false)
            }
        },
        ZoneOpV::DeleteRRset(n, t) => {
            let i = node_index(z.nodes, n);
            if i >= 0 && type_index(z.nodes[i].1, t) >= 0 {
                (ZoneV { nodes: with_node_sets(z.nodes, i, z.nodes[i].1.remove(type_index(z.nodes[i].1, t))), ..z }, true)
            } else {
                (z, false)
            }
        },
        ZoneOpV::DeleteRdata(r) => {
            let i = node_index(z.nodes, r.name);
            if i < 0 {
                (z, false)
            } else {
                (
                    ZoneV { nodes: with_node_sets(z.nodes, i, rdata_deleted(z.nodes[i].1, r)), ..z },
                    rdata_delete_succeeds(z.nodes[i].1, r),
                )
            }
        },
    }
}

/// The changes `ops` done in order to zone `z`, stopping at the first
/// refused: the zone after them, and whether all succeeded.
pub open spec fn apply_all(z: ZoneV, ops: Seq<ZoneOpV>) -> (ZoneV, bool)
    decreases ops.len(),
{
    if ops.len() == 0 {
        (z, true)
    } else {
        let (z1, ok) = apply_all(z, ops.drop_last());
        if !ok {
            (z1, false)
        } else {
            apply_op(z1, ops.last())
        }
    }
}

/// The zones `zs` after the zones of origins `names` stop being served, in
/// order, stopping at the first not served: the zones after, and that first
/// name not served, where there is one.
pub open spec fn zones_deleted(zs: Seq<ZoneV>, names: Seq<Seq<Seq<u8>>>) -> (Seq<ZoneV>, Option<Seq<Seq<u8>>>)
    decreases names.len(),
{
    if names.len() == 0 {
        (zs, None)
    } else {
        let (z1, missing) = zones_deleted(zs, names.drop_last());
        let k = exact_pos(z1, names.last());
        if missing is Some {
            (z1, missing)
        } else if k < 0 {
            (z1, Some(names.last()))
        } else {
            (z1.remove(k), None)
        }
    }
}

/// Once a zone is found missing, later names are not looked at.
proof fn lemma_zones_deleted_stops(zs: Seq<ZoneV>, names: Seq<Seq<Seq<u8>>>, k: int, m: int)
    requires
        0 <= k <= m <= names.len(),
        zones_deleted(zs, names.subrange(0, k)).1 is Some,
    ensures
        zones_deleted(zs, names.subrange(0, m)) == zones_deleted(zs, names.subrange(0, k)),
    decreases m - k,
{
    if m > k {
        lemma_zones_deleted_stops(zs, names, k, m - 1);
        assert(names.subrange(0, m).drop_last() =~= names.subrange(0, m - 1));
    }
}

/// Once a change is refused, later ones are not done.
proof fn lemma_apply_all_stops(z: ZoneV, ops: Seq<ZoneOpV>, k: int, m: int)
    requires
        0 <= k <= m <= ops.len(),
        !apply_all(z, ops.subrange(0, k)).1,
    ensures
        apply_all(z, ops.subrange(0, m)) == apply_all(z, ops.subrange(0, k)),
    decreases m - k,
{
    if m > k {
        lemma_apply_all_stops(z, ops, k, m - 1);
        assert(ops.subrange(0, m).drop_last() =~= ops.subrange(0, m - 1));
    }
}

/// Does change `op` to `zone`, as `apply_op` says.
fn apply_one(zone: &mut MemoryZone, op: &ZoneOp) -> (r: Result<(), AuthError>)
    requires
        zone_wf(old(zone)@),
    ensures
        zone_wf(final(zone)@),
        (final(zone)@, r is Ok) == apply_op(old(zone)@, op@),
{
    let res = match op {
        ZoneOp::AddRRset(set) => zone.add_rrset(set.copy()),
        ZoneOp::DeleteDomain(n) => zone.delete_domain(n),
        ZoneOp::DeleteRRset(n, t) => zone.delete_rrset(n, *t),
        ZoneOp::DeleteRdata(set) => zone.delete_rdata(set),
    };
    match res {
        Ok(()) => Ok(()),
        Err(e) => Err(AuthError::InvalidZone(e)),
    }
}

/// Does the changes `ops` to `zone` in order, as `apply_all` says.
pub fn apply_ops(zone: &mut MemoryZone, ops: &Vec<ZoneOp>) -> (r: Result<(), AuthError>)
    requires
        zone_wf(old(zone)@),
    ensures
        zone_wf(final(zone)@),
        final(zone)@.origin == old(zone)@.origin,
        (final(zone)@, r is Ok) == apply_all(old(zone)@, ops_view(ops@)),
{
    let ghost z0 = zone@;
    let ghost ov = ops_view(ops@);
    let mut i: usize = 0;
    proof {
        assert(ov.subrange(0, 0) =~= Seq::<ZoneOpV>::empty());
    }
    while i < ops.len()
        invariant
            i <= ops.len(),
            ov == ops_view(ops@),
            z0 == old(zone)@,
            zone_wf(zone@),
            zone@.origin == z0.origin,
            apply_all(z0, ov.subrange(0, i as int)) == (zone@, true),
        decreases ops.len() - i,
    {
        proof {
            assert(ov.subrange(0, i + 1).drop_last() =~= ov.subrange(0, i as int));
            assert(ov.subrange(0, i + 1).last() == ops@[i as int]@);
        }
        let res = apply_one(zone, &ops[i]);
        if res.is_err() {
            proof {
                lemma_apply_all_stops(z0, ov, i + 1, ov.len() as int);
                assert(ov.subrange(0, ov.len() as int) =~= ov);
            }
            return res;
        }
        i = i + 1;
    }
    proof {
        assert(ov.subrange(0, ops.len() as int) =~= ov);
    }
    Ok(())
}

/// The handler of changes to the served zones.
pub struct DynamicUpdateHandler {
    pub zones: AuthZone,
}

impl DynamicUpdateHandler {
    /// A handler of changes to `zones`.
    pub fn new(zones: AuthZone) -> (r: DynamicUpdateHandler)
        ensures
            r.zones@ == zones@,
    {
        DynamicUpdateHandler { zones }
    }

    /// Serves a new zone, as `AuthZone::add_zone` says.
    pub fn do_add_zone(&mut self, name: Name, rrsets: Vec<RRset>) -> (r: Result<(), AuthError>)
        requires
            zones_wf(old(self).zones@),
        ensures
            zones_wf(final(self).zones@),
            exact_pos(old(self).zones@, name@) >= 0 ==> (r matches Err(AuthError::DuplicateZone(_))) && final(self).zones@ == old(self).zones@,
            exact_pos(old(self).zones@, name@) < 0 ==> (r is Ok <==> loaded(name@, rrsets_view(rrsets@)) is Some),
            exact_pos(old(self).zones@, name@) < 0 && loaded(name@, rrsets_view(rrsets@)) is None ==> (r matches Err(AuthError::InvalidZone(e))
                && load_refusal(name@, rrsets_view(rrsets@), e)),
            r is Ok ==> final(self).zones@ == old(self).zones@.push(loaded(name@, rrsets_view(rrsets@))->0),
            r is Err ==> final(self).zones@ == old(self).zones@,
    {
        self.zones.add_zone(name, rrsets)
    }

    /// Stops serving the zones `names`, in order, up to the first not served,
    /// which is refused as unknown; zones stopped before it stay stopped.
    pub fn do_delete_zones(&mut self, names: &Vec<Name>) -> (r: Result<(), AuthError>)
        requires
            zones_wf(old(self).zones@),
        ensures
            zones_wf(final(self).zones@),
            final(self).zones@ == zones_deleted(old(self).zones@, names@.map_values(|n: Name| n@)).0,
            r is Ok <==> zones_deleted(old(self).zones@, names@.map_values(|n: Name| n@)).1 is None,
            r is Err ==> (r matches Err(AuthError::UnknownZone(n)) && zones_deleted(old(self).zones@, names@.map_values(|n: Name| n@)).1
                == Some(n@)),
            r is Ok ==> forall|j: int| 0 <= j < names@.len() ==> exact_pos(final(self).zones@, #[trigger] names@[j]@) < 0,
    {
        let ghost z0 = self.zones@;
        let ghost nv = names@.map_values(|n: Name| n@);
        let mut i: usize = 0;
        proof {
            assert(nv.subrange(0, 0) =~= Seq::<Seq<Seq<u8>>>::empty());
        }
        while i < names.len()
            invariant
                i <= names.len(),
                zones_wf(self.zones@),
                nv == names@.map_values(|n: Name| n@),
                z0 == old(self).zones@,
                zones_deleted(z0, nv.subrange(0, i as int)) == (self.zones@, None::<Seq<Seq<u8>>>),
                forall|j: int| 0 <= j < i ==> exact_pos(self.zones@, #[trigger] names@[j]@) < 0,
            decreases names.len() - i,
        {
            let ghost before = self.zones@;
            proof {
                assert(nv.subrange(0, i + 1).drop_last() =~= nv.subrange(0, i as int));
                assert(nv.subrange(0, i + 1).last() == names@[i as int]@);
            }
            let res = self.zones.delete_zone(&names[i]);
            if res.is_err() {
                proof {
                    lemma_zones_deleted_stops(z0, nv, i + 1, nv.len() as int);
                    assert(nv.subrange(0, nv.len() as int) =~= nv);
                }
                return res;
            }
            proof {
                let origins = before.map_values(|z: ZoneV| z.origin);
                let k = exact_pos(before, names@[i as int]@);
                crate::seqs::lemma_first_index(origins, names@[i as int]@);
                assert forall|j: int| 0 <= j <= i implies exact_pos(self.zones@, #[trigger] names@[j]@) < 0 by {
                    let after = self.zones@.map_values(|z: ZoneV| z.origin);
                    let n = names@[j]@;
                    crate::seqs::lemma_first_index(origins, n);
                    assert forall|x: int| 0 <= x < after.len() implies after[x] != n by {
                        let x2 = if x < k { x } else { x + 1 };
                        assert(self.zones@[x] == before[x2]);
                        assert(origins[x2] == before[x2].origin);
                        if j == i {
                            assert(origins[k] == n);
                            assert(before[x2].origin != before[k].origin);
                        }
                    }
                    crate::seqs::lemma_first_index_is(after, n, -1);
                }
            }
            i = i + 1;
        }
        proof {
            assert(nv.subrange(0, names@.len() as int) =~= nv);
        }
        Ok(())
    }

    /// Does the changes `ops` to the zone of origin `zone`, as `apply_ops`
    /// says; refused where no such zone is served.
    pub fn do_update_zone(&mut self, zone: &Name, ops: &Vec<ZoneOp>) -> (r: Result<(), AuthError>)
        requires
            zones_wf(old(self).zones@),
        ensures
            zones_wf(final(self).zones@),
            ({
                let zs = old(self).zones@;
                let i = exact_pos(zs, zone@);
                &&& i < 0 ==> (r matches Err(AuthError::UnknownZone(n)) && n@ == zone@) && final(self).zones@ == zs
                &&& i >= 0 ==> (final(self).zones@ == zs.update(i, apply_all(zs[i], ops_view(ops@)).0)) && (r is Ok
                    <==> apply_all(zs[i], ops_view(ops@)).1)
            }),
    {
        match self.zones.get_exact_zone(zone) {
            None => Err(AuthError::UnknownZone(zone.copy())),
            Some(i) => {
                let ghost zs = self.zones@;
                proof {
                    crate::seqs::lemma_first_index(zs.map_values(|z: ZoneV| z.origin), zone@);
                }
                let mut z = self.zones.take_zone(i);
                let res = apply_ops(&mut z, ops);
                self.zones.restore_zone(i, z, Ghost(zs));
                res
            },
        }
    }

    /// Adds `rrsets` to the zone of origin `zone`, in order.
    pub fn do_add_rrsets(&mut self, zone: &Name, rrsets: Vec<RRset>) -> (r: Result<(), AuthError>)
        requires
            zones_wf(old(self).zones@),
        ensures
            zones_wf(final(self).zones@),
            ({
                let zs = old(self).zones@;
                let i = exact_pos(zs, zone@);
                let ops = rrsets_view(rrsets@).map_values(|s: RRsetV| ZoneOpV::AddRRset(s));
                &&& i < 0 ==> (r matches Err(AuthError::UnknownZone(n)) && n@ == zone@) && final(self).zones@ == zs
                &&& i >= 0 ==> final(self).zones@ == zs.update(i, apply_all(zs[i], ops).0) && (r is Ok <==> apply_all(zs[i], ops).1)
            }),
    {
        let mut ops: Vec<ZoneOp> = Vec::new();
        let ghost sv = rrsets_view(rrsets@);
        let mut rrsets = rrsets;
        let mut k: usize = 0;
        let n = rrsets.len();
        while k < n
            invariant
                k <= n,
                n == rrsets@.len(),
                sv == rrsets_view(rrsets@),
                ops@.len() == k,
                ops_view(ops@) == sv.subrange(0, k as int).map_values(|s: RRsetV| ZoneOpV::AddRRset(s)),
            decreases n - k,
        {
            let ghost before = ops@;
            ops.push(ZoneOp::AddRRset(rrsets[k].copy()));
            proof {
                assert(ops@ == before.push(ops@[k as int]));
                assert(sv[k as int] == rrsets@[k as int]@);
                assert forall|j: int| 0 <= j <= k implies #[trigger] ops_view(ops@)[j] == sv.subrange(0, k + 1).map_values(
                    |s: RRsetV| ZoneOpV::AddRRset(s),
                )[j] by {
                    if j < k {
                        assert(ops@[j] == before[j]);
                        assert(ops_view(before)[j] == sv.subrange(0, k as int).map_values(|s: RRsetV| ZoneOpV::AddRRset(s))[j]);
                    }
                }
                assert(ops_view(ops@) =~= sv.subrange(0, k + 1).map_values(|s: RRsetV| ZoneOpV::AddRRset(s)));
            }
            k = k + 1;
        }
        proof {
            assert(sv.subrange(0, n as int) =~= sv);
        }
        self.do_update_zone(zone, &ops)
    }

    /// Removes the names `names` from the zone of origin `zone`, in order.
    pub fn do_delete_domains(&mut self, zone: &Name, names: &Vec<Name>) -> (r: Result<(), AuthError>)
        requires
            zones_wf(old(self).zones@),
        ensures
            zones_wf(final(self).zones@),
            ({
                let zs = old(self).zones@;
                let i = exact_pos(zs, zone@);
                let ops = names@.map_values(|n: Name| ZoneOpV::DeleteDomain(n@));
                &&& i < 0 ==> (r matches Err(AuthError::UnknownZone(n)) && n@ == zone@) && final(self).zones@ == zs
                &&& i >= 0 ==> final(self).zones@ == zs.update(i, apply_all(zs[i], ops).0) && (r is Ok <==> apply_all(zs[i], ops).1)
            }),
    {
        let mut ops: Vec<ZoneOp> = Vec::new();
        let mut k: usize = 0;
        while k < names.len()
            invariant
                k <= names.len(),
                ops@.len() == k,
                ops_view(ops@) == names@.subrange(0, k as int).map_values(|n: Name| ZoneOpV::DeleteDomain(n@)),
            decreases names.len() - k,
        {
            let ghost before = ops@;
            ops.push(ZoneOp::DeleteDomain(names[k].copy()));
            proof {
                assert(ops@ == before.push(ops@[k as int]));
                assert forall|j: int| 0 <= j <= k implies #[trigger] ops_view(ops@)[j] == names@.subrange(0, k + 1).map_values(
                    |n: Name| ZoneOpV::DeleteDomain(n@),
                )[j] by {
                    if j < k {
                        assert(ops@[j] == before[j]);
                        assert(ops_view(before)[j] == names@.subrange(0, k as int).map_values(|n: Name| ZoneOpV::DeleteDomain(n@))[j]);
                    }
                }
                assert(ops_view(ops@) =~= names@.subrange(0, k + 1).map_values(|n: Name| ZoneOpV::DeleteDomain(n@)));
            }
            k = k + 1;
        }
        proof {
            assert(names@.subrange(0, names@.len() as int) =~= names@);
        }
        self.do_update_zone(zone, &ops)
    }

    /// Removes the record sets named by `headers` from the zone of origin
    /// `zone`, in order.
    pub fn do_delete_rrsets(&mut self, zone: &Name, headers: &Vec<(Name, RRType)>) -> (r: Result<(), AuthError>)
        requires
            zones_wf(old(self).zones@),
        ensures
            zones_wf(final(self).zones@),
            ({
                let zs = old(self).zones@;
                let i = exact_pos(zs, zone@);
                let ops = headers@.map_values(|h: (Name, RRType)| ZoneOpV::DeleteRRset(h.0@, h.1));
                &&& i < 0 ==> (r matches Err(AuthError::UnknownZone(n)) && n@ == zone@) && final(self).zones@ == zs
                &&& i >= 0 ==> final(self).zones@ == zs.update(i, apply_all(zs[i], ops).0) && (r is Ok <==> apply_all(zs[i], ops).1)
            }),
    {
        let mut ops: Vec<ZoneOp> = Vec::new();
        let mut k: usize = 0;
        while k < headers.len()
            invariant
                k <= headers.len(),
                ops@.len() == k,
                ops_view(ops@) == headers@.subrange(0, k as int).map_values(|h: (Name, RRType)| ZoneOpV::DeleteRRset(h.0@, h.1)),
            decreases headers.len() - k,
        {
            let ghost before = ops@;
            ops.push(ZoneOp::DeleteRRset(headers[k].0.copy(), headers[k].1));
            proof {
                assert(ops@ == before.push(ops@[k as int]));
                assert forall|j: int| 0 <= j <= k implies #[trigger] ops_view(ops@)[j] == headers@.subrange(0, k + 1).map_values(
                    |h: (Name, RRType)| ZoneOpV::DeleteRRset(h.0@, h.1),
                )[j] by {
                    if j < k {
                        assert(ops@[j] == before[j]);
                        assert(ops_view(before)[j] == headers@.subrange(0, k as int).map_values(
                            |h: (Name, RRType)| ZoneOpV::DeleteRRset(h.0@, h.1),
                        )[j]);
                    }
                }
                assert(ops_view(ops@) =~= headers@.subrange(0, k + 1).map_values(|h: (Name, RRType)| ZoneOpV::DeleteRRset(h.0@, h.1)));
            }
            k = k + 1;
        }
        proof {
            assert(headers@.subrange(0, headers@.len() as int) =~= headers@);
        }
        self.do_update_zone(zone, &ops)
    }

    /// Removes the records of `rrsets` from the zone of origin `zone`, in
    /// order.
    pub fn do_delete_rdatas(&mut self, zone: &Name, rrsets: &Vec<RRset>) -> (r: Result<(), AuthError>)
        requires
            zones_wf(old(self).zones@),
        ensures
            zones_wf(final(self).zones@),
            ({
                let zs = old(self).zones@;
                let i = exact_pos(zs, zone@);
                let ops = rrsets@.map_values(|s: RRset| ZoneOpV::DeleteRdata(s@));
                &&& i < 0 ==> (r matches Err(AuthError::UnknownZone(n)) && n@ == zone@) && final(self).zones@ == zs
                &&& i >= 0 ==> final(self).zones@ == zs.update(i, apply_all(zs[i], ops).0) && (r is Ok <==> apply_all(zs[i], ops).1)
            }),
    {
        let mut ops: Vec<ZoneOp> = Vec::new();
        let mut k: usize = 0;
        while k < rrsets.len()
            invariant
                k <= rrsets.len(),
                ops@.len() == k,
                ops_view(ops@) == rrsets@.subrange(0, k as int).map_values(|s: RRset| ZoneOpV::DeleteRdata(s@)),
            decreases rrsets.len() - k,
        {
            let ghost before = ops@;
            ops.push(ZoneOp::DeleteRdata(rrsets[k].copy()));
            proof {
                assert(ops@ == before.push(ops@[k as int]));
                assert forall|j: int| 0 <= j <= k implies #[trigger] ops_view(ops@)[j] == rrsets@.subrange(0, k + 1).map_values(
                    |s: RRset| ZoneOpV::DeleteRdata(s@),
                )[j] by {
                    if j < k {
                        assert(ops@[j] == before[j]);
                        assert(ops_view(before)[j] == rrsets@.subrange(0, k as int).map_values(|s: RRset| ZoneOpV::DeleteRdata(s@))[j]);
                    }
                }
                assert(ops_view(ops@) =~= rrsets@.subrange(0, k + 1).map_values(|s: RRset| ZoneOpV::DeleteRdata(s@)));
            }
            k = k + 1;
        }
        proof {
            assert(rrsets@.subrange(0, rrsets@.len() as int) =~= rrsets@);
        }
        self.do_update_zone(zone, &ops)
    }

    /// Replaces records in the zone of origin `zone`, as
    /// `MemoryZone::update_rdata` says; refused where no such zone is served.
    pub fn do_update_rdatas(&mut self, zone: &Name, old_rrset: &RRset, new_rrset: RRset) -> (r: Result<(), AuthError>)
        requires
            zones_wf(old(self).zones@),
            forall|i: int|
                0 <= i < old(self).zones@.len() && #[trigger] node_index(old(self).zones@[i].nodes, old_rrset@.name) >= 0
                    ==> rdata_update_in_range(
                    old(self).zones@[i].nodes[node_index(old(self).zones@[i].nodes, old_rrset@.name)].1,
                    old_rrset@,
                    new_rrset@,
                ),
        ensures
            zones_wf(final(self).zones@),
            ({
                let zs = old(self).zones@;
                let i = exact_pos(zs, zone@);
                &&& i < 0 ==> (r matches Err(AuthError::UnknownZone(n)) && n@ == zone@) && final(self).zones@ == zs
                &&& i >= 0 && node_index(zs[i].nodes, old_rrset@.name) < 0 ==> (r matches Err(AuthError::InvalidZone(_)))
                    && final(self).zones@ == zs
                &&& i >= 0 && node_index(zs[i].nodes, old_rrset@.name) >= 0 ==> ({
                    let j = node_index(zs[i].nodes, old_rrset@.name);
                    let sets = zs[i].nodes[j].1;
                    &&& r is Ok <==> rdata_update_succeeds(sets, old_rrset@, new_rrset@)
                    &&& final(self).zones@ == zs.update(
                        i,
                        ZoneV { nodes: zs[i].nodes.update(j, (zs[i].nodes[j].0, rdata_updated(sets, old_rrset@, new_rrset@))), ..zs[i] },
                    )
                })
            }),
    {
        match self.zones.get_exact_zone(zone) {
            None => Err(AuthError::UnknownZone(zone.copy())),
            Some(i) => {
                let ghost zs = self.zones@;
                let mut z = self.zones.take_zone(i);
                let res = z.update_rdata(old_rrset, new_rrset);
                proof {
                    if node_index(zs[i as int].nodes, old_rrset@.name) < 0 {
                        assert(z@ == zs[i as int]);
                        assert(zs.update(i as int, z@) =~= zs);
                    }
                }
                self.zones.restore_zone(i, z, Ghost(zs));
                match res {
                    Ok(()) => Ok(()),
                    Err(e) => Err(AuthError::InvalidZone(e)),
                }
            },
        }
    }
}

} // verus!
