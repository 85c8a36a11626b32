//! Building a zone from its record sets.
use crate::datasrc::error::DataSrcError;
use crate::datasrc::memory_zone::{zone_add_error, zone_add_succeeds, zone_added, zone_wf, MemoryZone, ZoneV};
use crate::name::Name;
use crate::rr::{rrsets_view, RRset, RRsetV};
use vstd::prelude::*;

verus! {

/// The zone of origin `origin` after adding `sets` in order to an empty
/// zone, or `None` where one of the additions is refused.
pub open spec fn loaded(origin: Seq<Seq<u8>>, sets: Seq<RRsetV>) -> Option<ZoneV>
    decreases sets.len(),
{
    if sets.len() == 0 {
        Some(ZoneV { origin, nodes: Seq::empty() })
    } else {
        match loaded(origin, sets.drop_last()) {
            None => None,
            Some(z) => if zone_add_succeeds(z, sets.last()) {
                Some(ZoneV { origin, nodes: zone_added(z, sets.last()) })
            } else {
                None
            },
        }
    }
}

/// Whether loading `sets` into a zone of origin `origin` is refused at the
/// set at `k`, the first refused, with error `e`.
pub open spec fn refused_at(origin: Seq<Seq<u8>>, sets: Seq<RRsetV>, k: int, e: DataSrcError) -> bool {
    &&& 0 <= k < sets.len()
    &&& loaded(origin, sets.subrange(0, k)) is Some
    &&& !zone_add_succeeds(loaded(origin, sets.subrange(0, k))->0, sets[k])
    &&& zone_add_error(loaded(origin, sets.subrange(0, k))->0, sets[k], e)
}

/// Whether `e` is the error of the first set refused when loading `sets`
/// into a zone of origin `origin`.
pub open spec fn load_refusal(origin: Seq<Seq<u8>>, sets: Seq<RRsetV>, e: DataSrcError) -> bool {
    exists|k: int| #[trigger] refused_at(origin, sets, k, e)
}

/// Once an addition is refused, loading more sets does not help.
proof fn lemma_loaded_stays_none(origin: Seq<Seq<u8>>, sets: Seq<RRsetV>, k: int, m: int)
    requires
        0 <= k <= m <= sets.len(),
        loaded(origin, sets.subrange(0, k)) is None,
    ensures
        loaded(origin, sets.subrange(0, m)) is None,
    decreases m - k,
{
    if m > k {
        lemma_loaded_stays_none(origin, sets, k, m - 1);
        assert(sets.subrange(0, m).drop_last() =~= sets.subrange(0, m - 1));
    }
}

/// The zone of origin `name` holding `rrsets`, added in order; the error of
/// the first addition refused, where one is.
pub fn load_zone(name: Name, rrsets: Vec<RRset>) -> (r: Result<MemoryZone, DataSrcError>)
    ensures
        r is Ok <==> loaded(name@, rrsets_view(rrsets@)) is Some,
        r matches Ok(z) ==> zone_wf(z@) && Some(z@) == loaded(name@, rrsets_view(rrsets@)),
        r matches Err(e) ==> load_refusal(name@, rrsets_view(rrsets@), e),
{
    let ghost origin = name@;
    let ghost sv = rrsets_view(rrsets@);
    let mut zone = MemoryZone::new(name);
    let mut i: usize = 0;
    proof {
        assert(sv.subrange(0, 0) =~= Seq::<RRsetV>::empty());
    }
    while i < rrsets.len()
        invariant
            i <= rrsets.len(),
            sv == rrsets_view(rrsets@),
            zone_wf(zone@),
            zone@.origin == origin,
            origin == name@,
            loaded(origin, sv.subrange(0, i as int)) == Some(zone@),
        decreases rrsets.len() - i,
    {
        proof {
            assert(sv.subrange(0, i + 1).drop_last() =~= sv.subrange(0, i as int));
            assert(sv.subrange(0, i + 1).last() == rrsets@[i as int]@);
        }
        let set = rrsets[i].copy();
        match zone.add_rrset(set) {
            Ok(()) => {},
            Err(e) => {
                proof {
                    assert(!zone_add_succeeds(zone@, sv[i as int]));
                    assert(loaded(origin, sv.subrange(0, i + 1)) is None);
                    lemma_loaded_stays_none(origin, sv, i + 1, sv.len() as int);
                    assert(sv.subrange(0, sv.len() as int) =~= sv);
                    assert(sv.subrange(0, i as int) =~= sv.subrange(0, sv.len() as int).subrange(0, i as int));
                    assert(refused_at(origin, sv, i as int, e));
                }
                return Err(e);
            },
        }
        i = i + 1;
    }
    proof {
        assert(sv.subrange(0, rrsets.len() as int) =~= sv);
    }
    Ok(zone)
}

} // verus!
