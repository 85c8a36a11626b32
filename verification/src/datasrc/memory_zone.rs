//! A zone held in memory and the lookup of a name and type in it.
use crate::datasrc::error::DataSrcError;
use crate::datasrc::rdataset::{add_succeeds, added, is_exclusive, rdata_delete_succeeds, rdata_deleted, rdata_update_in_range, rdata_update_succeeds, rdata_updated, tuples_wf, type_index, types_of, Rdataset, TupleV};
use crate::datasrc::zone::{FindOption, FindResultType};
use crate::name::{
    ancestor_at, is_strict_subdomain_of, is_subdomain_of, wildcard_of, Name,
};
use crate::rr::{lemma_rrsets_view_push, opt_rrset_view, rrsets_view, RData, RDataV, RRType, RRset, RRsetV, CLASS_IN};
use crate::seqs::{first_index, lemma_first_index, lemma_first_index_is};
use vstd::prelude::*;

verus! {

/// A name of the zone and the record sets stored at it.
pub type NodeV = (Seq<Seq<u8>>, Seq<TupleV>);

/// The abstract value of a zone: its origin and its nodes.
pub struct ZoneV {
    pub origin: Seq<Seq<u8>>,
    pub nodes: Seq<NodeV>,
}

/// The names of the nodes, in order.
pub open spec fn names_of(nodes: Seq<NodeV>) -> Seq<Seq<Seq<u8>>> {
    nodes.map_values(|n: NodeV| n.0)
}

/// The position of the node named `q`, or -1.
pub open spec fn node_index(nodes: Seq<NodeV>, q: Seq<Seq<u8>>) -> int {
    first_index(names_of(nodes), q)
}

/// Some node lies strictly below `q`.
pub open spec fn has_descendant(nodes: Seq<NodeV>, q: Seq<Seq<u8>>) -> bool {
    exists|i: int| 0 <= i < nodes.len() && is_strict_subdomain_of(#[trigger] nodes[i].0, q)
}

/// `a` is a zone cut: a node other than the origin with an NS record set.
pub open spec fn is_cut(z: ZoneV, a: Seq<Seq<u8>>) -> bool {
    a != z.origin && node_index(z.nodes, a) >= 0 && type_index(z.nodes[node_index(z.nodes, a)].1, RRType::NS)
        >= 0
}

/// The depth of the highest zone cut among the ancestors of `q` that have
/// from `d` up to fewer labels than `q`.
pub open spec fn first_cut_from(z: ZoneV, q: Seq<Seq<u8>>, d: int) -> Option<int>
    decreases q.len() - d,
{
    if d >= q.len() || d < 0 {
        None
    } else if is_cut(z, ancestor_at(q, d)) {
        Some(d)
    } else {
        first_cut_from(z, q, d + 1)
    }
}

/// The depth of the deepest ancestor of `q`, with at most `d` and at least
/// `lo` labels, that is a node or has nodes below it.
pub open spec fn encloser_from(z: ZoneV, q: Seq<Seq<u8>>, lo: int, d: int) -> Option<int>
    decreases d + 1,
{
    if d < lo || d < 0 {
        None
    } else if node_index(z.nodes, ancestor_at(q, d)) >= 0 || has_descendant(z.nodes, ancestor_at(q, d)) {
        Some(d)
    } else {
        encloser_from(z, q, lo, d - 1)
    }
}

/// The record set of type `t` among `rds`, owned by `name`.
pub open spec fn rrset_at(name: Seq<Seq<u8>>, rds: Seq<TupleV>, t: RRType) -> Option<RRsetV> {
    let i = type_index(rds, t);
    if i >= 0 {
        Some(RRsetV { name: name, typ: t, class: CLASS_IN, ttl: rds[i].ttl, rdatas: rds[i].rdatas })
    } else {
        None
    }
}

/// The outcome of a lookup: its type, the record set found, and the node it
/// was found at.
pub struct FindV {
    pub typ: FindResultType,
    pub rrset: Option<RRsetV>,
    pub node: Option<int>,
}

/// A lookup at a node named `name` with record sets `rds`, found as an exact match.
pub open spec fn exact_outcome(z: ZoneV, q: Seq<Seq<u8>>, t: RRType, i: int) -> FindV {
    let rds = z.nodes[i].1;
    if q != z.origin && type_index(rds, RRType::NS) >= 0 {
        FindV { typ: FindResultType::Delegation, rrset: rrset_at(q, rds, RRType::NS), node: Some(i) }
    } else if type_index(rds, t) >= 0 {
        FindV { typ: FindResultType::Success, rrset: rrset_at(q, rds, t), node: Some(i) }
    } else if type_index(rds, RRType::CNAME) >= 0 {
        FindV { typ: FindResultType::CName, rrset: rrset_at(q, rds, RRType::CNAME), node: Some(i) }
    } else {
        FindV { typ: FindResultType::NXRRset, rrset: None, node: Some(i) }
    }
}

/// The delegation to the zone cut `q` has `d` labels of.
pub open spec fn cut_outcome(z: ZoneV, q: Seq<Seq<u8>>, d: int) -> FindV {
    let c = ancestor_at(q, d);
    let i = node_index(z.nodes, c);
    FindV { typ: FindResultType::Delegation, rrset: rrset_at(c, z.nodes[i].1, RRType::NS), node: Some(i) }
}

/// The answer synthesized from the wildcard below the closest encloser.
pub open spec fn wildcard_outcome(z: ZoneV, q: Seq<Seq<u8>>, t: RRType) -> FindV {
    match encloser_from(z, q, z.origin.len() as int, q.len() - 1) {
        None => FindV { typ: FindResultType::NXDomain, rrset: None, node: None },
        Some(d) => {
            let w = node_index(z.nodes, wildcard_of(ancestor_at(q, d)));
            if w < 0 {
                FindV { typ: FindResultType::NXDomain, rrset: None, node: None }
            } else {
                let rds = z.nodes[w].1;
                if type_index(rds, t) >= 0 {
                    FindV { typ: FindResultType::Success, rrset: rrset_at(q, rds, t), node: None }
                } else if type_index(rds, RRType::CNAME) >= 0 {
                    FindV { typ: FindResultType::CName, rrset: rrset_at(q, rds, RRType::CNAME), node: None }
                } else {
                    FindV { typ: FindResultType::NXRRset, rrset: None, node: None }
                }
            }
        },
    }
}

/// The outcome of looking up `q` and `t` in zone `z`. A zone cut above `q`
/// answers with a delegation, at once when following zone cuts, and, when
/// glue is allowed, only where `q` itself is not a node. A node answers with
/// its delegation, the record set asked for, its CNAME or no data; an empty
/// non-terminal has no data; otherwise a wildcard under the closest encloser
/// may answer, and the name does not exist.
pub open spec fn find_spec(z: ZoneV, q: Seq<Seq<u8>>, t: RRType, opt: FindOption) -> FindV {
    if !is_subdomain_of(q, z.origin) {
        FindV { typ: FindResultType::NXDomain, rrset: None, node: None }
    } else {
        let cut = first_cut_from(z, q, z.origin.len() + 1int);
        if opt == FindOption::FollowZoneCut && cut is Some {
            cut_outcome(z, q, cut.unwrap())
        } else if node_index(z.nodes, q) >= 0 {
            exact_outcome(z, q, t, node_index(z.nodes, q))
        } else if cut is Some {
            cut_outcome(z, q, cut.unwrap())
        } else if has_descendant(z.nodes, q) {
            FindV { typ: FindResultType::NXRRset, rrset: None, node: None }
        } else {
            wildcard_outcome(z, q, t)
        }
    }
}

/// A zone is well formed: its names are distinct and in the zone, and each
/// node's record sets are well formed.
pub open spec fn zone_wf(z: ZoneV) -> bool {
    &&& forall|i: int, j: int| 0 <= i < j < z.nodes.len() ==> z.nodes[i].0 != z.nodes[j].0
    &&& forall|i: int| 0 <= i < z.nodes.len() ==> is_subdomain_of(#[trigger] z.nodes[i].0, z.origin)
    &&& forall|i: int| 0 <= i < z.nodes.len() ==> tuples_wf(#[trigger] z.nodes[i].1)
}


/// Whether adding `r` to zone `z` succeeds.
pub open spec fn zone_add_succeeds(z: ZoneV, r: RRsetV) -> bool {
    let i = node_index(z.nodes, r.name);
    is_subdomain_of(r.name, z.origin) && if i >= 0 {
        add_succeeds(z.nodes[i].1, r)
    } else {
        add_succeeds(Seq::<TupleV>::empty(), r)
    }
}

/// Whether `e` is the error with which adding `r` to zone `z` is refused: a
/// set outside the zone, then a set without records, then a CNAME or SOA set
/// of more than one record, and otherwise a CNAME sharing its name with data
/// of another type.
pub open spec fn zone_add_error(z: ZoneV, r: RRsetV, e: DataSrcError) -> bool {
    if !is_subdomain_of(r.name, z.origin) {
        e is OutOfZone
    } else if r.rdatas.len() == 0 {
        e is RRsetHasNoRdata
    } else if is_exclusive(r.typ) && r.rdatas.len() != 1 {
        e is ExclusiveRRsetHasMoreThanOneRdata
    } else {
        e is CNameCoExistsWithOtherRR
    }
}

/// The nodes of zone `z` after `r` was added, where the addition succeeds.
pub open spec fn zone_added(z: ZoneV, r: RRsetV) -> Seq<NodeV> {
    let i = node_index(z.nodes, r.name);
    if i >= 0 {
        z.nodes.update(i, (z.nodes[i].0, added(z.nodes[i].1, r)))
    } else {
        z.nodes.push((r.name, added(Seq::<TupleV>::empty(), r)))
    }
}

/// The name whose addresses are glue for a record of a record set of type `t`.
pub open spec fn glue_target(t: RRType, rd: RDataV) -> Option<Seq<Seq<u8>>> {
    match rd {
        RDataV::NS(n) => if t == RRType::NS { Some(n) } else { None },
        RDataV::MX { preference: _, exchange } => if t == RRType::MX { Some(exchange) } else { None },
        RDataV::SRV { priority: _, weight: _, port: _, target } => if t == RRType::SRV { Some(target) } else { None },
        _ => None,
    }
}

/// The address record sets of `n` in zone `z`: its A record set, found with
/// glue allowed, and then the AAAA record set at the node found, where the
/// name has an A record set or no data.
pub open spec fn address_of(z: ZoneV, n: Seq<Seq<u8>>) -> Seq<RRsetV> {
    let f = find_spec(z, n, RRType::A, FindOption::GlueOK);
    let a = if f.typ == FindResultType::Success && f.rrset is Some {
        seq![f.rrset.unwrap()]
    } else {
        Seq::<RRsetV>::empty()
    };
    let aaaa = if (f.typ == FindResultType::Success || f.typ == FindResultType::NXRRset) && f.node is Some {
        match rrset_at(z.nodes[f.node.unwrap()].0, z.nodes[f.node.unwrap()].1, RRType::AAAA) {
            Some(x) => seq![x],
            None => Seq::<RRsetV>::empty(),
        }
    } else {
        Seq::<RRsetV>::empty()
    };
    a + aaaa
}

/// The glue for the records `rds` of a record set of type `t`, in order.
pub open spec fn additional_from(z: ZoneV, t: RRType, rds: Seq<RDataV>) -> Seq<RRsetV>
    decreases rds.len(),
{
    if rds.len() == 0 {
        Seq::<RRsetV>::empty()
    } else {
        additional_from(z, t, rds.drop_last()) + match glue_target(t, rds.last()) {
            Some(n) => address_of(z, n),
            None => Seq::<RRsetV>::empty(),
        }
    }
}

/// The glue of the record set a lookup found: the addresses of the names
/// its NS, MX or SRV records point to.
pub open spec fn additional_of(z: ZoneV, r: Option<RRsetV>) -> Seq<RRsetV> {
    match r {
        Some(x) => additional_from(z, x.typ, x.rdatas),
        None => Seq::<RRsetV>::empty(),
    }
}

/// A node of the zone.
pub struct ZoneNode {
    name: Name,
    rdataset: Rdataset,
}

impl View for ZoneNode {
    type V = NodeV;

    closed spec fn view(&self) -> NodeV {
        (self.name@, self.rdataset@)
    }
}

/// The views of a vector of nodes.
pub open spec fn nodes_view(v: Seq<ZoneNode>) -> Seq<NodeV> {
    v.map_values(|n: ZoneNode| n@)
}

/// A zone held in memory.
pub struct MemoryZone {
    origin: Name,
    nodes: Vec<ZoneNode>,
}

impl View for MemoryZone {
    type V = ZoneV;

    closed spec fn view(&self) -> ZoneV {
        ZoneV { origin: self.origin@, nodes: nodes_view(self.nodes@) }
    }
}

/// What a lookup in a zone found.
pub struct MemoryZoneFindResult {
    pub typ: FindResultType,
    pub rrset: Option<RRset>,
    pub node: Option<usize>,
}

impl View for MemoryZoneFindResult {
    type V = FindV;

    open spec fn view(&self) -> FindV {
        FindV {
            typ: self.typ,
            rrset: opt_rrset_view(self.rrset),
            node: match self.node {
                Some(i) => Some(i as int),
                None => None,
            },
        }
    }
}


proof fn lemma_nodes_view_push(v: Seq<ZoneNode>, x: ZoneNode)
    ensures
        nodes_view(v.push(x)) == nodes_view(v).push(x@),
{
    assert(nodes_view(v.push(x)) =~= nodes_view(v).push(x@));
}

proof fn lemma_nodes_view_remove(v: Seq<ZoneNode>, i: int)
    requires
        0 <= i < v.len(),
    ensures
        nodes_view(v.remove(i)) == nodes_view(v).remove(i),
{
    assert(nodes_view(v.remove(i)) =~= nodes_view(v).remove(i));
}

proof fn lemma_nodes_view_insert(v: Seq<ZoneNode>, i: int, x: ZoneNode)
    requires
        0 <= i <= v.len(),
    ensures
        nodes_view(v.insert(i, x)) == nodes_view(v).insert(i, x@),
{
    assert(nodes_view(v.insert(i, x)) =~= nodes_view(v).insert(i, x@));
}

proof fn lemma_names_of(nodes: Seq<NodeV>)
    ensures
        names_of(nodes).len() == nodes.len(),
        forall|j: int| 0 <= j < nodes.len() ==> #[trigger] names_of(nodes)[j] == nodes[j].0,
{
}

proof fn lemma_ancestor_len(q: Seq<Seq<u8>>, d: int)
    requires
        0 <= d <= q.len(),
    ensures
        ancestor_at(q, d).len() == d,
{
}

impl MemoryZone {
    /// An empty zone with the given origin.
    pub fn new(origin: Name) -> (r: MemoryZone)
        ensures
            r@.origin == origin@,
            r@.nodes == Seq::<NodeV>::empty(),
            zone_wf(r@),
    {
        let r = MemoryZone { origin, nodes: Vec::new() };
        assert(r@.nodes =~= Seq::<NodeV>::empty());
        r
    }

    /// The origin of the zone.
    pub fn get_origin(&self) -> (r: &Name)
        ensures
            r@ == self@.origin,
    {
        &self.origin
    }


    /// Adds a record set to the zone, at a new node or to the node of its
    /// name. Refused where the name is outside the zone or the node's record
    /// sets refuse it, with the error `zone_add_error` names. A name that
    /// only holds the place of a wildcard's parent, or lies between the
    /// origin and deeper names, has no node here: a set added there gets a
    /// node of its own and is stored like any other.
    pub fn add_rrset(&mut self, rrset: RRset) -> (r: Result<(), DataSrcError>)
        requires
            zone_wf(old(self)@),
        ensures
            zone_wf(final(self)@),
            final(self)@.origin == old(self)@.origin,
            r is Ok <==> zone_add_succeeds(old(self)@, rrset@),
            r is Ok ==> final(self)@.nodes == zone_added(old(self)@, rrset@),
            r is Err ==> final(self)@ == old(self)@,
            r matches Err(e) ==> zone_add_error(old(self)@, rrset@, e),
    {
        if !rrset.name.is_subdomain(&self.origin) {
            return Err(DataSrcError::OutOfZone);
        }
        let ghost z = self@;
        let ghost rv = rrset@;
        match self.find_node(&rrset.name) {
            Some(i) => {
                proof {
                    lemma_nodes_view_remove(self.nodes@, i as int);
                }
                let mut node = self.nodes.remove(i);
                proof {
                    assert(node@ == z.nodes[i as int]);
                    assert(tuples_wf(z.nodes[i as int].1));
                }
                let res = node.rdataset.add_rrset(rrset);
                proof {
                    lemma_nodes_view_insert(self.nodes@, i as int, node);
                }
                self.nodes.insert(i, node);
                proof {
                    if res is Ok {
                        assert(self@.nodes =~= z.nodes.update(i as int, (z.nodes[i as int].0, added(z.nodes[i as int].1, rv))));
                    } else {
                        assert(self@.nodes =~= z.nodes);
                    }
                    assert forall|a: int, b: int| 0 <= a < b < self@.nodes.len() implies self@.nodes[a].0 != self@.nodes[b].0 by {
                        assert(self@.nodes[a].0 == z.nodes[a].0);
                        assert(self@.nodes[b].0 == z.nodes[b].0);
                    }
                    assert forall|a: int| 0 <= a < self@.nodes.len() implies is_subdomain_of(#[trigger] self@.nodes[a].0, z.origin) && tuples_wf(self@.nodes[a].1) by {
                        assert(self@.nodes[a].0 == z.nodes[a].0);
                    }
                }
                res
            },
            None => {
                let mut rds = Rdataset::new();
                let name = rrset.name.copy();
                let res = rds.add_rrset(rrset);
                if res.is_err() {
                    return res;
                }
                let node = ZoneNode { name, rdataset: rds };
                proof {
                    lemma_nodes_view_push(self.nodes@, node);
                }
                self.nodes.push(node);
                proof {
                    assert(self@.nodes =~= z.nodes.push((rv.name, added(Seq::<TupleV>::empty(), rv))));
                    lemma_names_of(z.nodes);
                    lemma_first_index(names_of(z.nodes), rv.name);
                    assert forall|a: int, b: int| 0 <= a < b < self@.nodes.len() implies self@.nodes[a].0 != self@.nodes[b].0 by {
                        if b == z.nodes.len() {
                            assert(names_of(z.nodes)[a] != rv.name);
                        }
                    }
                }
                res
            },
        }
    }

    /// Replaces the record sets of node `i` by `sets`, dropping the node
    /// where `sets` is empty.
    fn set_node_sets(&mut self, i: usize, mut node: ZoneNode, Ghost(z): Ghost<ZoneV>)
        requires
            zone_wf(z),
            0 <= i < z.nodes.len(),
            node@.0 == z.nodes[i as int].0,
            tuples_wf(node@.1),
            old(self)@ == (ZoneV { origin: z.origin, nodes: z.nodes.remove(i as int) }),
        ensures
            zone_wf(final(self)@),
            final(self)@ == (ZoneV { origin: z.origin, nodes: with_node_sets(z.nodes, i as int, node@.1) }),
    {
        if node.rdataset.is_empty() {
            proof {
                assert forall|a: int, b: int| 0 <= a < b < self@.nodes.len() implies self@.nodes[a].0 != self@.nodes[b].0 by {
                    let a2 = if a < i { a } else { a + 1 };
                    let b2 = if b < i { b } else { b + 1 };
                    assert(self@.nodes[a] == z.nodes[a2]);
                    assert(self@.nodes[b] == z.nodes[b2]);
                }
                assert forall|a: int| 0 <= a < self@.nodes.len() implies is_subdomain_of(#[trigger] self@.nodes[a].0, z.origin)
                    && tuples_wf(self@.nodes[a].1) by {
                    let a2 = if a < i { a } else { a + 1 };
                    assert(self@.nodes[a] == z.nodes[a2]);
                }
            }
        } else {
            proof {
                assert(self.nodes@.len() == self@.nodes.len());
                lemma_nodes_view_insert(self.nodes@, i as int, node);
            }
            self.nodes.insert(i, node);
            proof {
                assert(self@.nodes =~= z.nodes.update(i as int, (z.nodes[i as int].0, node@.1)));
                assert forall|a: int, b: int| 0 <= a < b < self@.nodes.len() implies self@.nodes[a].0 != self@.nodes[b].0 by {
                    assert(self@.nodes[a].0 == z.nodes[a].0);
                    assert(self@.nodes[b].0 == z.nodes[b].0);
                }
                assert forall|a: int| 0 <= a < self@.nodes.len() implies is_subdomain_of(#[trigger] self@.nodes[a].0, z.origin)
                    && tuples_wf(self@.nodes[a].1) by {
                    assert(self@.nodes[a].0 == z.nodes[a].0);
                }
            }
        }
    }

    /// Takes node `i` out of the zone.
    fn take_node(&mut self, i: usize) -> (r: ZoneNode)
        requires
            zone_wf(old(self)@),
            i < old(self)@.nodes.len(),
        ensures
            r@ == old(self)@.nodes[i as int],
            final(self)@ == (ZoneV { origin: old(self)@.origin, nodes: old(self)@.nodes.remove(i as int) }),
    {
        proof {
            lemma_nodes_view_remove(self.nodes@, i as int);
        }
        self.nodes.remove(i)
    }

    /// Removes the name `name` and its record sets from the zone; refused
    /// for the origin, and where the name has no node.
    pub fn delete_domain(&mut self, name: &Name) -> (r: Result<(), DataSrcError>)
        requires
            zone_wf(old(self)@),
        ensures
            zone_wf(final(self)@),
            final(self)@.origin == old(self)@.origin,
            name@ == old(self)@.origin ==> (r matches Err(DataSrcError::ZoneOrginNotAllowToDelete)) && final(self)@ == old(self)@,
            name@ != old(self)@.origin && node_index(old(self)@.nodes, name@) < 0 ==> (r matches Err(DataSrcError::NameNotFound(n))
                && n@ == name@) && final(self)@ == old(self)@,
            name@ != old(self)@.origin && node_index(old(self)@.nodes, name@) >= 0 ==> r is Ok && final(self)@.nodes
                == old(self)@.nodes.remove(node_index(old(self)@.nodes, name@)),
    {
        if name.eq_name(&self.origin) {
            return Err(DataSrcError::ZoneOrginNotAllowToDelete);
        }
        match self.find_node(name) {
            None => Err(DataSrcError::NameNotFound(name.copy())),
            Some(i) => {
                let ghost z = self@;
                proof {
                    self.lemma_find_node_valid(name@, RRType::A, FindOption::GlueOK);
                    lemma_names_of(z.nodes);
                    lemma_first_index(names_of(z.nodes), name@);
                }
                self.take_node(i);
                proof {
                    assert forall|a: int, b: int| 0 <= a < b < self@.nodes.len() implies self@.nodes[a].0 != self@.nodes[b].0 by {
                        let a2 = if a < i { a } else { a + 1 };
                        let b2 = if b < i { b } else { b + 1 };
                        assert(self@.nodes[a] == z.nodes[a2]);
                        assert(self@.nodes[b] == z.nodes[b2]);
                    }
                    assert forall|a: int| 0 <= a < self@.nodes.len() implies is_subdomain_of(#[trigger] self@.nodes[a].0, z.origin)
                        && tuples_wf(self@.nodes[a].1) by {
                        let a2 = if a < i { a } else { a + 1 };
                        assert(self@.nodes[a] == z.nodes[a2]);
                    }
                }
                Ok(())
            },
        }
    }

    /// Removes the record set of type `typ` at `name`; a name left without
    /// record sets leaves the zone. Refused where the name has no node or no
    /// set of the type.
    pub fn delete_rrset(&mut self, name: &Name, typ: RRType) -> (r: Result<(), DataSrcError>)
        requires
            zone_wf(old(self)@),
        ensures
            zone_wf(final(self)@),
            final(self)@.origin == old(self)@.origin,
            ({
                let z = old(self)@;
                let i = node_index(z.nodes, name@);
                &&& i < 0 ==> (r matches Err(DataSrcError::NameNotFound(n)) && n@ == name@) && final(self)@ == z
                &&& i >= 0 && type_index(z.nodes[i].1, typ) < 0 ==> (r matches Err(DataSrcError::RRsetNotFound(t)) && t == typ)
                    && final(self)@ == z
                &&& i >= 0 && type_index(z.nodes[i].1, typ) >= 0 ==> r is Ok && final(self)@.nodes == with_node_sets(
                    z.nodes,
                    i,
                    z.nodes[i].1.remove(type_index(z.nodes[i].1, typ)),
                )
            }),
    {
        let ghost z = self@;
        match self.find_node(name) {
            None => Err(DataSrcError::NameNotFound(name.copy())),
            Some(i) => {
                proof {
                    self.lemma_find_node_valid(name@, RRType::A, FindOption::GlueOK);
                    lemma_names_of(z.nodes);
                    lemma_first_index(names_of(z.nodes), name@);
                }
                let mut node = self.take_node(i);
                proof {
                    assert(tuples_wf(z.nodes[i as int].1));
                }
                let res = node.rdataset.delete_rrset(typ);
                if res.is_err() {
                    proof {
                        assert(self.nodes@.len() == self@.nodes.len());
                        lemma_nodes_view_insert(self.nodes@, i as int, node);
                    }
                    self.nodes.insert(i, node);
                    proof {
                        assert(self@.nodes =~= z.nodes);
                    }
                    return res;
                }
                self.set_node_sets(i, node, Ghost(z));
                res
            },
        }
    }

    /// Removes the records of `rrset` at its name, as
    /// `Rdataset::delete_rdata` says; a name left without record sets leaves
    /// the zone. Refused where the name has no node.
    pub fn delete_rdata(&mut self, rrset: &RRset) -> (r: Result<(), DataSrcError>)
        requires
            zone_wf(old(self)@),
        ensures
            zone_wf(final(self)@),
            final(self)@.origin == old(self)@.origin,
            ({
                let z = old(self)@;
                let i = node_index(z.nodes, rrset@.name);
                &&& i < 0 ==> (r matches Err(DataSrcError::NameNotFound(n)) && n@ == rrset@.name) && final(self)@ == z
                &&& i >= 0 ==> (r is Ok <==> rdata_delete_succeeds(z.nodes[i].1, rrset@)) && final(self)@.nodes
                    == with_node_sets(z.nodes, i, rdata_deleted(z.nodes[i].1, rrset@))
            }),
    {
        let ghost z = self@;
        match self.find_node(&rrset.name) {
            None => Err(DataSrcError::NameNotFound(rrset.name.copy())),
            Some(i) => {
                proof {
                    self.lemma_find_node_valid(rrset@.name, RRType::A, FindOption::GlueOK);
                    lemma_names_of(z.nodes);
                    lemma_first_index(names_of(z.nodes), rrset@.name);
                    assert(tuples_wf(z.nodes[i as int].1));
                }
                let mut node = self.take_node(i);
                let res = node.rdataset.delete_rdata(rrset);
                self.set_node_sets(i, node, Ghost(z));
                res
            },
        }
    }

    /// Replaces records of the record set of `old_rrset`'s type at its
    /// name, as `Rdataset::update_rdata` says. Refused where the name has no
    /// node.
    pub fn update_rdata(&mut self, old_rrset: &RRset, new_rrset: RRset) -> (r: Result<(), DataSrcError>)
        requires
            zone_wf(old(self)@),
            node_index(old(self)@.nodes, old_rrset@.name) >= 0 ==> rdata_update_in_range(
                old(self)@.nodes[node_index(old(self)@.nodes, old_rrset@.name)].1,
                old_rrset@,
                new_rrset@,
            ),
        ensures
            zone_wf(final(self)@),
            final(self)@.origin == old(self)@.origin,
            ({
                let z = old(self)@;
                let i = node_index(z.nodes, old_rrset@.name);
                &&& i < 0 ==> (r matches Err(DataSrcError::NameNotFound(n)) && n@ == old_rrset@.name) && final(self)@ == z
                &&& i >= 0 ==> (r is Ok <==> rdata_update_succeeds(z.nodes[i].1, old_rrset@, new_rrset@)) && final(self)@.nodes
                    == z.nodes.update(i, (z.nodes[i].0, rdata_updated(z.nodes[i].1, old_rrset@, new_rrset@)))
            }),
    {
        let ghost z = self@;
        match self.find_node(&old_rrset.name) {
            None => Err(DataSrcError::NameNotFound(old_rrset.name.copy())),
            Some(i) => {
                proof {
                    self.lemma_find_node_valid(old_rrset@.name, RRType::A, FindOption::GlueOK);
                    lemma_names_of(z.nodes);
                    lemma_first_index(names_of(z.nodes), old_rrset@.name);
                    assert(tuples_wf(z.nodes[i as int].1));
                }
                let mut node = self.take_node(i);
                let res = node.rdataset.update_rdata(old_rrset, new_rrset);
                proof {
                    assert(self.nodes@.len() == self@.nodes.len());
                    lemma_nodes_view_insert(self.nodes@, i as int, node);
                }
                self.nodes.insert(i, node);
                proof {
                    assert(self@.nodes =~= z.nodes.update(i as int, (z.nodes[i as int].0, node@.1)));
                    assert forall|a: int, b: int| 0 <= a < b < self@.nodes.len() implies self@.nodes[a].0 != self@.nodes[b].0 by {
                        assert(self@.nodes[a].0 == z.nodes[a].0);
                        assert(self@.nodes[b].0 == z.nodes[b].0);
                    }
                    assert forall|a: int| 0 <= a < self@.nodes.len() implies is_subdomain_of(#[trigger] self@.nodes[a].0, z.origin)
                        && tuples_wf(self@.nodes[a].1) by {
                        assert(self@.nodes[a].0 == z.nodes[a].0);
                    }
                }
                res
            },
        }
    }

    proof fn lemma_find_node_valid(&self, q: Seq<Seq<u8>>, t: RRType, opt: FindOption)
        ensures
            find_spec(self@, q, t, opt).node matches Some(i) ==> 0 <= i < self@.nodes.len(),
            self@.nodes.len() == self.nodes@.len(),
    {
        lemma_names_of(self@.nodes);
        lemma_first_index(names_of(self@.nodes), q);
        if is_subdomain_of(q, self@.origin) {
            let cut = first_cut_from(self@, q, self@.origin.len() + 1int);
            self.lemma_first_cut_is_cut(q, self@.origin.len() + 1int);
            if cut is Some {
                let c = ancestor_at(q, cut.unwrap());
                lemma_first_index(names_of(self@.nodes), c);
            }
        }
    }

    /// The address record sets of `name`. See `address_of`.
    pub fn get_address(&self, name: &Name) -> (r: Vec<RRset>)
        requires
            zone_wf(self@),
        ensures
            rrsets_view(r@) == address_of(self@, name@),
    {
        let result = self.find(name, RRType::A, FindOption::GlueOK);
        proof {
            self.lemma_find_node_valid(name@, RRType::A, FindOption::GlueOK);
        }
        let mut out: Vec<RRset> = Vec::new();
        let is_success = result.typ == FindResultType::Success;
        let try_aaaa = is_success || result.typ == FindResultType::NXRRset;
        match result.rrset {
            Some(rr) => {
                if is_success {
                    proof {
                        lemma_rrsets_view_push(out@, rr);
                    }
                    out.push(rr);
                }
            },
            None => {},
        }
        proof {
            assert(rrsets_view(out@) =~= (if result@.typ == FindResultType::Success && result@.rrset is Some {
                seq![result@.rrset.unwrap()]
            } else {
                Seq::<RRsetV>::empty()
            }));
        }
        let ghost first = rrsets_view(out@);
        if try_aaaa {
            match result.node {
                Some(i) => {
                    let aaaa = self.rrset_at_node(i, &self.nodes[i].name, RRType::AAAA);
                    proof {
                        assert(self@.nodes[i as int].0 == self.nodes@[i as int].name@);
                    }
                    match aaaa {
                        Some(x) => {
                            proof {
                                lemma_rrsets_view_push(out@, x);
                            }
                            out.push(x);
                        },
                        None => {},
                    }
                },
                None => {},
            }
        }
        proof {
            let f = find_spec(self@, name@, RRType::A, FindOption::GlueOK);
            assert(rrsets_view(out@) =~= address_of(self@, name@));
        }
        out
    }

    /// The glue of a record set a lookup found. See `additional_of`.
    pub fn get_additional(&self, rrset: &Option<RRset>) -> (r: Vec<RRset>)
        requires
            zone_wf(self@),
        ensures
            rrsets_view(r@) == additional_of(self@, opt_rrset_view(*rrset)),
    {
        let mut out: Vec<RRset> = Vec::new();
        match rrset {
            None => {
                proof {
                    assert(rrsets_view(out@) =~= Seq::<RRsetV>::empty());
                }
                out
            },
            Some(rr) => {
                let ghost rds = rr@.rdatas;
                let mut i: usize = 0;
                proof {
                    assert(rrsets_view(out@) =~= additional_from(self@, rr.typ, rds.subrange(0, 0)));
                }
                while i < rr.rdatas.len()
                    invariant
                        i <= rr.rdatas.len(),
                        zone_wf(self@),
                        rds == rr@.rdatas,
                        rds.len() == rr.rdatas.len(),
                        rrsets_view(out@) == additional_from(self@, rr.typ, rds.subrange(0, i as int)),
                    decreases rr.rdatas.len() - i,
                {
                    let target: Option<&Name> = match &rr.rdatas[i] {
                        RData::NS(n) => if rr.typ == RRType::NS { Some(n) } else { None },
                        RData::MX { preference: _, exchange } => if rr.typ == RRType::MX { Some(exchange) } else { None },
                        RData::SRV { priority: _, weight: _, port: _, target } => if rr.typ == RRType::SRV { Some(target) } else { None },
                        _ => None,
                    };
                    let ghost prev = rrsets_view(out@);
                    proof {
                        assert(rds.subrange(0, i + 1).drop_last() =~= rds.subrange(0, i as int));
                        assert(rds.subrange(0, i + 1).last() == rds[i as int]);
                        assert(rds[i as int] == rr.rdatas@[i as int]@);
                    }
                    match target {
                        Some(n) => {
                            let mut addrs = self.get_address(n);
                            let ghost a = rrsets_view(addrs@);
                            out.append(&mut addrs);
                            proof {
                                assert(rrsets_view(out@) =~= prev + a);
                            }
                        },
                        None => {
                            proof {
                                assert(rrsets_view(out@) =~= prev + Seq::<RRsetV>::empty());
                            }
                        },
                    }
                    i = i + 1;
                }
                proof {
                    assert(rds.subrange(0, rds.len() as int) =~= rds);
                }
                out
            },
        }
    }

    /// The SOA record set at the origin.
    pub fn get_apex_soa(&self) -> (r: Option<RRset>)
        requires
            zone_wf(self@),
        ensures
            node_index(self@.nodes, self@.origin) < 0 ==> r is None,
            node_index(self@.nodes, self@.origin) >= 0 ==> opt_rrset_view(r) == rrset_at(
                self@.origin,
                self@.nodes[node_index(self@.nodes, self@.origin)].1,
                RRType::SOA,
            ),
    {
        match self.find_node(&self.origin) {
            Some(i) => self.rrset_at_node(i, &self.origin, RRType::SOA),
            None => None,
        }
    }

    /// The NS record set at the origin and its glue.
    pub fn get_apex_ns_and_glue(&self) -> (r: (Option<RRset>, Vec<RRset>))
        requires
            zone_wf(self@),
        ensures
            node_index(self@.nodes, self@.origin) < 0 ==> r.0 is None,
            node_index(self@.nodes, self@.origin) >= 0 ==> opt_rrset_view(r.0) == rrset_at(
                self@.origin,
                self@.nodes[node_index(self@.nodes, self@.origin)].1,
                RRType::NS,
            ),
            rrsets_view(r.1@) == additional_of(self@, opt_rrset_view(r.0)),
    {
        let ns = match self.find_node(&self.origin) {
            Some(i) => self.rrset_at_node(i, &self.origin, RRType::NS),
            None => None,
        };
        let glue = self.get_additional(&ns);
        (ns, glue)
    }

    /// The position of the node named `name`.
    fn find_node(&self, name: &Name) -> (r: Option<usize>)
        ensures
            match r {
                Some(i) => i == node_index(self@.nodes, name@) && i < self@.nodes.len(),
                None => node_index(self@.nodes, name@) < 0,
            },
    {
        let ghost ns = names_of(self@.nodes);
        proof {
            lemma_names_of(self@.nodes);
        }
        let mut i: usize = 0;
        while i < self.nodes.len()
            invariant
                i <= self.nodes.len(),
                ns == names_of(self@.nodes),
                ns.len() == self.nodes@.len(),
                forall|j: int| 0 <= j < i ==> ns[j] != name@,
            decreases self.nodes.len() - i,
        {
            proof {
                lemma_names_of(self@.nodes);
            }
            if self.nodes[i].name.eq_name(name) {
                proof {
                    lemma_first_index_is(ns, name@, i as int);
                }
                return Some(i);
            }
            i = i + 1;
        }
        proof {
            lemma_first_index_is(ns, name@, -1);
        }
        None
    }

    /// Whether some node lies strictly below `name`.
    fn has_descendant_node(&self, name: &Name) -> (r: bool)
        ensures
            r == has_descendant(self@.nodes, name@),
    {
        let mut i: usize = 0;
        while i < self.nodes.len()
            invariant
                i <= self.nodes.len(),
                forall|j: int| 0 <= j < i ==> !is_strict_subdomain_of(#[trigger] self@.nodes[j].0, name@),
            decreases self.nodes.len() - i,
        {
            let n = &self.nodes[i].name;
            if n.label_count() > name.label_count() && n.is_subdomain(name) {
                proof {
                    assert(self@.nodes[i as int].0 == n@);
                }
                return true;
            }
            proof {
                assert(self@.nodes[i as int].0 == n@);
            }
            i = i + 1;
        }
        false
    }

    /// The record set of type `typ` at node `i`, owned by `name`.
    fn rrset_at_node(&self, i: usize, name: &Name, typ: RRType) -> (r: Option<RRset>)
        requires
            i < self@.nodes.len(),
        ensures
            opt_rrset_view(r) == rrset_at(name@, self@.nodes[i as int].1, typ),
    {
        let r = self.nodes[i].rdataset.get_rrset(name, typ);
        proof {
            assert(self@.nodes[i as int].1 == self.nodes@[i as int].rdataset@);
        }
        r
    }

    /// The depth of the highest zone cut strictly between the origin and `q`.
    fn first_cut(&self, q: &Name) -> (r: Option<usize>)
        requires
            is_subdomain_of(q@, self@.origin),
        ensures
            match r {
                Some(d) => first_cut_from(self@, q@, self@.origin.len() + 1int) == Some(d as int),
                None => first_cut_from(self@, q@, self@.origin.len() + 1int) is None,
            },
    {
        let olen = self.origin.label_count();
        let qlen = q.label_count();
        if qlen <= olen {
            return None;
        }
        let mut d: usize = olen + 1;
        while d < qlen
            invariant
                olen + 1 <= d,
                olen == self@.origin.len(),
                qlen == q@.len(),
                first_cut_from(self@, q@, olen + 1int) == first_cut_from(self@, q@, d as int),
            decreases qlen - d,
        {
            let anc = q.ancestor(d);
            proof {
                lemma_ancestor_len(q@, d as int);
            }
            match self.find_node(&anc) {
                Some(i) => {
                    if self.nodes[i].rdataset.has_type(RRType::NS) {
                        proof {
                            assert(self@.nodes[i as int].1 == self.nodes@[i as int].rdataset@);
                            assert(anc@ != self@.origin);
                        }
                        return Some(d);
                    }
                    proof {
                        assert(self@.nodes[i as int].1 == self.nodes@[i as int].rdataset@);
                    }
                },
                None => {},
            }
            d = d + 1;
        }
        None
    }

    /// The depth of the deepest strict ancestor of `q`, not above the origin,
    /// that is a node or has nodes below it.
    fn closest_encloser(&self, q: &Name) -> (r: Option<usize>)
        requires
            is_subdomain_of(q@, self@.origin),
        ensures
            match r {
                Some(d) => encloser_from(self@, q@, self@.origin.len() as int, q@.len() - 1) == Some(
                    d as int,
                ),
                None => encloser_from(self@, q@, self@.origin.len() as int, q@.len() - 1) is None,
            },
    {
        let olen = self.origin.label_count();
        let qlen = q.label_count();
        if qlen == 0 {
            return None;
        }
        let mut d: usize = qlen - 1;
        loop
            invariant
                olen == self@.origin.len(),
                qlen == q@.len(),
                d < qlen,
                encloser_from(self@, q@, olen as int, qlen - 1) == encloser_from(
                    self@,
                    q@,
                    olen as int,
                    d as int,
                ),
            decreases d,
        {
            if d < olen {
                return None;
            }
            let anc = q.ancestor(d);
            if self.find_node(&anc).is_some() || self.has_descendant_node(&anc) {
                return Some(d);
            }
            if d == 0 {
                proof {
                    assert(encloser_from(self@, q@, olen as int, -1int) is None);
                }
                return None;
            }
            d = d - 1;
        }
    }

    /// Looks up `name` and `typ`. See `find_spec`.
    pub fn find(&self, name: &Name, typ: RRType, opt: FindOption) -> (r: MemoryZoneFindResult)
        requires
            zone_wf(self@),
        ensures
            r@ == find_spec(self@, name@, typ, opt),
    {
        if !name.is_subdomain(&self.origin) {
            return MemoryZoneFindResult { typ: FindResultType::NXDomain, rrset: None, node: None };
        }
        let cut = self.first_cut(name);
        if opt == FindOption::FollowZoneCut && cut.is_some() {
            return self.cut_result(name, cut.unwrap());
        }
        match self.find_node(name) {
            Some(i) => {
                return self.exact_result(name, typ, i);
            },
            None => {},
        }
        if cut.is_some() {
            return self.cut_result(name, cut.unwrap());
        }
        if self.has_descendant_node(name) {
            return MemoryZoneFindResult { typ: FindResultType::NXRRset, rrset: None, node: None };
        }
        self.wildcard_result(name, typ)
    }

    fn exact_result(&self, name: &Name, typ: RRType, i: usize) -> (r: MemoryZoneFindResult)
        requires
            i < self@.nodes.len(),
        ensures
            r@ == exact_outcome(self@, name@, typ, i as int),
    {
        let rds = &self.nodes[i].rdataset;
        proof {
            assert(self@.nodes[i as int].1 == rds@);
        }
        if !name.eq_name(&self.origin) && rds.has_type(RRType::NS) {
            let rr = self.rrset_at_node(i, name, RRType::NS);
            MemoryZoneFindResult { typ: FindResultType::Delegation, rrset: rr, node: Some(i) }
        } else if rds.has_type(typ) {
            let rr = self.rrset_at_node(i, name, typ);
            MemoryZoneFindResult { typ: FindResultType::Success, rrset: rr, node: Some(i) }
        } else if rds.has_type(RRType::CNAME) {
            let rr = self.rrset_at_node(i, name, RRType::CNAME);
            MemoryZoneFindResult { typ: FindResultType::CName, rrset: rr, node: Some(i) }
        } else {
            MemoryZoneFindResult { typ: FindResultType::NXRRset, rrset: None, node: Some(i) }
        }
    }

    fn cut_result(&self, name: &Name, d: usize) -> (r: MemoryZoneFindResult)
        requires
            is_subdomain_of(name@, self@.origin),
            first_cut_from(self@, name@, self@.origin.len() + 1int) == Some(d as int),
        ensures
            r@ == cut_outcome(self@, name@, d as int),
    {
        proof {
            self.lemma_first_cut_is_cut(name@, self@.origin.len() + 1int);
        }
        let c = name.ancestor(d);
        let i = self.find_node(&c).unwrap();
        let rr = self.rrset_at_node(i, &c, RRType::NS);
        MemoryZoneFindResult { typ: FindResultType::Delegation, rrset: rr, node: Some(i) }
    }

    proof fn lemma_first_cut_is_cut(&self, q: Seq<Seq<u8>>, d: int)
        ensures
            first_cut_from(self@, q, d) matches Some(c) ==> d <= c < q.len() && is_cut(
                self@,
                ancestor_at(q, c),
            ),
        decreases q.len() - d,
    {
        if d < q.len() && d >= 0 && !is_cut(self@, ancestor_at(q, d)) {
            self.lemma_first_cut_is_cut(q, d + 1);
        }
    }

    proof fn lemma_encloser_in_range(&self, q: Seq<Seq<u8>>, lo: int, d: int)
        ensures
            encloser_from(self@, q, lo, d) matches Some(e) ==> lo <= e <= d && 0 <= e,
        decreases d + 1,
    {
        if d >= lo && d >= 0 && !(node_index(self@.nodes, ancestor_at(q, d)) >= 0 || has_descendant(
            self@.nodes,
            ancestor_at(q, d),
        )) {
            self.lemma_encloser_in_range(q, lo, d - 1);
        }
    }

    fn wildcard_result(&self, name: &Name, typ: RRType) -> (r: MemoryZoneFindResult)
        requires
            is_subdomain_of(name@, self@.origin),
        ensures
            r@ == wildcard_outcome(self@, name@, typ),
    {
        let e = self.closest_encloser(name);
        proof {
            self.lemma_encloser_in_range(name@, self@.origin.len() as int, name@.len() - 1);
        }
        match e {
            None => MemoryZoneFindResult { typ: FindResultType::NXDomain, rrset: None, node: None },
            Some(d) => {
                let w = name.ancestor(d).wildcard_child();
                match self.find_node(&w) {
                    None => MemoryZoneFindResult { typ: FindResultType::NXDomain, rrset: None, node: None },
                    Some(i) => {
                        let rds = &self.nodes[i].rdataset;
                        proof {
                            assert(self@.nodes[i as int].1 == rds@);
                        }
                        if rds.has_type(typ) {
                            let rr = self.rrset_at_node(i, name, typ);
                            MemoryZoneFindResult { typ: FindResultType::Success, rrset: rr, node: None }
                        } else if rds.has_type(RRType::CNAME) {
                            let rr = self.rrset_at_node(i, name, RRType::CNAME);
                            MemoryZoneFindResult { typ: FindResultType::CName, rrset: rr, node: None }
                        } else {
                            MemoryZoneFindResult { typ: FindResultType::NXRRset, rrset: None, node: None }
                        }
                    },
                }
            },
        }
    }
}

/// The nodes `nodes` with the record sets of node `i` replaced by `sets`,
/// the node dropped where `sets` is empty.
pub open spec fn with_node_sets(nodes: Seq<NodeV>, i: int, sets: Seq<TupleV>) -> Seq<NodeV> {
    if sets.len() == 0 {
        nodes.remove(i)
    } else {
        nodes.update(i, (nodes[i].0, sets))
    }
}

/// The record sets at `q` after adding `r` there: `added` applied to those it
/// had, or to none.
pub open spec fn sets_after(z: ZoneV, r: RRsetV) -> Seq<TupleV> {
    let i = node_index(z.nodes, r.name);
    if i >= 0 {
        added(z.nodes[i].1, r)
    } else {
        added(Seq::<TupleV>::empty(), r)
    }
}

/// After an addition, the node of the added set's name holds `sets_after`,
/// and every other name keeps its position and its record sets.
proof fn lemma_zone_added_nodes(z: ZoneV, r: RRsetV)
    ensures
        ({
            let z2 = ZoneV { origin: z.origin, nodes: zone_added(z, r) };
            &&& node_index(z2.nodes, r.name) >= 0
            &&& z2.nodes[node_index(z2.nodes, r.name)].1 == sets_after(z, r)
            &&& forall|a: Seq<Seq<u8>>| a != r.name ==> #[trigger] node_index(z2.nodes, a) == node_index(z.nodes, a)
            &&& forall|a: Seq<Seq<u8>>| a != r.name && node_index(z.nodes, a) >= 0 ==> z2.nodes[node_index(z2.nodes, a)].1
                == #[trigger] z.nodes[node_index(z.nodes, a)].1
        }),
{
    let z2 = ZoneV { origin: z.origin, nodes: zone_added(z, r) };
    let i = node_index(z.nodes, r.name);
    lemma_first_index(names_of(z.nodes), r.name);
    if i >= 0 {
        assert(names_of(z2.nodes) =~= names_of(z.nodes));
        assert forall|a: Seq<Seq<u8>>| a != r.name && node_index(z.nodes, a) >= 0 implies z2.nodes[node_index(z2.nodes, a)].1
            == #[trigger] z.nodes[node_index(z.nodes, a)].1 by {
            lemma_first_index(names_of(z.nodes), a);
            assert(names_of(z.nodes)[i] == r.name);
        }
    } else {
        assert(names_of(z2.nodes) =~= names_of(z.nodes).push(r.name));
        crate::seqs::lemma_first_index_push(names_of(z.nodes), r.name, r.name);
        assert forall|a: Seq<Seq<u8>>| a != r.name implies #[trigger] node_index(z2.nodes, a) == node_index(z.nodes, a) by {
            crate::seqs::lemma_first_index_push(names_of(z.nodes), r.name, a);
        }
        assert forall|a: Seq<Seq<u8>>| a != r.name && node_index(z.nodes, a) >= 0 implies z2.nodes[node_index(z2.nodes, a)].1
            == #[trigger] z.nodes[node_index(z.nodes, a)].1 by {
            crate::seqs::lemma_first_index_push(names_of(z.nodes), r.name, a);
            lemma_first_index(names_of(z.nodes), a);
        }
    }
}

/// Adding `r` changes no type of record set but that of `r`, and leaves a
/// set of `r`'s type whose data ends with that of `r` and whose time to live
/// is that of `r`.
pub proof fn lemma_added_sets(s: Seq<TupleV>, r: RRsetV)
    ensures
        forall|t: RRType| t != r.typ ==> #[trigger] type_index(added(s, r), t) == type_index(s, t),
        type_index(added(s, r), r.typ) >= 0,
        added(s, r)[type_index(added(s, r), r.typ)].ttl == r.ttl,
        ({
            let d = added(s, r)[type_index(added(s, r), r.typ)].rdatas;
            d.len() >= r.rdatas.len() && d.subrange(d.len() - r.rdatas.len(), d.len() as int) == r.rdatas
        }),
{
    let i = type_index(s, r.typ);
    lemma_first_index(types_of(s), r.typ);
    if i >= 0 {
        assert(types_of(added(s, r)) =~= types_of(s));
        let d = added(s, r)[i].rdatas;
        if !is_exclusive(r.typ) {
            assert(d.subrange(d.len() - r.rdatas.len(), d.len() as int) =~= r.rdatas);
        } else {
            assert(d.subrange(0, d.len() as int) =~= r.rdatas);
        }
    } else {
        let nt = TupleV { typ: r.typ, ttl: r.ttl, rdatas: r.rdatas };
        assert(types_of(added(s, r)) =~= types_of(s).push(r.typ));
        crate::seqs::lemma_first_index_push(types_of(s), r.typ, r.typ);
        assert forall|t: RRType| t != r.typ implies #[trigger] type_index(added(s, r), t) == type_index(s, t) by {
            crate::seqs::lemma_first_index_push(types_of(s), r.typ, t);
        }
        assert(r.rdatas.subrange(0, r.rdatas.len() as int) =~= r.rdatas);
    }
}

/// A zone cut above `q` is found in the zone after an addition at `q` where
/// it is found before: the cuts strictly above `q` do not change.
proof fn lemma_cut_unchanged(z: ZoneV, r: RRsetV, d: int)
    ensures
        first_cut_from(ZoneV { origin: z.origin, nodes: zone_added(z, r) }, r.name, d) == first_cut_from(z, r.name, d),
    decreases r.name.len() - d,
{
    let z2 = ZoneV { origin: z.origin, nodes: zone_added(z, r) };
    lemma_zone_added_nodes(z, r);
    if d >= r.name.len() || d < 0 {
    } else {
        let a = ancestor_at(r.name, d);
        assert(a.len() == d);
        assert(a != r.name);
        assert(node_index(z2.nodes, a) == node_index(z.nodes, a));
        if node_index(z.nodes, a) >= 0 {
            assert(z2.nodes[node_index(z2.nodes, a)].1 == z.nodes[node_index(z.nodes, a)].1);
        }
        assert(is_cut(z2, a) == is_cut(z, a));
        lemma_cut_unchanged(z, r, d + 1);
    }
}

/// A record set added to a zone is what a lookup of its name and type then
/// finds: its name and type, its time to live, and data that ends with its
/// own (the whole data for a CNAME or SOA set, which an addition replaces).
/// This holds where no zone cut lies above the name, and where the name is
/// not itself a zone cut: an NS set or NS data away from the origin makes a
/// delegation instead.
pub proof fn lemma_find_after_add(z: ZoneV, r: RRsetV, opt: FindOption)
    requires
        zone_wf(z),
        zone_add_succeeds(z, r),
        first_cut_from(z, r.name, z.origin.len() + 1int) is None,
        r.name == z.origin || (r.typ != RRType::NS && (node_index(z.nodes, r.name) < 0 || type_index(
            z.nodes[node_index(z.nodes, r.name)].1,
            RRType::NS,
        ) < 0)),
    ensures
        ({
            let f = find_spec(ZoneV { origin: z.origin, nodes: zone_added(z, r) }, r.name, r.typ, opt);
            &&& f.typ == FindResultType::Success
            &&& f.rrset matches Some(found) && found.name == r.name && found.typ == r.typ && found.ttl == r.ttl
                && found.rdatas.len() >= r.rdatas.len() && found.rdatas.subrange(
                found.rdatas.len() - r.rdatas.len(),
                found.rdatas.len() as int,
            ) == r.rdatas
        }),
{
    let z2 = ZoneV { origin: z.origin, nodes: zone_added(z, r) };
    lemma_zone_added_nodes(z, r);
    lemma_cut_unchanged(z, r, z.origin.len() + 1int);
    let i = node_index(z.nodes, r.name);
    let old_sets = if i >= 0 { z.nodes[i].1 } else { Seq::<TupleV>::empty() };
    lemma_added_sets(old_sets, r);
    assert(sets_after(z, r) == added(old_sets, r));
    if r.name != z.origin {
        assert(type_index(added(old_sets, r), RRType::NS) == type_index(old_sets, RRType::NS));
        if i < 0 {
            assert(types_of(Seq::<TupleV>::empty()) =~= Seq::<RRType>::empty());
            assert(type_index(old_sets, RRType::NS) == -1);
        }
    }
}

/// Adding a record set to the set of its name's record sets makes it what a
/// read of its type gives: its time to live and data ending with its own.
pub proof fn lemma_get_after_add(s: Seq<TupleV>, r: RRsetV)
    requires
        tuples_wf(s),
        add_succeeds(s, r),
    ensures
        type_index(added(s, r), r.typ) >= 0,
        added(s, r)[type_index(added(s, r), r.typ)].ttl == r.ttl,
        ({
            let d = added(s, r)[type_index(added(s, r), r.typ)].rdatas;
            d.len() >= r.rdatas.len() && d.subrange(d.len() - r.rdatas.len(), d.len() as int) == r.rdatas
        }),
{
    lemma_added_sets(s, r);
}

/// With no zone cut from `d` labels on, the search for one finds none.
pub proof fn lemma_no_cut_from(z: ZoneV, q: Seq<Seq<u8>>, d: int)
    requires
        d >= 0,
        forall|e: int| d <= e < q.len() ==> !is_cut(z, #[trigger] ancestor_at(q, e)),
    ensures
        first_cut_from(z, q, d) is None,
    decreases q.len() - d,
{
    if d < q.len() {
        lemma_no_cut_from(z, q, d + 1);
    }
}

/// The deepest ancestor of `q` with at most `d` labels that is a node or has
/// nodes below it is the one with `e` labels, where that one is such and
/// none deeper is.
proof fn lemma_encloser_at(z: ZoneV, q: Seq<Seq<u8>>, lo: int, d: int, e: int)
    requires
        0 <= lo <= e <= d,
        node_index(z.nodes, ancestor_at(q, e)) >= 0 || has_descendant(z.nodes, ancestor_at(q, e)),
        forall|x: int|
            e < x <= d ==> node_index(z.nodes, #[trigger] ancestor_at(q, x)) < 0 && !has_descendant(z.nodes, ancestor_at(q, x)),
    ensures
        encloser_from(z, q, lo, d) == Some(e),
    decreases d + 1,
{
    if d > e {
        assert(node_index(z.nodes, ancestor_at(q, d)) < 0 && !has_descendant(z.nodes, ancestor_at(q, d)));
        lemma_encloser_at(z, q, lo, d - 1, e);
    }
}

/// The answer for a name of the zone that does not exist, stated from the
/// zone's contents: take the closest encloser, the deepest ancestor of the
/// name (from the origin down) that is a node or has nodes below it. Where
/// no zone cut lies above the name and the closest encloser has no wildcard
/// child `*`, the name does not exist. Otherwise the wildcard answers for the
/// name: with its set of the asked type, owned by the name; else with its
/// CNAME set, owned by the name; else with no data.
pub proof fn lemma_wildcard_answer(z: ZoneV, q: Seq<Seq<u8>>, t: RRType, opt: FindOption, d: int)
    requires
        is_subdomain_of(q, z.origin),
        forall|e: int| z.origin.len() < e < q.len() ==> !is_cut(z, #[trigger] ancestor_at(q, e)),
        node_index(z.nodes, q) < 0,
        !has_descendant(z.nodes, q),
        z.origin.len() <= d < q.len(),
        node_index(z.nodes, ancestor_at(q, d)) >= 0 || has_descendant(z.nodes, ancestor_at(q, d)),
        forall|e: int|
            d < e < q.len() ==> node_index(z.nodes, #[trigger] ancestor_at(q, e)) < 0 && !has_descendant(z.nodes, ancestor_at(q, e)),
    ensures
        ({
            let w = node_index(z.nodes, wildcard_of(ancestor_at(q, d)));
            let r = find_spec(z, q, t, opt);
            &&& w < 0 ==> r.typ == FindResultType::NXDomain && r.rrset is None
            &&& w >= 0 ==> {
                let rds = z.nodes[w].1;
                let ti = type_index(rds, t);
                let ci = type_index(rds, RRType::CNAME);
                &&& ti >= 0 ==> r.typ == FindResultType::Success && r.rrset == Some(
                    RRsetV { name: q, typ: t, class: CLASS_IN, ttl: rds[ti].ttl, rdatas: rds[ti].rdatas },
                )
                &&& ti < 0 && ci >= 0 ==> r.typ == FindResultType::CName && r.rrset == Some(
                    RRsetV { name: q, typ: RRType::CNAME, class: CLASS_IN, ttl: rds[ci].ttl, rdatas: rds[ci].rdatas },
                )
                &&& ti < 0 && ci < 0 ==> r.typ == FindResultType::NXRRset && r.rrset is None
            }
        }),
{
    assert(ancestor_at(q, q.len() as int) =~= q);
    assert forall|e: int| z.origin.len() + 1 <= e < q.len() implies !is_cut(z, #[trigger] ancestor_at(q, e)) by {}
    lemma_no_cut_from(z, q, z.origin.len() + 1int);
    assert forall|x: int| d < x <= q.len() - 1 implies node_index(z.nodes, #[trigger] ancestor_at(q, x)) < 0 && !has_descendant(
        z.nodes,
        ancestor_at(q, x),
    ) by {}
    lemma_encloser_at(z, q, z.origin.len() as int, q.len() - 1, d);
}

/// The answer for a name of the zone that is a node, stated from the zone's
/// contents, where no zone cut lies above the name: a node away from the
/// origin with an NS set is a delegation to that set; otherwise the node's
/// set of the asked type answers; else its CNAME set; else there is no data
/// of that type. Each set found is owned by the name.
pub proof fn lemma_node_answer(z: ZoneV, q: Seq<Seq<u8>>, t: RRType, opt: FindOption)
    requires
        is_subdomain_of(q, z.origin),
        forall|e: int| z.origin.len() < e < q.len() ==> !is_cut(z, #[trigger] ancestor_at(q, e)),
        node_index(z.nodes, q) >= 0,
    ensures
        ({
            let rds = z.nodes[node_index(z.nodes, q)].1;
            let r = find_spec(z, q, t, opt);
            let ni = type_index(rds, RRType::NS);
            let ti = type_index(rds, t);
            let ci = type_index(rds, RRType::CNAME);
            &&& q != z.origin && ni >= 0 ==> r.typ == FindResultType::Delegation && r.rrset == Some(
                RRsetV { name: q, typ: RRType::NS, class: CLASS_IN, ttl: rds[ni].ttl, rdatas: rds[ni].rdatas },
            )
            &&& !(q != z.origin && ni >= 0) && ti >= 0 ==> r.typ == FindResultType::Success && r.rrset == Some(
                RRsetV { name: q, typ: t, class: CLASS_IN, ttl: rds[ti].ttl, rdatas: rds[ti].rdatas },
            )
            &&& !(q != z.origin && ni >= 0) && ti < 0 && ci >= 0 ==> r.typ == FindResultType::CName && r.rrset == Some(
                RRsetV { name: q, typ: RRType::CNAME, class: CLASS_IN, ttl: rds[ci].ttl, rdatas: rds[ci].rdatas },
            )
            &&& !(q != z.origin && ni >= 0) && ti < 0 && ci < 0 ==> r.typ == FindResultType::NXRRset && r.rrset is None
        }),
{
    assert forall|e: int| z.origin.len() + 1 <= e < q.len() implies !is_cut(z, #[trigger] ancestor_at(q, e)) by {}
    lemma_no_cut_from(z, q, z.origin.len() + 1int);
}

/// A name outside the zone does not exist in it; a name inside, following
/// zone cuts, below the highest zone cut above it is answered with a
/// delegation to that cut's NS set, owned by the cut.
pub proof fn lemma_outside_and_below_cut(z: ZoneV, q: Seq<Seq<u8>>, t: RRType, d: int)
    requires
        z.origin.len() < d < q.len() ==> is_cut(z, ancestor_at(q, d)) && forall|e: int|
            z.origin.len() < e < d ==> !is_cut(z, #[trigger] ancestor_at(q, e)),
    ensures
        !is_subdomain_of(q, z.origin) ==> find_spec(z, q, t, FindOption::FollowZoneCut).typ == FindResultType::NXDomain
            && find_spec(z, q, t, FindOption::FollowZoneCut).rrset is None,
        is_subdomain_of(q, z.origin) && z.origin.len() < d < q.len() ==> ({
            let c = ancestor_at(q, d);
            let rds = z.nodes[node_index(z.nodes, c)].1;
            let ni = type_index(rds, RRType::NS);
            let r = find_spec(z, q, t, FindOption::FollowZoneCut);
            r.typ == FindResultType::Delegation && r.rrset == Some(
                RRsetV { name: c, typ: RRType::NS, class: CLASS_IN, ttl: rds[ni].ttl, rdatas: rds[ni].rdatas },
            )
        }),
{
    if is_subdomain_of(q, z.origin) && z.origin.len() < d < q.len() {
        lemma_first_cut_at(z, q, z.origin.len() + 1int, d);
    }
}

/// The search for a zone cut from `lo` labels on finds the one with `d`
/// labels where none between is a cut.
proof fn lemma_first_cut_at(z: ZoneV, q: Seq<Seq<u8>>, lo: int, d: int)
    requires
        0 <= lo <= d < q.len(),
        is_cut(z, ancestor_at(q, d)),
        forall|e: int| lo <= e < d ==> !is_cut(z, #[trigger] ancestor_at(q, e)),
    ensures
        first_cut_from(z, q, lo) == Some(d),
    decreases d - lo,
{
    if lo < d {
        assert(!is_cut(z, ancestor_at(q, lo)));
        lemma_first_cut_at(z, q, lo + 1, d);
    }
}

} // verus!
