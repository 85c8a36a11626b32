//! The zones an authoritative server serves, and its answers to queries.
use crate::auth::error::AuthError;
use crate::cache::rrset_cache::opt_seq;
use crate::datasrc::memory_zone::{additional_of, find_spec, has_descendant, is_cut, lemma_no_cut_from, node_index, rrset_at, zone_wf, FindV, MemoryZone, ZoneV};
use crate::datasrc::rdataset::type_index;
use crate::name::ancestor_at;
use crate::datasrc::zone::{FindOption, FindResultType};
use crate::datasrc::zone_loader::{load_refusal, load_zone, loaded};
use crate::message::{Header, HeaderFlag, HeaderFlags, Message, MessageV, Rcode};
use crate::name::{is_subdomain_of, Name};
use crate::rr::{opt_rrset_view, rrsets_view, RRType, RRset, RRsetV};
use vstd::prelude::*;

verus! {

/// The views of zones.
pub open spec fn zones_view(v: Seq<MemoryZone>) -> Seq<ZoneV> {
    v.map_values(|z: MemoryZone| z@)
}

/// Whether the zone at `i` of `zs` is the deepest whose origin is `name` or
/// an ancestor of it.
pub open spec fn is_best_zone(zs: Seq<ZoneV>, name: Seq<Seq<u8>>, i: int) -> bool {
    &&& 0 <= i < zs.len()
    &&& is_subdomain_of(name, zs[i].origin)
    &&& forall|j: int| 0 <= j < zs.len() && is_subdomain_of(name, #[trigger] zs[j].origin) ==> zs[j].origin.len() <= zs[i].origin.len()
}

/// Whether some zone of `zs` has `name` at or below its origin.
pub open spec fn has_zone_for(zs: Seq<ZoneV>, name: Seq<Seq<u8>>) -> bool {
    exists|j: int| 0 <= j < zs.len() && is_subdomain_of(name, #[trigger] zs[j].origin)
}

/// The position of the zone of origin `name`, or -1.
pub open spec fn exact_pos(zs: Seq<ZoneV>, name: Seq<Seq<u8>>) -> int {
    crate::seqs::first_index(zs.map_values(|z: ZoneV| z.origin), name)
}

/// The NS record set at the origin of `z`.
pub open spec fn apex_ns(z: ZoneV) -> Option<RRsetV> {
    let i = node_index(z.nodes, z.origin);
    if i >= 0 {
        rrset_at(z.origin, z.nodes[i].1, RRType::NS)
    } else {
        None
    }
}

/// The SOA record set at the origin of `z`.
pub open spec fn apex_soa(z: ZoneV) -> Option<RRsetV> {
    let i = node_index(z.nodes, z.origin);
    if i >= 0 {
        rrset_at(z.origin, z.nodes[i].1, RRType::SOA)
    } else {
        None
    }
}

/// The response zone `z` makes of query `m` of type `t` from what its lookup
/// `f` found: an authoritative response with the answer and, for a found
/// set, the zone's NS set and its glue unless NS was asked; a referral, not
/// authoritative, to a delegation's servers; the SOA set for a name or type
/// that does not exist. Additional data goes before the answer's.
pub open spec fn auth_response(m: MessageV, z: ZoneV, f: FindV, t: RRType) -> MessageV {
    let h = Header { flags: HeaderFlags { qr: true, aa: true, ..m.header.flags }, ..m.header };
    let m1 = MessageV { header: h, ..m };
    match f.typ {
        FindResultType::CName => MessageV { answer: m1.answer + opt_seq(f.rrset), ..m1 },
        FindResultType::Success => {
            let base = MessageV {
                additional: m1.additional + additional_of(z, f.rrset),
                answer: m1.answer + opt_seq(f.rrset),
                ..m1
            };
            if t != RRType::NS {
                MessageV {
                    authority: base.authority + opt_seq(apex_ns(z)),
                    additional: base.additional + additional_of(z, apex_ns(z)),
                    ..base
                }
            } else {
                base
            }
        },
        FindResultType::Delegation => MessageV {
            header: Header { flags: HeaderFlags { aa: false, ..h.flags }, ..h },
            additional: m1.additional + additional_of(z, f.rrset),
            authority: m1.authority + opt_seq(f.rrset),
            ..m1
        },
        FindResultType::NXDomain => MessageV {
            header: Header { rcode: Rcode::NXDomain, ..h },
            authority: m1.authority + opt_seq(apex_soa(z)),
            ..m1
        },
        FindResultType::NXRRset => MessageV {
            header: Header { rcode: Rcode::NXRRset, ..h },
            authority: m1.authority + opt_seq(apex_soa(z)),
            ..m1
        },
        FindResultType::ServerFailed => m1,
    }
}

/// The zones served.
pub struct AuthZone {
    zones: Vec<MemoryZone>,
}

impl View for AuthZone {
    type V = Seq<ZoneV>;

    closed spec fn view(&self) -> Seq<ZoneV> {
        zones_view(self.zones@)
    }
}

/// Every zone is well formed and no two have the same origin.
pub open spec fn zones_wf(zs: Seq<ZoneV>) -> bool {
    &&& forall|i: int| 0 <= i < zs.len() ==> zone_wf(#[trigger] zs[i])
    &&& forall|i: int, j: int| 0 <= i < j < zs.len() ==> (#[trigger] zs[i]).origin != (#[trigger] zs[j]).origin
}

/// Appends the sets of `src` to `dst`.
fn append_sets(dst: &mut Message, src: Vec<RRset>, section: crate::message::SectionType)
    ensures
        final(dst)@ == (match section {
            crate::message::SectionType::Answer => MessageV { answer: old(dst)@.answer + rrsets_view(src@), ..old(dst)@ },
            crate::message::SectionType::Authority => MessageV {
                authority: old(dst)@.authority + rrsets_view(src@),
                ..old(dst)@
            },
            crate::message::SectionType::Additional => MessageV {
                additional: old(dst)@.additional + rrsets_view(src@),
                ..old(dst)@
            },
        }),
{
    let ghost sv = rrsets_view(src@);
    let ghost m0 = dst@;
    let mut i: usize = 0;
    while i < src.len()
        invariant
            i <= src.len(),
            sv == rrsets_view(src@),
            dst@ == (match section {
                crate::message::SectionType::Answer => MessageV { answer: m0.answer + sv.subrange(0, i as int), ..m0 },
                crate::message::SectionType::Authority => MessageV { authority: m0.authority + sv.subrange(0, i as int), ..m0 },
                crate::message::SectionType::Additional => MessageV {
                    additional: m0.additional + sv.subrange(0, i as int),
                    ..m0
                },
            }),
        decreases src.len() - i,
    {
        let set = src[i].copy();
        match section {
            crate::message::SectionType::Answer => dst.add_answer(set),
            crate::message::SectionType::Authority => dst.add_auth(set),
            crate::message::SectionType::Additional => dst.add_additional(set),
        }
        proof {
            assert(sv.subrange(0, i + 1) =~= sv.subrange(0, i as int).push(set@));
            assert(m0.answer + sv.subrange(0, i + 1) =~= (m0.answer + sv.subrange(0, i as int)).push(set@));
            assert(m0.authority + sv.subrange(0, i + 1) =~= (m0.authority + sv.subrange(0, i as int)).push(set@));
            assert(m0.additional + sv.subrange(0, i + 1) =~= (m0.additional + sv.subrange(0, i as int)).push(set@));
        }
        i = i + 1;
    }
    proof {
        assert(sv.subrange(0, src.len() as int) =~= sv);
    }
}

/// Appends an optional set to a section.
fn append_opt(dst: &mut Message, src: Option<RRset>, section: crate::message::SectionType)
    ensures
        final(dst)@ == (match section {
            crate::message::SectionType::Answer => MessageV { answer: old(dst)@.answer + opt_seq(opt_rrset_view(src)), ..old(dst)@ },
            crate::message::SectionType::Authority => MessageV {
                authority: old(dst)@.authority + opt_seq(opt_rrset_view(src)),
                ..old(dst)@
            },
            crate::message::SectionType::Additional => MessageV {
                additional: old(dst)@.additional + opt_seq(opt_rrset_view(src)),
                ..old(dst)@
            },
        }),
{
    match src {
        Some(set) => {
            let ghost m0 = dst@;
            let ghost v = set@;
            match section {
                crate::message::SectionType::Answer => dst.add_answer(set),
                crate::message::SectionType::Authority => dst.add_auth(set),
                crate::message::SectionType::Additional => dst.add_additional(set),
            }
            proof {
                assert(m0.answer.push(v) =~= m0.answer + seq![v]);
                assert(m0.authority.push(v) =~= m0.authority + seq![v]);
                assert(m0.additional.push(v) =~= m0.additional + seq![v]);
            }
        },
        None => {
            proof {
                assert(dst@.answer + Seq::<RRsetV>::empty() =~= dst@.answer);
                assert(dst@.authority + Seq::<RRsetV>::empty() =~= dst@.authority);
                assert(dst@.additional + Seq::<RRsetV>::empty() =~= dst@.additional);
            }
        },
    }
}

impl AuthZone {
    /// No zone is served.
    pub fn new() -> (r: AuthZone)
        ensures
            r@ == Seq::<ZoneV>::empty(),
            zones_wf(r@),
    {
        let r = AuthZone { zones: Vec::new() };
        proof {
            assert(r@ =~= Seq::<ZoneV>::empty());
        }
        r
    }

    /// The position of the zone of origin `name`, if one is served.
    pub fn get_exact_zone(&self, name: &Name) -> (r: Option<usize>)
        ensures
            exact_pos(self@, name@) < 0 ==> r is None,
            exact_pos(self@, name@) >= 0 ==> r is Some && r->0 as int == exact_pos(self@, name@),
            r matches Some(i) ==> i < self@.len(),
    {
        let ghost origins = self@.map_values(|z: ZoneV| z.origin);
        let mut i: usize = 0;
        while i < self.zones.len()
            invariant
                i <= self.zones.len(),
                origins == self@.map_values(|z: ZoneV| z.origin),
                origins.len() == self.zones.len(),
                forall|j: int| 0 <= j < i ==> origins[j] != name@,
            decreases self.zones.len() - i,
        {
            proof {
                assert(origins[i as int] == self.zones@[i as int]@.origin);
            }
            if self.zones[i].get_origin().eq_name(name) {
                proof {
                    crate::seqs::lemma_first_index_is(origins, name@, i as int);
                }
                return Some(i);
            }
            i = i + 1;
        }
        proof {
            crate::seqs::lemma_first_index_is(origins, name@, -1);
        }
        None
    }

    /// Takes the zone at `i` out of the table, to change it and put it back
    /// with `restore_zone`.
    pub fn take_zone(&mut self, i: usize) -> (r: MemoryZone)
        requires
            zones_wf(old(self)@),
            i < old(self)@.len(),
        ensures
            r@ == old(self)@[i as int],
            zone_wf(r@),
            final(self)@ == old(self)@.remove(i as int),
    {
        let ghost zs = self@;
        let z = self.zones.remove(i);
        proof {
            assert(self@ =~= zs.remove(i as int));
        }
        z
    }

    /// Puts back at `i` a zone taken out of the table `zs` with `take_zone`,
    /// its origin unchanged.
    pub fn restore_zone(&mut self, i: usize, zone: MemoryZone, Ghost(zs): Ghost<Seq<ZoneV>>)
        requires
            zones_wf(zs),
            i < zs.len(),
            old(self)@ == zs.remove(i as int),
            zone_wf(zone@),
            zone@.origin == zs[i as int].origin,
        ensures
            zones_wf(final(self)@),
            final(self)@ == zs.update(i as int, zone@),
    {
        let ghost before = self.zones@;
        proof {
            assert(self@.len() == self.zones@.len());
        }
        self.zones.insert(i, zone);
        proof {
            assert(self@ =~= zones_view(before).insert(i as int, zone@));
            assert(self@ =~= zs.update(i as int, zone@));
            assert forall|a: int, b: int| 0 <= a < b < self@.len() implies (#[trigger] self@[a]).origin != (#[trigger] self@[b]).origin by {
                assert(self@[a].origin == zs[a].origin);
                assert(self@[b].origin == zs[b].origin);
            }
        }
    }

    /// The deepest zone whose origin is `name` or an ancestor of it, if any.
    pub fn get_zone(&self, name: &Name) -> (r: Option<&MemoryZone>)
        ensures
            r is None <==> !has_zone_for(self@, name@),
            r matches Some(z) ==> exists|i: int| is_best_zone(self@, name@, i) && z@ == self@[i],
    {
        let ghost zs = self@;
        let mut best: Option<usize> = None;
        let mut i: usize = 0;
        while i < self.zones.len()
            invariant
                i <= self.zones.len(),
                zs == self@,
                zs.len() == self.zones.len(),
                best is None ==> forall|j: int| 0 <= j < i ==> !is_subdomain_of(name@, #[trigger] zs[j].origin),
                best matches Some(b) ==> b < i && is_subdomain_of(name@, zs[b as int].origin) && forall|j: int|
                    0 <= j < i && is_subdomain_of(name@, #[trigger] zs[j].origin) ==> zs[j].origin.len() <= zs[b as int].origin.len(),
            decreases self.zones.len() - i,
        {
            proof {
                assert(zs[i as int] == self.zones@[i as int]@);
            }
            let z = &self.zones[i];
            if name.is_subdomain(z.get_origin()) {
                match best {
                    None => {
                        best = Some(i);
                    },
                    Some(b) => {
                        if z.get_origin().label_count() > self.zones[b].get_origin().label_count() {
                            best = Some(i);
                        }
                    },
                }
            }
            i = i + 1;
        }
        match best {
            None => {
                proof {
                    if has_zone_for(zs, name@) {
                        let j = choose|j: int| 0 <= j < zs.len() && is_subdomain_of(name@, #[trigger] zs[j].origin);
                        assert(!is_subdomain_of(name@, zs[j].origin));
                    }
                }
                None
            },
            Some(b) => {
                proof {
                    assert(is_best_zone(zs, name@, b as int));
                    assert(zs[b as int] == self.zones@[b as int]@);
                }
                Some(&self.zones[b])
            },
        }
    }

    /// Serves a zone of origin `name` holding `rrsets`: refused where a
    /// zone of that origin is already served, or where the zone's data is
    /// refused, with the error `load_zone` gives, as `load_zone` says.
    pub fn add_zone(&mut self, name: Name, rrsets: Vec<RRset>) -> (r: Result<(), AuthError>)
        requires
            zones_wf(old(self)@),
        ensures
            zones_wf(final(self)@),
            exact_pos(old(self)@, name@) >= 0 ==> (r matches Err(AuthError::DuplicateZone(n)) && n@ == name@) && final(self)@ == old(self)@,
            exact_pos(old(self)@, name@) < 0 && loaded(name@, rrsets_view(rrsets@)) is None ==> (r matches Err(AuthError::InvalidZone(e))
                && load_refusal(name@, rrsets_view(rrsets@), e)) && final(self)@ == old(self)@,
            exact_pos(old(self)@, name@) < 0 && loaded(name@, rrsets_view(rrsets@)) is Some ==> r is Ok && final(self)@ == old(self)@.push(loaded(name@, rrsets_view(rrsets@))->0),
    {
        if self.get_exact_zone(&name).is_some() {
            return Err(AuthError::DuplicateZone(name));
        }
        let ghost origins = self@.map_values(|z: ZoneV| z.origin);
        proof {
            crate::seqs::lemma_first_index(origins, name@);
        }
        match load_zone(name, rrsets) {
            Err(e) => Err(AuthError::InvalidZone(e)),
            Ok(zone) => {
                let ghost zs = self@;
                self.zones.push(zone);
                proof {
                    assert(self@ =~= zs.push(zone@));
                    assert forall|i: int, j: int| 0 <= i < j < self@.len() implies (#[trigger] self@[i]).origin != (#[trigger] self@[j]).origin by {
                        if j == zs.len() {
                            assert(origins[i] == zs[i].origin);
                        }
                    }
                }
                Ok(())
            },
        }
    }

    /// Stops serving the zone of origin `name`; refused where none is
    /// served.
    pub fn delete_zone(&mut self, name: &Name) -> (r: Result<(), AuthError>)
        requires
            zones_wf(old(self)@),
        ensures
            zones_wf(final(self)@),
            exact_pos(old(self)@, name@) < 0 ==> (r matches Err(AuthError::UnknownZone(n)) && n@ == name@) && final(self)@ == old(self)@,
            exact_pos(old(self)@, name@) >= 0 ==> r is Ok && final(self)@ == old(self)@.remove(exact_pos(old(self)@, name@)),
    {
        match self.get_exact_zone(name) {
            None => Err(AuthError::UnknownZone(name.copy())),
            Some(i) => {
                let ghost zs = self@;
                let n = self.zones.len();
                proof {
                    crate::seqs::lemma_first_index(zs.map_values(|z: ZoneV| z.origin), name@);
                    assert(zs.len() == self.zones@.len());
                    assert(i as int == exact_pos(zs, name@));
                }
                self.zones.remove(i);
                proof {
                    assert(self@ =~= zs.remove(i as int));
                    assert forall|a: int, b: int| 0 <= a < b < self@.len() implies (#[trigger] self@[a]).origin != (#[trigger] self@[b]).origin by {
                        let a2 = if a < i { a } else { a + 1 };
                        let b2 = if b < i { b } else { b + 1 };
                        assert(self@[a] == zs[a2]);
                        assert(self@[b] == zs[b2]);
                    }
                }
                Ok(())
            },
        }
    }

    /// Answers query `req` from the deepest zone that holds its name, as
    /// `auth_response` says, and gives `true`; gives `false`, leaving the
    /// query as it is, where no zone holds the name.
    pub fn handle_query(&self, req: &mut Message) -> (r: bool)
        requires
            zones_wf(self@),
            old(req)@.question is Some,
        ensures
            ({
                let q = old(req)@.question.unwrap();
                if !has_zone_for(self@, q.0) {
                    !r && final(req)@ == old(req)@
                } else {
                    r && exists|i: int|
                        is_best_zone(self@, q.0, i) && final(req)@ == #[trigger] auth_response(
                            old(req)@,
                            self@[i],
                            find_spec(self@[i], q.0, q.1, FindOption::FollowZoneCut),
                            q.1,
                        )
                }
            }),
    {
        let (qname, qtype) = match &req.question {
            Some(q) => (q.name.copy(), q.typ),
            None => {
                proof {
                    assert(false);
                }
                (Name::root(), RRType::A)
            },
        };
        let zone = match self.get_zone(&qname) {
            None => {
                return false;
            },
            Some(z) => z,
        };
        let ghost zi = choose|i: int| is_best_zone(self@, qname@, i) && zone@ == self@[i];
        proof {
            assert(zone_wf(self@[zi]));
        }
        let result = zone.find(&qname, qtype, FindOption::FollowZoneCut);
        let ghost z = zone@;
        let ghost f = result@;
        let ghost m0 = req@;
        req.make_response();
        req.set_flag(HeaderFlag::AuthAnswer);
        let MemoryZoneFindResultParts { typ, rrset } = split_result(result);
        match typ {
            FindResultType::CName => {
                append_opt(req, rrset, crate::message::SectionType::Answer);
            },
            FindResultType::Success => {
                let additional = zone.get_additional(&rrset);
                append_sets(req, additional, crate::message::SectionType::Additional);
                append_opt(req, rrset, crate::message::SectionType::Answer);
                let is_ns = match qtype {
                    RRType::NS => true,
                    _ => false,
                };
                if !is_ns {
                    let (auth, glue) = zone.get_apex_ns_and_glue();
                    append_opt(req, auth, crate::message::SectionType::Authority);
                    append_sets(req, glue, crate::message::SectionType::Additional);
                    proof {
                        assert(req@.additional =~= m0.additional + additional_of(z, f.rrset) + additional_of(z, apex_ns(z)));
                    }
                }
            },
            FindResultType::Delegation => {
                let additional = zone.get_additional(&rrset);
                append_sets(req, additional, crate::message::SectionType::Additional);
                req.clear_flag(HeaderFlag::AuthAnswer);
                append_opt(req, rrset, crate::message::SectionType::Authority);
            },
            FindResultType::NXDomain => {
                req.set_rcode(Rcode::NXDomain);
                append_opt(req, zone.get_apex_soa(), crate::message::SectionType::Authority);
            },
            FindResultType::NXRRset => {
                req.set_rcode(Rcode::NXRRset);
                append_opt(req, zone.get_apex_soa(), crate::message::SectionType::Authority);
            },
            FindResultType::ServerFailed => {},
        }
        proof {
            assert(req@ == auth_response(m0, z, f, qtype));
            assert(is_best_zone(self@, qname@, zi));
            let q = old(req)@.question.unwrap();
            assert(qname@ == q.0 && qtype == q.1);
            assert(m0 == old(req)@);
            assert(is_best_zone(self@, q.0, zi) && req@ == auth_response(
                old(req)@,
                self@[zi],
                find_spec(self@[zi], q.0, q.1, FindOption::FollowZoneCut),
                q.1,
            ));
        }
        true
    }
}

/// The parts of a lookup's result that an answer uses.
struct MemoryZoneFindResultParts {
    typ: FindResultType,
    rrset: Option<RRset>,
}

/// Takes a lookup's result apart.
fn split_result(r: crate::datasrc::memory_zone::MemoryZoneFindResult) -> (p: MemoryZoneFindResultParts)
    ensures
        p.typ == r@.typ,
        opt_rrset_view(p.rrset) == r@.rrset,
{
    MemoryZoneFindResultParts { typ: r.typ, rrset: r.rrset }
}

/// What an answer's response code says of the name asked, stated from the
/// zone's contents: a name that exists in the zone, as a node or with nodes
/// below it, is never answered "no such name" (unless the query already
/// carried that code); and a name that exists with no zone cut above or at
/// it, holding neither the asked type nor a CNAME, is answered "no data of
/// that type", authoritatively, with the zone's SOA set as authority.
pub proof fn lemma_auth_rcode(m: MessageV, z: ZoneV, q: Seq<Seq<u8>>, t: RRType)
    requires
        is_subdomain_of(q, z.origin),
    ensures
        ({
            let r = auth_response(m, z, find_spec(z, q, t, FindOption::FollowZoneCut), t);
            &&& (node_index(z.nodes, q) >= 0 || has_descendant(z.nodes, q)) && r.header.rcode == Rcode::NXDomain
                ==> m.header.rcode == Rcode::NXDomain
            &&& (node_index(z.nodes, q) >= 0 || has_descendant(z.nodes, q))
                && (forall|e: int| z.origin.len() < e < q.len() ==> !is_cut(z, #[trigger] ancestor_at(q, e)))
                && (node_index(z.nodes, q) >= 0 ==> {
                    let rds = z.nodes[node_index(z.nodes, q)].1;
                    &&& q == z.origin || type_index(rds, RRType::NS) < 0
                    &&& type_index(rds, t) < 0
                    &&& type_index(rds, RRType::CNAME) < 0
                }) ==> {
                &&& r.header.rcode == Rcode::NXRRset
                &&& r.header.flags.aa
                &&& r.header.flags.qr
                &&& r.answer == m.answer
                &&& r.authority == m.authority + opt_seq(apex_soa(z))
            }
        }),
{
    let f = find_spec(z, q, t, FindOption::FollowZoneCut);
    if forall|e: int| z.origin.len() < e < q.len() ==> !is_cut(z, #[trigger] ancestor_at(q, e)) {
        assert forall|e: int| z.origin.len() + 1 <= e < q.len() implies !is_cut(z, #[trigger] ancestor_at(q, e)) by {}
        lemma_no_cut_from(z, q, z.origin.len() + 1int);
    }
}

/// A name of the zone that does not exist, with no zone cut above it and no
/// wildcard child `*` of its closest encloser (the deepest ancestor, from
/// the origin down, that is a node or has nodes below it), is answered
/// authoritatively "no such name", with the zone's SOA set as authority.
pub proof fn lemma_auth_no_such_name(m: MessageV, z: ZoneV, q: Seq<Seq<u8>>, t: RRType, d: int)
    requires
        is_subdomain_of(q, z.origin),
        forall|e: int| z.origin.len() < e < q.len() ==> !is_cut(z, #[trigger] ancestor_at(q, e)),
        node_index(z.nodes, q) < 0,
        !has_descendant(z.nodes, q),
        z.origin.len() <= d < q.len(),
        node_index(z.nodes, ancestor_at(q, d)) >= 0 || has_descendant(z.nodes, ancestor_at(q, d)),
        forall|e: int|
            d < e < q.len() ==> node_index(z.nodes, #[trigger] ancestor_at(q, e)) < 0 && !has_descendant(z.nodes, ancestor_at(q, e)),
        node_index(z.nodes, crate::name::wildcard_of(ancestor_at(q, d))) < 0,
    ensures
        ({
            let r = auth_response(m, z, find_spec(z, q, t, FindOption::FollowZoneCut), t);
            &&& r.header.rcode == Rcode::NXDomain
            &&& r.header.flags.aa
            &&& r.answer == m.answer
            &&& r.authority == m.authority + opt_seq(apex_soa(z))
        }),
{
    crate::datasrc::memory_zone::lemma_wildcard_answer(z, q, t, FindOption::FollowZoneCut, d);
}

} // verus!
