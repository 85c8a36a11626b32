//! A cached response: the question it answers, how many sets each section
//! held, and references to those sets, which live in record-set caches.
use crate::cache::message_util::{is_negative_response, get_rrset_trust_level, negative_response, section_trust};
use crate::cache::rrset_cache::{add_entries, lookup, RRsetLruCache};
use crate::cache::rrset_entry::{expire_at, expire_time_at, expired, RRsetEntryV};
use crate::cache::trust_level::RRsetTrustLevel;
use crate::clock::now_nanos;
use crate::lru_store::key_of;
use crate::message::{Header, HeaderFlag, HeaderFlags, Message, MessageV, SectionType};
use crate::name::Name;
use crate::rr::{rrsets_view, RRType, RRset, RRsetV};
use vstd::prelude::*;

verus! {

/// A reference to a cached record set: its name and type, and whether it
/// lives in the cache of negative answers.
pub struct RRsetRef {
    pub name: Name,
    pub typ: RRType,
    pub is_negative: bool,
}

/// The abstract value of a reference.
pub struct RefV {
    pub name: Seq<Seq<u8>>,
    pub typ: RRType,
    pub is_negative: bool,
}

impl View for RRsetRef {
    type V = RefV;

    open spec fn view(&self) -> RefV {
        RefV { name: self.name@, typ: self.typ, is_negative: self.is_negative }
    }
}

/// The views of references.
pub open spec fn refs_view(v: Seq<RRsetRef>) -> Seq<RefV> {
    v.map_values(|r: RRsetRef| r@)
}

/// The references to `sets`; where `negative`, those of SOA type point to
/// the cache of negative answers.
pub open spec fn refs_of(sets: Seq<RRsetV>, negative: bool) -> Seq<RefV> {
    sets.map_values(|s: RRsetV| RefV { name: s.name, typ: s.typ, is_negative: negative && s.typ == RRType::SOA })
}

/// The entries after adding `sets`, in order, at trust level `t` at `now`.
pub open spec fn add_all(v: Seq<RRsetEntryV>, cap: nat, sets: Seq<RRsetV>, t: RRsetTrustLevel, now: u64) -> Seq<RRsetEntryV>
    decreases sets.len(),
{
    if sets.len() == 0 {
        v
    } else {
        add_entries(add_all(v, cap, sets.drop_last(), t, now), cap, sets.last(), t, now)
    }
}

/// The sets of `sets` whose type is (`soa`) or is not (`!soa`) SOA, in order.
pub open spec fn soa_split(sets: Seq<RRsetV>, soa: bool) -> Seq<RRsetV>
    decreases sets.len(),
{
    if sets.len() == 0 {
        sets
    } else if (sets.last().typ == RRType::SOA) == soa {
        soa_split(sets.drop_last(), soa).push(sets.last())
    } else {
        soa_split(sets.drop_last(), soa)
    }
}

/// The least time to live of `sets` and `start`.
pub open spec fn min_ttl(sets: Seq<RRsetV>, start: u32) -> u32
    decreases sets.len(),
{
    if sets.len() == 0 {
        start
    } else {
        let m = min_ttl(sets.drop_last(), start);
        if sets.last().ttl < m {
            sets.last().ttl
        } else {
            m
        }
    }
}

/// The abstract value of a cached response.
pub struct MessageEntryV {
    pub name: Seq<Seq<u8>>,
    pub typ: RRType,
    pub answer_count: u16,
    pub auth_count: u16,
    pub additional_count: u16,
    pub refs: Seq<RefV>,
    pub expire_time: u64,
}

/// A cached response.
pub struct MessageEntry {
    name: Name,
    typ: RRType,
    answer_rrset_count: u16,
    auth_rrset_count: u16,
    additional_rrset_count: u16,
    rrset_refs: Vec<RRsetRef>,
    expire_time: u64,
}

impl View for MessageEntry {
    type V = MessageEntryV;

    closed spec fn view(&self) -> MessageEntryV {
        MessageEntryV {
            name: self.name@,
            typ: self.typ,
            answer_count: self.answer_rrset_count,
            auth_count: self.auth_rrset_count,
            additional_count: self.additional_rrset_count,
            refs: refs_view(self.rrset_refs@),
            expire_time: self.expire_time,
        }
    }
}

/// The section counts of an entry do not exceed its references.
pub open spec fn entry_wf(e: MessageEntryV) -> bool {
    e.answer_count + e.auth_count + e.additional_count <= e.refs.len()
}

/// The entry `new_at` makes of response `m` at `now`.
pub open spec fn entry_of_message(m: MessageV, now: u64) -> MessageEntryV {
    let neg = negative_response(m);
    let q = m.question.unwrap();
    MessageEntryV {
        name: q.0,
        typ: q.1,
        answer_count: m.answer.len() as u16,
        auth_count: m.authority.len() as u16,
        additional_count: m.additional.len() as u16,
        refs: refs_of(m.answer, false) + refs_of(m.authority, neg) + refs_of(m.additional, false),
        expire_time: expire_at(now, min_ttl(m.additional, min_ttl(m.authority, min_ttl(m.answer, u32::MAX)))),
    }
}

/// The sets of the cache of positive answers after `new_at` stores the sets
/// of response `m` at `now`.
pub open spec fn positive_after(v: Seq<RRsetEntryV>, cap: nat, m: MessageV, now: u64) -> Seq<RRsetEntryV> {
    let aa = m.header.flags.aa;
    let auth = if negative_response(m) { soa_split(m.authority, false) } else { m.authority };
    add_all(
        add_all(add_all(v, cap, m.answer, section_trust(aa, SectionType::Answer), now), cap, auth, section_trust(aa, SectionType::Authority), now),
        cap,
        m.additional,
        section_trust(aa, SectionType::Additional),
        now,
    )
}

/// The sets of the cache of negative answers after `new_at` stores the
/// sets of response `m` at `now`: the SOA sets of a negative response.
pub open spec fn negative_after(v: Seq<RRsetEntryV>, cap: nat, m: MessageV, now: u64) -> Seq<RRsetEntryV> {
    if negative_response(m) {
        add_all(v, cap, soa_split(m.authority, true), section_trust(m.header.flags.aa, SectionType::Authority), now)
    } else {
        v
    }
}

/// Looks up the sets `refs` point to, in order, at `now`, each in the cache
/// its reference names, and stops at the first that is missing: the sets of
/// both caches after the lookups, and the sets found where none is missing.
pub open spec fn refs_lookup(pos: Seq<RRsetEntryV>, neg: Seq<RRsetEntryV>, refs: Seq<RefV>, now: u64) -> (Seq<RRsetEntryV>, Seq<RRsetEntryV>, Option<Seq<RRsetV>>)
    decreases refs.len(),
{
    if refs.len() == 0 {
        (pos, neg, Some(Seq::empty()))
    } else {
        let (p, n, found) = refs_lookup(pos, neg, refs.drop_last(), now);
        match found {
            None => (p, n, None),
            Some(sets) => {
                let r = refs.last();
                if r.is_negative {
                    let (n2, x) = lookup(n, key_of(r.name, r.typ), now);
                    (p, n2, match x { Some(s) => Some(sets.push(s)), None => None })
                } else {
                    let (p2, x) = lookup(p, key_of(r.name, r.typ), now);
                    (p2, n, match x { Some(s) => Some(sets.push(s)), None => None })
                }
            },
        }
    }
}

/// The response that entry `e` makes of query `q` with the sets `sets` it
/// found: recursion available, and the sets split over the three sections
/// by the counts of the entry.
pub open spec fn filled(q: MessageV, e: MessageEntryV, sets: Seq<RRsetV>) -> MessageV {
    let a = e.answer_count as int;
    let b = a + e.auth_count;
    let c = b + e.additional_count;
    MessageV {
        header: Header { flags: HeaderFlags { qr: true, ra: true, ..q.header.flags }, ..q.header },
        answer: q.answer + sets.subrange(0, a),
        authority: q.authority + sets.subrange(a, b),
        additional: q.additional + sets.subrange(b, c),
        ..q
    }
}

/// What entry `e` does at `now` to query `q` and caches of positive and
/// negative answers holding `pos` and `neg`: whether it answered, the
/// message, and the sets of the two caches after. An expired entry answers
/// nothing and looks nothing up; otherwise it looks up its sets, and answers
/// as `filled` says where none is missing.
pub open spec fn fill_outcome(e: MessageEntryV, q: MessageV, pos: Seq<RRsetEntryV>, neg: Seq<RRsetEntryV>, now: u64) -> (bool, MessageV, Seq<RRsetEntryV>, Seq<RRsetEntryV>) {
    if expired(e.expire_time, now) {
        (false, q, pos, neg)
    } else {
        let (p, n, found) = refs_lookup(pos, neg, e.refs, now);
        match found {
            None => (false, q, p, n),
            Some(sets) => (true, filled(q, e, sets), p, n),
        }
    }
}

/// Adds the sets of a section to the cache of positive answers at trust
/// level `t` at `now`, lowering `min` to the least time to live, and gives
/// the references to them.
pub fn add_rrset_in_section(
    positive_cache: &mut RRsetLruCache,
    rrsets: &Vec<RRset>,
    t: RRsetTrustLevel,
    min: &mut u32,
    now: u64,
) -> (r: Vec<RRsetRef>)
    requires
        old(positive_cache).wf(),
    ensures
        final(positive_cache).wf(),
        final(positive_cache).capacity() == old(positive_cache).capacity(),
        final(positive_cache).entries() == add_all(
            old(positive_cache).entries(),
            old(positive_cache).capacity(),
            rrsets_view(rrsets@),
            t,
            now,
        ),
        refs_view(r@) == refs_of(rrsets_view(rrsets@), false),
        *final(min) == min_ttl(rrsets_view(rrsets@), *old(min)),
{
    let ghost sv = rrsets_view(rrsets@);
    let ghost v0 = positive_cache.entries();
    let ghost cap = positive_cache.capacity();
    let ghost m0 = *min;
    let mut refs: Vec<RRsetRef> = Vec::new();
    let mut i: usize = 0;
    while i < rrsets.len()
        invariant
            i <= rrsets.len(),
            sv == rrsets_view(rrsets@),
            positive_cache.wf(),
            positive_cache.capacity() == cap,
            positive_cache.entries() == add_all(v0, cap, sv.subrange(0, i as int), t, now),
            refs@.len() == i,
            refs_view(refs@) == refs_of(sv.subrange(0, i as int), false),
            *min == min_ttl(sv.subrange(0, i as int), m0),
        decreases rrsets.len() - i,
    {
        let ghost pre = sv.subrange(0, i as int);
        proof {
            assert(sv.subrange(0, i + 1).drop_last() =~= pre);
            assert(sv.subrange(0, i + 1).last() == rrsets@[i as int]@);
        }
        let set = &rrsets[i];
        let ghost before = refs@;
        refs.push(RRsetRef { name: set.name.copy(), typ: set.typ, is_negative: false });
        proof {
            assert(sv[i as int] == rrsets@[i as int]@);
            assert(refs@ == before.push(refs@[i as int]));
        }
        if set.ttl < *min {
            *min = set.ttl;
        }
        positive_cache.add_rrset_at(set.copy(), t, now);
        proof {
            assert forall|j: int| 0 <= j <= i implies #[trigger] refs_view(refs@)[j] == refs_of(sv.subrange(0, i + 1), false)[j] by {
                if j < i {
                    assert(refs_view(refs@)[j] == refs_view(before)[j]);
                    assert(refs_of(sv.subrange(0, i + 1), false)[j] == refs_of(pre, false)[j]);
                }
            }
            assert(refs_view(refs@) =~= refs_of(sv.subrange(0, i + 1), false));
        }
        i = i + 1;
    }
    proof {
        assert(sv.subrange(0, rrsets.len() as int) =~= sv);
    }
    refs
}

/// Adds the authority sets of a negative response at trust level `t` at
/// `now`: SOA sets to the cache of negative answers, the others to that of
/// positive answers; lowers `min` to the least time to live, and gives the
/// references to them.
pub fn add_rrset_in_negative_response_auth_section(
    positive_cache: &mut RRsetLruCache,
    negative_cache: &mut RRsetLruCache,
    rrsets: &Vec<RRset>,
    t: RRsetTrustLevel,
    min: &mut u32,
    now: u64,
) -> (r: Vec<RRsetRef>)
    requires
        old(positive_cache).wf(),
        old(negative_cache).wf(),
    ensures
        final(positive_cache).wf(),
        final(negative_cache).wf(),
        final(positive_cache).capacity() == old(positive_cache).capacity(),
        final(negative_cache).capacity() == old(negative_cache).capacity(),
        final(positive_cache).entries() == add_all(
            old(positive_cache).entries(),
            old(positive_cache).capacity(),
            soa_split(rrsets_view(rrsets@), false),
            t,
            now,
        ),
        final(negative_cache).entries() == add_all(
            old(negative_cache).entries(),
            old(negative_cache).capacity(),
            soa_split(rrsets_view(rrsets@), true),
            t,
            now,
        ),
        refs_view(r@) == refs_of(rrsets_view(rrsets@), true),
        *final(min) == min_ttl(rrsets_view(rrsets@), *old(min)),
{
    let ghost sv = rrsets_view(rrsets@);
    let ghost p0 = positive_cache.entries();
    let ghost n0 = negative_cache.entries();
    let ghost pcap = positive_cache.capacity();
    let ghost ncap = negative_cache.capacity();
    let ghost m0 = *min;
    let mut refs: Vec<RRsetRef> = Vec::new();
    let mut i: usize = 0;
    while i < rrsets.len()
        invariant
            i <= rrsets.len(),
            sv == rrsets_view(rrsets@),
            positive_cache.wf(),
            negative_cache.wf(),
            positive_cache.capacity() == pcap,
            negative_cache.capacity() == ncap,
            positive_cache.entries() == add_all(p0, pcap, soa_split(sv.subrange(0, i as int), false), t, now),
            negative_cache.entries() == add_all(n0, ncap, soa_split(sv.subrange(0, i as int), true), t, now),
            refs@.len() == i,
            refs_view(refs@) == refs_of(sv.subrange(0, i as int), true),
            *min == min_ttl(sv.subrange(0, i as int), m0),
        decreases rrsets.len() - i,
    {
        let ghost pre = sv.subrange(0, i as int);
        proof {
            assert(sv.subrange(0, i + 1).drop_last() =~= pre);
            assert(sv.subrange(0, i + 1).last() == rrsets@[i as int]@);
        }
        let set = &rrsets[i];
        let is_soa = match set.typ {
            RRType::SOA => true,
            _ => false,
        };
        let ghost before = refs@;
        refs.push(RRsetRef { name: set.name.copy(), typ: set.typ, is_negative: is_soa });
        proof {
            assert(sv[i as int] == rrsets@[i as int]@);
            assert(refs@ == before.push(refs@[i as int]));
            assert(is_soa == (sv[i as int].typ == RRType::SOA));
            let nxt = sv.subrange(0, i + 1);
            if is_soa {
                assert(soa_split(nxt, true) == soa_split(pre, true).push(sv[i as int]));
                assert(soa_split(nxt, true).drop_last() =~= soa_split(pre, true));
                assert(soa_split(nxt, false) == soa_split(pre, false));
            } else {
                assert(soa_split(nxt, false) == soa_split(pre, false).push(sv[i as int]));
                assert(soa_split(nxt, false).drop_last() =~= soa_split(pre, false));
                assert(soa_split(nxt, true) == soa_split(pre, true));
            }
        }
        if set.ttl < *min {
            *min = set.ttl;
        }
        if is_soa {
            negative_cache.add_rrset_at(set.copy(), t, now);
        } else {
            positive_cache.add_rrset_at(set.copy(), t, now);
        }
        proof {
            assert forall|j: int| 0 <= j <= i implies #[trigger] refs_view(refs@)[j] == refs_of(sv.subrange(0, i + 1), true)[j] by {
                if j < i {
                    assert(refs_view(refs@)[j] == refs_view(before)[j]);
                    assert(refs_of(sv.subrange(0, i + 1), true)[j] == refs_of(pre, true)[j]);
                }
            }
            assert(refs_view(refs@) =~= refs_of(sv.subrange(0, i + 1), true));
        }
        i = i + 1;
    }
    proof {
        assert(sv.subrange(0, rrsets.len() as int) =~= sv);
    }
    refs
}

impl MessageEntry {
    /// The section counts do not exceed the references.
    pub open spec fn wf(&self) -> bool {
        entry_wf(self@)
    }

    /// The entry of response `message`, made at `now`. Its sets go to the
    /// caches: those of a negative response's authority section of SOA type
    /// to `negative_cache`, all others to `positive_cache`, each at the trust
    /// level of its section. The entry expires when the set with the least
    /// time to live does.
    pub fn new_at(
        message: Message,
        positive_cache: &mut RRsetLruCache,
        negative_cache: &mut RRsetLruCache,
        now: u64,
    ) -> (r: MessageEntry)
        requires
            message@.question is Some,
            old(positive_cache).wf(),
            old(negative_cache).wf(),
        ensures
            r.wf(),
            r@ == entry_of_message(message@, now),
            final(positive_cache).wf(),
            final(negative_cache).wf(),
            final(positive_cache).capacity() == old(positive_cache).capacity(),
            final(negative_cache).capacity() == old(negative_cache).capacity(),
            final(positive_cache).entries() == positive_after(
                old(positive_cache).entries(),
                old(positive_cache).capacity(),
                message@,
                now,
            ),
            final(negative_cache).entries() == negative_after(
                old(negative_cache).entries(),
                old(negative_cache).capacity(),
                message@,
                now,
            ),
    {
        let ghost m = message@;
        let mut min: u32 = u32::MAX;
        let negative = is_negative_response(&message);
        let t_answer = get_rrset_trust_level(&message, SectionType::Answer);
        let t_auth = get_rrset_trust_level(&message, SectionType::Authority);
        let t_additional = get_rrset_trust_level(&message, SectionType::Additional);
        let mut refs = add_rrset_in_section(positive_cache, &message.answer, t_answer, &mut min, now);
        let mut auth_refs = if negative {
            add_rrset_in_negative_response_auth_section(
                positive_cache,
                negative_cache,
                &message.authority,
                t_auth,
                &mut min,
                now,
            )
        } else {
            add_rrset_in_section(positive_cache, &message.authority, t_auth, &mut min, now)
        };
        proof {
            if !negative {
                assert(refs_of(m.authority, false) =~= refs_of(m.authority, negative));
            }
        }
        let mut additional_refs = add_rrset_in_section(positive_cache, &message.additional, t_additional, &mut min, now);
        let ghost r1 = refs@;
        let ghost r2 = auth_refs@;
        let ghost r3 = additional_refs@;
        refs.append(&mut auth_refs);
        refs.append(&mut additional_refs);
        proof {
            assert(refs_view(refs@) =~= refs_view(r1) + refs_view(r2) + refs_view(r3));
        }
        let answer_count = message.answer.len() as u16;
        let auth_count = message.authority.len() as u16;
        let additional_count = message.additional.len() as u16;
        let expire_time = expire_time_at(now, min);
        let (name, typ) = match message.question {
            Some(q) => (q.name, q.typ),
            None => {
                proof {
                    assert(false);
                }
                (Name::root(), RRType::A)
            },
        };
        MessageEntry {
            name,
            typ,
            answer_rrset_count: answer_count,
            auth_rrset_count: auth_count,
            additional_rrset_count: additional_count,
            rrset_refs: refs,
            expire_time,
        }
    }

    /// The entry of response `message`, made now, as `new_at` says.
    pub fn new(
        message: Message,
        positive_cache: &mut RRsetLruCache,
        negative_cache: &mut RRsetLruCache,
    ) -> (r: MessageEntry)
        requires
            message@.question is Some,
            old(positive_cache).wf(),
            old(negative_cache).wf(),
        ensures
            r.wf(),
            final(positive_cache).wf(),
            final(negative_cache).wf(),
            final(positive_cache).capacity() == old(positive_cache).capacity(),
            final(negative_cache).capacity() == old(negative_cache).capacity(),
            exists|now: u64|
                {
                    &&& r@ == #[trigger] entry_of_message(message@, now)
                    &&& final(positive_cache).entries() == positive_after(
                        old(positive_cache).entries(),
                        old(positive_cache).capacity(),
                        message@,
                        now,
                    )
                    &&& final(negative_cache).entries() == negative_after(
                        old(negative_cache).entries(),
                        old(negative_cache).capacity(),
                        message@,
                        now,
                    )
                },
    {
        let now = now_nanos();
        MessageEntry::new_at(message, positive_cache, negative_cache, now)
    }

    /// The name of the question the entry answers.
    pub fn name(&self) -> (r: &Name)
        ensures
            r@ == self@.name,
    {
        &self.name
    }

    /// The type of the question the entry answers.
    pub fn typ(&self) -> (r: RRType)
        ensures
            r == self@.typ,
    {
        self.typ
    }

    /// How many sets the answer section held.
    pub fn answer_count(&self) -> (r: u16)
        ensures
            r == self@.answer_count,
    {
        self.answer_rrset_count
    }

    /// How many sets the authority section held.
    pub fn auth_count(&self) -> (r: u16)
        ensures
            r == self@.auth_count,
    {
        self.auth_rrset_count
    }

    /// How many sets the additional section held.
    pub fn additional_count(&self) -> (r: u16)
        ensures
            r == self@.additional_count,
    {
        self.additional_rrset_count
    }

    /// The references to the sets.
    pub fn rrset_refs(&self) -> (r: &Vec<RRsetRef>)
        ensures
            refs_view(r@) == self@.refs,
    {
        &self.rrset_refs
    }

    /// When the entry expires, in nanoseconds since the epoch.
    pub fn expire_time(&self) -> (r: u64)
        ensures
            r == self@.expire_time,
    {
        self.expire_time
    }

    /// Looks up the sets the entry refers to at `now`, as `refs_lookup` says.
    pub fn get_rrsets_at(
        &self,
        positive_cache: &mut RRsetLruCache,
        negative_cache: &mut RRsetLruCache,
        now: u64,
    ) -> (r: Option<Vec<RRset>>)
        requires
            old(positive_cache).wf(),
            old(negative_cache).wf(),
        ensures
            final(positive_cache).wf(),
            final(negative_cache).wf(),
            final(positive_cache).capacity() == old(positive_cache).capacity(),
            final(negative_cache).capacity() == old(negative_cache).capacity(),
            ({
                let (p, n, found) = refs_lookup(old(positive_cache).entries(), old(negative_cache).entries(), self@.refs, now);
                &&& final(positive_cache).entries() == p
                &&& final(negative_cache).entries() == n
                &&& match r {
                    Some(v) => found == Some(rrsets_view(v@)),
                    None => found is None,
                }
            }),
    {
        let ghost refs = self@.refs;
        let ghost p0 = positive_cache.entries();
        let ghost n0 = negative_cache.entries();
        let ghost pcap = positive_cache.capacity();
        let ghost ncap = negative_cache.capacity();
        let mut sets: Vec<RRset> = Vec::new();
        let mut i: usize = 0;
        while i < self.rrset_refs.len()
            invariant
                i <= self.rrset_refs.len(),
                refs == refs_view(self.rrset_refs@),
                pcap == old(positive_cache).capacity(),
                ncap == old(negative_cache).capacity(),
                p0 == old(positive_cache).entries(),
                n0 == old(negative_cache).entries(),
                positive_cache.wf(),
                negative_cache.wf(),
                positive_cache.capacity() == pcap,
                negative_cache.capacity() == ncap,
                ({
                    let (p, n, found) = refs_lookup(p0, n0, refs.subrange(0, i as int), now);
                    &&& positive_cache.entries() == p
                    &&& negative_cache.entries() == n
                    &&& found == Some(rrsets_view(sets@))
                }),
            decreases self.rrset_refs.len() - i,
        {
            proof {
                assert(refs.subrange(0, i + 1).drop_last() =~= refs.subrange(0, i as int));
                assert(refs.subrange(0, i + 1).last() == self.rrset_refs@[i as int]@);
            }
            let rref = &self.rrset_refs[i];
            let found = if rref.is_negative {
                negative_cache.get_rrset_at(&rref.name, rref.typ, now)
            } else {
                positive_cache.get_rrset_at(&rref.name, rref.typ, now)
            };
            match found {
                Some(set) => {
                    let ghost before = sets@;
                    sets.push(set);
                    proof {
                        assert(rrsets_view(sets@) =~= rrsets_view(before).push(set@));
                    }
                },
                None => {
                    proof {
                        lemma_refs_lookup_stops(p0, n0, refs, i + 1, refs.len() as int, now);
                        assert(refs.subrange(0, refs.len() as int) =~= refs);
                    }
                    return None;
                },
            }
            i = i + 1;
        }
        proof {
            assert(refs.subrange(0, self.rrset_refs.len() as int) =~= refs);
        }
        Some(sets)
    }

    /// Answers `query` at `now` from the sets the entry refers to. An expired
    /// entry, or one of whose sets is missing, answers nothing; otherwise the
    /// query becomes a response with recursion available and the sets in
    /// their sections, as `filled` says. Gives whether it answered.
    pub fn fill_message_at(
        &self,
        query: &mut Message,
        positive_cache: &mut RRsetLruCache,
        negative_cache: &mut RRsetLruCache,
        now: u64,
    ) -> (r: bool)
        requires
            self.wf(),
            old(positive_cache).wf(),
            old(negative_cache).wf(),
        ensures
            final(positive_cache).wf(),
            final(negative_cache).wf(),
            final(positive_cache).capacity() == old(positive_cache).capacity(),
            final(negative_cache).capacity() == old(negative_cache).capacity(),
            (r, final(query)@, final(positive_cache).entries(), final(negative_cache).entries()) == fill_outcome(
                self@,
                old(query)@,
                old(positive_cache).entries(),
                old(negative_cache).entries(),
                now,
            ),
    {
        if self.expire_time <= now {
            return false;
        }
        let found = self.get_rrsets_at(positive_cache, negative_cache, now);
        match found {
            None => false,
            Some(sets) => {
                let ghost sv = rrsets_view(sets@);
                let ghost q0 = query@;
                proof {
                    assert(sv.len() == self@.refs.len()) by {
                        self.lemma_lookup_len(old(positive_cache).entries(), old(negative_cache).entries(), now);
                    }
                }
                query.make_response();
                query.set_flag(HeaderFlag::RecursionAvailable);
                let a = self.answer_rrset_count as usize;
                let b = a + self.auth_rrset_count as usize;
                let c = b + self.additional_rrset_count as usize;
                let mut i: usize = 0;
                while i < c
                    invariant
                        i <= c,
                        a <= b <= c,
                        a == self@.answer_count,
                        b == a + self@.auth_count,
                        c == b + self@.additional_count,
                        c <= sets.len(),
                        sv == rrsets_view(sets@),
                        query@.header == (Header { flags: HeaderFlags { qr: true, ra: true, ..q0.header.flags }, ..q0.header }),
                        query@.question == q0.question,
                        query@.answer == q0.answer + sv.subrange(0, if i < a { i as int } else { a as int }),
                        query@.authority == q0.authority + sv.subrange(a as int, if i < a { a as int } else if i < b { i as int } else { b as int }),
                        query@.additional == q0.additional + sv.subrange(b as int, if i < b { b as int } else { i as int }),
                    decreases c - i,
                {
                    let set = sets[i].copy();
                    if i < a {
                        query.add_answer(set);
                        proof {
                            assert(query@.answer =~= q0.answer + sv.subrange(0, i + 1));
                        }
                    } else if i < b {
                        query.add_auth(set);
                        proof {
                            assert(query@.authority =~= q0.authority + sv.subrange(a as int, i + 1));
                        }
                    } else {
                        query.add_additional(set);
                        proof {
                            assert(query@.additional =~= q0.additional + sv.subrange(b as int, i + 1));
                        }
                    }
                    i = i + 1;
                }
                proof {
                    assert(query@ == filled(q0, self@, sv));
                }
                true
            },
        }
    }

    /// Answers `query` now, as `fill_message_at` says.
    pub fn fill_message(
        &self,
        query: &mut Message,
        positive_cache: &mut RRsetLruCache,
        negative_cache: &mut RRsetLruCache,
    ) -> (r: bool)
        requires
            self.wf(),
            old(positive_cache).wf(),
            old(negative_cache).wf(),
        ensures
            final(positive_cache).wf(),
            final(negative_cache).wf(),
            final(positive_cache).capacity() == old(positive_cache).capacity(),
            final(negative_cache).capacity() == old(negative_cache).capacity(),
            exists|now: u64|
                (r, final(query)@, final(positive_cache).entries(), final(negative_cache).entries()) == #[trigger] fill_outcome(
                    self@,
                    old(query)@,
                    old(positive_cache).entries(),
                    old(negative_cache).entries(),
                    now,
                ),
    {
        let now = now_nanos();
        self.fill_message_at(query, positive_cache, negative_cache, now)
    }

    /// The key of the entry: its question's name and type.
    pub fn key(&self) -> (r: crate::lru_store::CacheKey)
        ensures
            crate::lru_store::key_view(r) == key_of(self@.name, self@.typ),
    {
        crate::lru_store::make_key(&self.name, self.typ)
    }

    /// Where every set is found, as many are found as there are references.
    proof fn lemma_lookup_len(&self, pos: Seq<RRsetEntryV>, neg: Seq<RRsetEntryV>, now: u64)
        ensures
            ({
                let (p, n, found) = refs_lookup(pos, neg, self@.refs, now);
                found matches Some(s) ==> s.len() == self@.refs.len()
            }),
    {
        lemma_refs_lookup_len(pos, neg, self@.refs, now);
    }

    /// An independent copy of this entry.
    pub fn copy(&self) -> (r: MessageEntry)
        ensures
            r@ == self@,
    {
        let mut refs: Vec<RRsetRef> = Vec::new();
        let mut i: usize = 0;
        while i < self.rrset_refs.len()
            invariant
                i <= self.rrset_refs.len(),
                refs@.len() == i,
                refs_view(refs@) == refs_view(self.rrset_refs@).subrange(0, i as int),
            decreases self.rrset_refs.len() - i,
        {
            let x = &self.rrset_refs[i];
            let ghost before = refs@;
            refs.push(RRsetRef { name: x.name.copy(), typ: x.typ, is_negative: x.is_negative });
            proof {
                assert(refs@ == before.push(refs@[i as int]));
            }
            proof {
                assert(refs_view(refs@) =~= refs_view(self.rrset_refs@).subrange(0, i + 1));
            }
            i = i + 1;
        }
        proof {
            assert(refs_view(self.rrset_refs@).subrange(0, self.rrset_refs.len() as int) =~= refs_view(self.rrset_refs@));
        }
        MessageEntry {
            name: self.name.copy(),
            typ: self.typ,
            answer_rrset_count: self.answer_rrset_count,
            auth_rrset_count: self.auth_rrset_count,
            additional_rrset_count: self.additional_rrset_count,
            rrset_refs: refs,
            expire_time: self.expire_time,
        }
    }
}

/// Once a set is missing, the lookups of later references change nothing.
proof fn lemma_refs_lookup_stops(pos: Seq<RRsetEntryV>, neg: Seq<RRsetEntryV>, refs: Seq<RefV>, k: int, m: int, now: u64)
    requires
        0 <= k <= m <= refs.len(),
        refs_lookup(pos, neg, refs.subrange(0, k), now).2 is None,
    ensures
        refs_lookup(pos, neg, refs.subrange(0, m), now) == refs_lookup(pos, neg, refs.subrange(0, k), now),
    decreases m - k,
{
    if m > k {
        lemma_refs_lookup_stops(pos, neg, refs, k, m - 1, now);
        assert(refs.subrange(0, m).drop_last() =~= refs.subrange(0, m - 1));
    }
}

/// Where every set is found, as many are found as there are references.
pub proof fn lemma_refs_lookup_len(pos: Seq<RRsetEntryV>, neg: Seq<RRsetEntryV>, refs: Seq<RefV>, now: u64)
    ensures
        ({
            let (p, n, found) = refs_lookup(pos, neg, refs, now);
            found matches Some(s) ==> s.len() == refs.len()
        }),
    decreases refs.len(),
{
    if refs.len() > 0 {
        lemma_refs_lookup_len(pos, neg, refs.drop_last(), now);
    }
}

} // verus!
