//! One recursive query: the decisions it takes between asking servers.
//! The caller sends the queries and fetches the zones it asks for, and
//! hands back what came of them.
use crate::message::{Header, HeaderFlags, Message, MessageV, Rcode, SectionType, rr_count};
use crate::name::{is_subdomain_of, Name};
use crate::cache::message_cache::{deepest_ns, store_outcome, MessageCacheV};
use crate::resolver::cache::{resolver_answer, response_stored, MessageCache, ResolverCacheV};
use crate::resolver::nsas::nameserver_entry::Nameserver;
use crate::resolver::nsas::ns_address_store::{probe_split, NSAddressStore};
use crate::resolver::nsas::zone_cache::{names_view, zone_missing, zone_server_outcome};
use crate::resolver::error::RecursorError;
use crate::resolver::message_classifier::{classify_response, classify_spec, CategoryV, ResponseCategory};
use crate::rr::{rrsets_view, RRType, RRset};
use crate::clock::now_nanos;
use vstd::prelude::*;

verus! {

/// The most CNAME records a query follows.
pub const MAX_CNAME_DEPTH: usize = 12;

/// The deepest nesting of queries for the servers of zones.
pub const MAX_QUERY_DEPTH: usize = 10;

/// The abstract state of a running query.
pub struct RunningQueryV {
    pub current_name: Seq<Seq<u8>>,
    pub current_type: RRType,
    pub current_zone: Option<Seq<Seq<u8>>>,
    pub cname_depth: nat,
    pub query: Option<MessageV>,
    pub response: Option<MessageV>,
    pub depth: nat,
}

/// A running query.
pub struct RunningQuery {
    current_name: Name,
    current_type: RRType,
    current_zone: Option<Name>,
    cname_depth: usize,
    query: Option<Message>,
    response: Option<Message>,
    depth: usize,
}

impl View for RunningQuery {
    type V = RunningQueryV;

    closed spec fn view(&self) -> RunningQueryV {
        RunningQueryV {
            current_name: self.current_name@,
            current_type: self.current_type,
            current_zone: match self.current_zone { Some(z) => Some(z@), None => None },
            cname_depth: self.cname_depth as nat,
            query: match self.query { Some(q) => Some(q@), None => None },
            response: match self.response { Some(r) => Some(r@), None => None },
            depth: self.depth as nat,
        }
    }
}

/// The response built so far, `acc`, with the records of `resp` appended to
/// its sections, made a response with the response code of `resp`.
pub open spec fn accumulated(acc: MessageV, resp: MessageV) -> MessageV {
    MessageV {
        header: Header { flags: HeaderFlags { qr: true, ..acc.header.flags }, rcode: resp.header.rcode, ..acc.header },
        answer: acc.answer + resp.answer,
        authority: acc.authority + resp.authority,
        additional: acc.additional + resp.additional,
        ..acc
    }
}

/// The response built so far, failed with SERVFAIL.
pub open spec fn server_failed(acc: MessageV) -> MessageV {
    MessageV { header: Header { rcode: Rcode::ServFail, ..acc.header }, ..acc }
}

/// Whether the authority section of `resp` is one NS set, the only referral
/// that can move the query to a closer zone.
pub open spec fn is_single_ns_referral(resp: MessageV) -> bool {
    resp.authority.len() == 1 && resp.authority[0].typ == RRType::NS
}

/// The zone a referral `resp` moves to from `zone` for `name`: the owner of
/// its one NS set, where that lies at or below `zone` and `name` lies at or
/// below it.
pub open spec fn closer_zone(resp: MessageV, zone: Seq<Seq<u8>>, name: Seq<Seq<u8>>) -> Option<Seq<Seq<u8>>> {
    if resp.authority.len() != 1 || resp.authority[0].typ != RRType::NS {
        None
    } else {
        let z = resp.authority[0].name;
        if is_subdomain_of(z, zone) && is_subdomain_of(name, z) {
            Some(z)
        } else {
            None
        }
    }
}

/// The CNAME depth after following a chain of `n` records from `d`,
/// saturated at the largest `usize`.
pub open spec fn deeper(d: nat, n: nat) -> nat {
    if d + n > usize::MAX {
        usize::MAX as nat
    } else {
        d + n
    }
}

/// An empty query for `name` and `typ`.
pub open spec fn fresh_query(name: Seq<Seq<u8>>, typ: RRType) -> MessageV {
    crate::message::query_message(name, typ)
}

/// What a running query asks its driver to do next.
pub enum QueryStep {
    /// The query is over: this is the response.
    Done(Message),
    /// Send `query` to `server`, and hand the response to
    /// `handle_response_at`; look up the addresses of the servers named in
    /// `probe` meanwhile.
    Ask { query: Message, server: Nameserver, probe: Vec<Name> },
    /// Find the servers of `zone` with a query at nesting depth `depth`,
    /// then call `ask_server` with one of them.
    FetchZone { zone: Name, depth: usize },
}

/// The abstract value of an optional message.
pub open spec fn opt_message_view(o: Option<Message>) -> Option<MessageV> {
    match o {
        Some(m) => Some(m@),
        None => None,
    }
}

/// The resolver cache `c` after query `s` handles `resp` at `now`: a final
/// answer, built on the response so far, is stored, and so is a referral;
/// nothing else is.
pub open spec fn cache_after_response(c: ResolverCacheV, s: RunningQueryV, resp: MessageV, now: u64) -> ResolverCacheV {
    let k = classify_spec(s.current_name, s.current_type, resp).unwrap();
    match k {
        CategoryV::Answer | CategoryV::AnswerCName | CategoryV::NXDomain | CategoryV::NXRRset => response_stored(
            c,
            k,
            accumulated(s.response.unwrap(), resp),
            now,
        ),
        CategoryV::Referral => response_stored(c, k, resp, now),
        _ => c,
    }
}

/// Whether query `s`, handling `resp`, becomes `s2` and gives `out`: a final
/// answer ends the query with the response so far extended by it; a
/// referral moves to the closer zone, or fails the query where it points
/// nowhere closer; a CNAME to follow appends its answer and goes on for the
/// target, unless the chain grew too long; anything else fails the query.
pub open spec fn query_after_response(s: RunningQueryV, resp: MessageV, s2: RunningQueryV, out: Option<MessageV>) -> bool {
    let acc = s.response.unwrap();
    let c = classify_spec(s.current_name, s.current_type, resp).unwrap();
    match c {
        CategoryV::Answer | CategoryV::AnswerCName | CategoryV::NXDomain | CategoryV::NXRRset => {
            &&& out == Some(accumulated(acc, resp))
            &&& s2 == (RunningQueryV { response: None, ..s })
        },
        CategoryV::Referral => {
            let z = closer_zone(resp, s.current_zone.unwrap(), s.current_name);
            &&& z is None ==> out == Some(server_failed(acc)) && s2 == (RunningQueryV { response: None, ..s })
            &&& z is Some ==> out is None && s2 == (RunningQueryV { current_zone: z, ..s })
        },
        CategoryV::CName(next) => {
            let d = deeper(s.cname_depth, rr_count(resp.answer));
            &&& d > MAX_CNAME_DEPTH ==> out == Some(server_failed(acc)) && s2 == (RunningQueryV { response: None, cname_depth: d, ..s })
            &&& d <= MAX_CNAME_DEPTH ==> out is None && s2 == (RunningQueryV {
                current_name: next,
                current_zone: None,
                cname_depth: d,
                query: Some(fresh_query(next, s.current_type)),
                response: Some(MessageV { answer: acc.answer + resp.answer, ..acc }),
                ..s
            })
        },
        CategoryV::Invalid(_) => {
            &&& out == Some(server_failed(acc))
            &&& s2 == (RunningQueryV { response: None, ..s })
        },
    }
}

impl RunningQuery {
    /// A query for the question of `query`, at nesting depth `depth`.
    pub fn new(query: Message, depth: usize) -> (r: RunningQuery)
        requires
            query@.question is Some,
        ensures
            r@ == (RunningQueryV {
                current_name: query@.question.unwrap().0,
                current_type: query@.question.unwrap().1,
                current_zone: None,
                cname_depth: 0,
                query: Some(query@),
                response: Some(query@),
                depth: depth as nat,
            }),
    {
        let (current_name, current_type) = match &query.question {
            Some(q) => (q.name.copy(), q.typ),
            None => {
                proof {
                    assert(false);
                }
                (Name::root(), RRType::A)
            },
        };
        let copy = query.copy();
        RunningQuery {
            current_name,
            current_type,
            current_zone: None,
            cname_depth: 0,
            query: Some(copy),
            response: Some(query),
            depth,
        }
    }

    /// The zone whose servers are asked now.
    pub fn current_zone(&self) -> (r: &Option<Name>)
        ensures
            match *r { Some(z) => self@.current_zone == Some(z@), None => self@.current_zone is None },
    {
        &self.current_zone
    }

    /// The query to send now.
    pub fn query(&self) -> (r: &Option<Message>)
        ensures
            match *r { Some(q) => self@.query == Some(q@), None => self@.query is None },
    {
        &self.query
    }

    /// The nesting depth.
    pub fn depth(&self) -> (r: usize)
        ensures
            r == self@.depth,
    {
        self.depth
    }

    /// Looks the query up in the cache at `now`. A cached answer ends the
    /// query with the response built so far extended by it. Otherwise the
    /// deepest ancestor of the current name with a cached NS set becomes the
    /// current zone; without one the query fails.
    pub fn lookup_in_cache_at(&mut self, cache: &mut MessageCache, now: u64) -> (r: Result<Option<Message>, RecursorError>)
        requires
            old(self)@.query is Some,
            old(self)@.query.unwrap().question is Some,
            old(self)@.response is Some,
            old(cache).wf(),
        ensures
            final(cache).wf(),
            ({
                let s = old(self)@;
                let (ok, q1, c1) = resolver_answer(old(cache)@, s.query.unwrap(), now);
                if ok {
                    &&& r matches Ok(Some(m)) && m@ == accumulated(s.response.unwrap(), q1)
                    &&& final(cache)@ == c1
                    &&& final(self)@ == (RunningQueryV { query: None, response: None, ..s })
                } else {
                    let (v, found) = deepest_ns(c1.positive.positive, s.current_name, s.current_name.len(), now);
                    &&& final(cache)@ == (ResolverCacheV { positive: MessageCacheV { positive: v, ..c1.positive }, ..c1 })
                    &&& found is None ==> (r matches Err(RecursorError::NoNameserver)) && final(self)@ == (RunningQueryV { query: Some(q1), ..s })
                    &&& found is Some ==> (r matches Ok(None)) && final(self)@ == (RunningQueryV { query: Some(q1), current_zone: found, ..s })
                }
            }),
    {
        let answered = match &mut self.query {
            Some(q) => cache.gen_response_at(q, now),
            None => {
                proof {
                    assert(false);
                }
                false
            },
        };
        if answered {
            let last = match self.query.take() {
                Some(q) => q,
                None => {
                    proof {
                        assert(false);
                    }
                    Message::with_query(Name::root(), RRType::A)
                },
            };
            return Ok(Some(self.make_response(last)));
        }
        match cache.get_deepest_ns_at(&self.current_name, now) {
            Some(ns) => {
                self.current_zone = Some(ns);
                Ok(None)
            },
            None => Err(RecursorError::NoNameserver),
        }
    }

    /// The first step at `now` while no server is being asked: a cached
    /// answer ends the query (`lookup_in_cache_at`); otherwise a server of
    /// the current zone is chosen (`NSAddressStore::get_nameserver_at`) and
    /// asked; without one, the zone's servers are to be found, unless the
    /// nesting is already too deep.
    pub fn start_at(&mut self, cache: &mut MessageCache, nsas: &mut NSAddressStore, now: u64) -> (r: Result<QueryStep, RecursorError>)
        requires
            old(self)@.query is Some,
            old(self)@.query.unwrap().question is Some,
            old(self)@.response is Some,
            old(cache).wf(),
            old(nsas).wf(),
        ensures
            final(cache).wf(),
            final(nsas).wf(),
            ({
                let s = old(self)@;
                let (ok, q1, c1) = resolver_answer(old(cache)@, s.query.unwrap(), now);
                let (v, found) = deepest_ns(c1.positive.positive, s.current_name, s.current_name.len(), now);
                &&& ok ==> (r matches Ok(QueryStep::Done(m)) && m@ == accumulated(s.response.unwrap(), q1)) && final(nsas)@ == old(nsas)@
                &&& !ok && found is None ==> (r matches Err(RecursorError::NoNameserver)) && final(nsas)@ == old(nsas)@
                &&& !ok && found is Some ==> final(self)@ == (RunningQueryV { query: Some(q1), current_zone: found, ..s }) && ({
                    let missing = zone_missing(old(nsas)@.zones.entries, old(nsas)@.nameservers, found.unwrap(), now);
                    &&& zone_server_outcome(
                        old(nsas)@.zones.entries,
                        old(nsas)@.nameservers,
                        found.unwrap(),
                        now,
                        final(nsas)@.zones.entries,
                        final(nsas)@.nameservers,
                        match r { Ok(QueryStep::Ask { query, server, probe }) => Some(server@), _ => None },
                        missing,
                    )
                    &&& r matches Ok(QueryStep::Ask { query, server, probe }) ==> query@ == q1
                        && (final(nsas)@.probing, names_view(probe@)) == probe_split(old(nsas)@.probing, missing)
                    &&& !(r matches Ok(QueryStep::Ask { .. })) ==> final(nsas)@.probing == old(nsas)@.probing && if s.depth > MAX_QUERY_DEPTH {
                        r matches Err(RecursorError::LoopedQuery)
                    } else {
                        r matches Ok(QueryStep::FetchZone { zone, depth }) && zone@ == found.unwrap() && depth == s.depth
                    }
                })
            }),
    {
        match self.lookup_in_cache_at(cache, now) {
            Err(e) => Err(e),
            Ok(Some(m)) => Ok(QueryStep::Done(m)),
            Ok(None) => {
                let zone = match &self.current_zone {
                    Some(z) => z.copy(),
                    None => {
                        proof {
                            assert(false);
                        }
                        Name::root()
                    },
                };
                let ghost n0 = nsas@;
                let (server, probe) = nsas.get_nameserver_at(&zone, now);
                match server {
                    Some(chosen) => {
                        let query = match &self.query {
                            Some(q) => q.copy(),
                            None => {
                                proof {
                                    assert(false);
                                }
                                Message::with_query(Name::root(), RRType::A)
                            },
                        };
                        Ok(QueryStep::Ask { query, server: chosen, probe })
                    },
                    None => {
                        if self.depth > MAX_QUERY_DEPTH {
                            Err(RecursorError::LoopedQuery)
                        } else {
                            Ok(QueryStep::FetchZone { zone, depth: self.depth })
                        }
                    },
                }
            },
        }
    }

    /// The servers of the current zone were found: ask `server`.
    pub fn ask_server(&self, server: Nameserver) -> (r: QueryStep)
        requires
            self@.query is Some,
        ensures
            r matches QueryStep::Ask { query, server: chosen, probe } && query@ == self@.query.unwrap() && chosen@ == server@ && probe@.len() == 0,
    {
        let query = match &self.query {
            Some(q) => q.copy(),
            None => {
                proof {
                    assert(false);
                }
                Message::with_query(Name::root(), RRType::A)
            },
        };
        QueryStep::Ask { query, server, probe: Vec::new() }
    }

    /// Appends the sections of `resp` to the response built so far and
    /// gives it, made a response with the response code of `resp`.
    fn make_response(&mut self, resp: Message) -> (r: Message)
        requires
            old(self)@.response is Some,
        ensures
            r@ == accumulated(old(self)@.response.unwrap(), resp@),
            final(self)@ == (RunningQueryV { response: None, ..old(self)@ }),
    {
        let mut acc = match self.response.take() {
            Some(m) => m,
            None => {
                proof {
                    assert(false);
                }
                Message::with_query(Name::root(), RRType::A)
            },
        };
        let ghost a0 = acc@;
        let mut resp = resp;
        acc.make_response();
        acc.set_rcode(resp.header.rcode);
        let answers = resp.take_section(SectionType::Answer);
        let auths = resp.take_section(SectionType::Authority);
        let additionals = resp.take_section(SectionType::Additional);
        append_all(&mut acc, answers, SectionType::Answer);
        append_all(&mut acc, auths, SectionType::Authority);
        append_all(&mut acc, additionals, SectionType::Additional);
        acc
    }

    /// Gives the response built so far, failed with SERVFAIL.
    fn make_server_failed(&mut self) -> (r: Message)
        requires
            old(self)@.response is Some,
        ensures
            r@ == server_failed(old(self)@.response.unwrap()),
            final(self)@ == (RunningQueryV { response: None, ..old(self)@ }),
    {
        let mut acc = match self.response.take() {
            Some(m) => m,
            None => {
                proof {
                    assert(false);
                }
                Message::with_query(Name::root(), RRType::A)
            },
        };
        acc.set_rcode(Rcode::ServFail);
        acc
    }

    /// Moves to the zone a referral points to, as `closer_zone` says; gives
    /// whether it did.
    fn fetch_closer_zone(&mut self, resp: &Message) -> (r: bool)
        requires
            is_single_ns_referral(resp@) ==> old(self)@.current_zone is Some,
        ensures
            ({
                let z = closer_zone(resp@, old(self)@.current_zone.unwrap(), old(self)@.current_name);
                &&& r == z is Some
                &&& final(self)@ == (RunningQueryV { current_zone: if r { z } else { old(self)@.current_zone }, ..old(self)@ })
            }),
    {
        if resp.authority.len() != 1 {
            return false;
        }
        proof {
            assert(resp@.authority[0] == resp.authority@[0]@);
        }
        let auth = &resp.authority[0];
        let is_ns = match auth.typ {
            RRType::NS => true,
            _ => false,
        };
        if !is_ns {
            return false;
        }
        let closer = match &self.current_zone {
            Some(current) => auth.name.is_subdomain(current) && self.current_name.is_subdomain(&auth.name),
            None => false,
        };
        if closer {
            self.current_zone = Some(auth.name.copy());
        }
        closer
    }

    /// Handles `response` to the query sent for the current name now, as
    /// `handle_response_at` says.
    pub fn handle_response(&mut self, response: Message, cache: &mut MessageCache) -> (r: Result<Option<Message>, RecursorError>)
        requires
            old(self)@.response is Some,
            old(cache).wf(),
            old(self)@.response.unwrap().question is Some,
            classify_spec(old(self)@.current_name, old(self)@.current_type, response@) is Some,
            classify_spec(old(self)@.current_name, old(self)@.current_type, response@) == Some(CategoryV::Referral)
                && is_single_ns_referral(response@) ==> old(self)@.current_zone is Some,
        ensures
            final(cache).wf(),
            exists|now: u64| final(cache)@ == #[trigger] cache_after_response(old(cache)@, old(self)@, response@, now),
            r matches Ok(o) && query_after_response(old(self)@, response@, final(self)@, opt_message_view(o)),
    {
        let now = now_nanos();
        self.handle_response_at(response, cache, now)
    }

    /// Handles `response` to the query sent for the current name at `now`,
    /// as `cache_after_response` and `query_after_response` say.
    pub fn handle_response_at(&mut self, response: Message, cache: &mut MessageCache, now: u64) -> (r: Result<Option<Message>, RecursorError>)
        requires
            old(self)@.response is Some,
            old(cache).wf(),
            old(self)@.response.unwrap().question is Some,
            classify_spec(old(self)@.current_name, old(self)@.current_type, response@) is Some,
            classify_spec(old(self)@.current_name, old(self)@.current_type, response@) == Some(CategoryV::Referral)
                && is_single_ns_referral(response@) ==> old(self)@.current_zone is Some,
        ensures
            final(cache).wf(),
            final(cache)@ == cache_after_response(old(cache)@, old(self)@, response@, now),
            r matches Ok(o) && query_after_response(old(self)@, response@, final(self)@, opt_message_view(o)),
    {
        let category = classify_response(&self.current_name, self.current_type, &response);
        match category {
            ResponseCategory::Answer | ResponseCategory::AnswerCName | ResponseCategory::NXDomain | ResponseCategory::NXRRset => {
                let made = self.make_response(response);
                let stored = made.copy();
                cache.add_response_at(category, stored, now);
                Ok(Some(made))
            },
            ResponseCategory::Referral => {
                let stored = response.copy();
                cache.add_response_at(ResponseCategory::Referral, stored, now);
                if !self.fetch_closer_zone(&response) {
                    Ok(Some(self.make_server_failed()))
                } else {
                    Ok(None)
                }
            },
            ResponseCategory::CName(next) => {
                let n = response.rr_count_of(SectionType::Answer);
                self.cname_depth = self.cname_depth.saturating_add(n);
                if self.cname_depth > MAX_CNAME_DEPTH {
                    return Ok(Some(self.make_server_failed()));
                }
                let mut response = response;
                let answers = response.take_section(SectionType::Answer);
                match &mut self.response {
                    Some(acc) => {
                        append_all(acc, answers, SectionType::Answer);
                    },
                    None => {
                        proof {
                            assert(false);
                        }
                    },
                }
                self.query = Some(Message::with_query(next.copy(), self.current_type));
                self.current_name = next;
                self.current_zone = None;
                Ok(None)
            },
            ResponseCategory::Invalid(_) => {
                Ok(Some(self.make_server_failed()))
            },
        }
    }
}

/// Appends the sets `src` to section `section` of `dst`.
fn append_all(dst: &mut Message, src: Vec<RRset>, section: SectionType)
    ensures
        final(dst)@ == (match section {
            SectionType::Answer => MessageV { answer: old(dst)@.answer + rrsets_view(src@), ..old(dst)@ },
            SectionType::Authority => MessageV { authority: old(dst)@.authority + rrsets_view(src@), ..old(dst)@ },
            SectionType::Additional => MessageV { additional: old(dst)@.additional + rrsets_view(src@), ..old(dst)@ },
        }),
{
    let ghost sv = rrsets_view(src@);
    let ghost m0 = dst@;
    let mut i: usize = 0;
    while i < src.len()
        invariant
            i <= src.len(),
            sv == rrsets_view(src@),
            dst@ == (match section {
                SectionType::Answer => MessageV { answer: m0.answer + sv.subrange(0, i as int), ..m0 },
                SectionType::Authority => MessageV { authority: m0.authority + sv.subrange(0, i as int), ..m0 },
                SectionType::Additional => MessageV { additional: m0.additional + sv.subrange(0, i as int), ..m0 },
            }),
        decreases src.len() - i,
    {
        let set = src[i].copy();
        match section {
            SectionType::Answer => dst.add_answer(set),
            SectionType::Authority => dst.add_auth(set),
            SectionType::Additional => dst.add_additional(set),
        }
        proof {
            assert(sv.subrange(0, i + 1) =~= sv.subrange(0, i as int).push(set@));
            assert(m0.answer + sv.subrange(0, i + 1) =~= (m0.answer + sv.subrange(0, i as int)).push(set@));
            assert(m0.authority + sv.subrange(0, i + 1) =~= (m0.authority + sv.subrange(0, i as int)).push(set@));
            assert(m0.additional + sv.subrange(0, i + 1) =~= (m0.additional + sv.subrange(0, i as int)).push(set@));
        }
        i = i + 1;
    }
    proof {
        assert(sv.subrange(0, src.len() as int) =~= sv);
    }
}

/// A response that settles the question, an answer, a CNAME answer, a
/// "no such name" or a "no data", ends the query: the result is the
/// response built so far, made a response, with the records of the response
/// appended to its sections and with the response's own code (so "no such
/// name" for a name that does not exist, never a server failure); a
/// positive answer is stored in the positive cache and a negative one in the
/// negative cache.
pub proof fn lemma_settled_response(
    s: RunningQueryV,
    resp: MessageV,
    s2: RunningQueryV,
    out: Option<MessageV>,
    c: ResolverCacheV,
    now: u64,
)
    requires
        s.response is Some,
        classify_spec(s.current_name, s.current_type, resp) matches Some(k) && (k is Answer || k is AnswerCName || k is NXDomain
            || k is NXRRset),
        query_after_response(s, resp, s2, out),
    ensures
        ({
            let acc = s.response.unwrap();
            let k = classify_spec(s.current_name, s.current_type, resp).unwrap();
            &&& out matches Some(m) && {
                &&& m.header.rcode == resp.header.rcode
                &&& m.header.flags.qr
                &&& m.question == acc.question
                &&& m.answer == acc.answer + resp.answer
                &&& m.authority == acc.authority + resp.authority
                &&& m.additional == acc.additional + resp.additional
                &&& k is NXDomain ==> m.header.rcode == Rcode::NXDomain
                &&& k is NXRRset || k is Answer || k is AnswerCName ==> m.header.rcode == Rcode::NoError
                &&& (k is Answer || k is AnswerCName) ==> cache_after_response(c, s, resp, now) == (ResolverCacheV {
                    positive: store_outcome(c.positive, m, now),
                    ..c
                })
                &&& (k is NXDomain || k is NXRRset) ==> cache_after_response(c, s, resp, now) == (ResolverCacheV {
                    negative: store_outcome(c.negative, m, now),
                    ..c
                })
            }
            &&& s2.response is None
        }),
{
    let acc = s.response.unwrap();
    let k = classify_spec(s.current_name, s.current_type, resp).unwrap();
    crate::resolver::message_classifier::lemma_chain_kinds(resp.answer, s.current_type, s.current_name, 0);
    assert(resp.header.rcode != Rcode::NoError ==> k is NXDomain || k is Invalid);
    assert(k is NXDomain ==> resp.header.rcode == Rcode::NXDomain);
    assert(out == Some(accumulated(acc, resp)));
}

} // verus!
