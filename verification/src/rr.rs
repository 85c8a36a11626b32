//! Resource record types, record data and record sets.
use crate::name::{bytes_eq, Name};
use vstd::prelude::*;

verus! {

/// A resource record type. Codes without a variant of their own are kept in
/// `Unknown`.
#[derive(Clone, Copy, Debug, PartialEq, Eq, Structural)]
pub enum RRType {
    A,
    NS,
    CNAME,
    SOA,
    PTR,
    MX,
    TXT,
    AAAA,
    SRV,
    OPT,
    Unknown(u16),
}

impl RRType {
    /// The numeric code of the type.
    pub open spec fn spec_code(self) -> u16 {
        match self {
            RRType::A => 1,
            RRType::NS => 2,
            RRType::CNAME => 5,
            RRType::SOA => 6,
            RRType::PTR => 12,
            RRType::MX => 15,
            RRType::TXT => 16,
            RRType::AAAA => 28,
            RRType::SRV => 33,
            RRType::OPT => 41,
            RRType::Unknown(c) => c,
        }
    }

    /// The numeric code of the type.
    #[verifier::when_used_as_spec(spec_code)]
    pub fn code(self) -> (r: u16)
        ensures
            r == self.spec_code(),
    {
        match self {
            RRType::A => 1,
            RRType::NS => 2,
            RRType::CNAME => 5,
            RRType::SOA => 6,
            RRType::PTR => 12,
            RRType::MX => 15,
            RRType::TXT => 16,
            RRType::AAAA => 28,
            RRType::SRV => 33,
            RRType::OPT => 41,
            RRType::Unknown(c) => c,
        }
    }

    /// The type with the given numeric code.
    pub fn from_code(c: u16) -> (r: RRType)
        ensures
            r.spec_code() == c,
    {
        match c {
            1 => RRType::A,
            2 => RRType::NS,
            5 => RRType::CNAME,
            6 => RRType::SOA,
            12 => RRType::PTR,
            15 => RRType::MX,
            16 => RRType::TXT,
            28 => RRType::AAAA,
            33 => RRType::SRV,
            41 => RRType::OPT,
            _ => RRType::Unknown(c),
        }
    }
}

/// The class code of the Internet class.
pub const CLASS_IN: u16 = 1;

/// Record data of one resource record.
#[derive(Debug, PartialEq, Eq)]
pub enum RData {
    A(u32),
    AAAA(u128),
    NS(Name),
    CName(Name),
    PTR(Name),
    MX { preference: u16, exchange: Name },
    SRV { priority: u16, weight: u16, port: u16, target: Name },
    SOA { mname: Name, rname: Name, serial: u32, refresh: u32, retry: u32, expire: u32, minimum: u32 },
    TXT(Vec<u8>),
    Unknown(Vec<u8>),
}

/// The abstract value of record data, names taken by their views.
pub enum RDataV {
    A(u32),
    AAAA(u128),
    NS(Seq<Seq<u8>>),
    CName(Seq<Seq<u8>>),
    PTR(Seq<Seq<u8>>),
    MX { preference: u16, exchange: Seq<Seq<u8>> },
    SRV { priority: u16, weight: u16, port: u16, target: Seq<Seq<u8>> },
    SOA { mname: Seq<Seq<u8>>, rname: Seq<Seq<u8>>, serial: u32, refresh: u32, retry: u32, expire: u32, minimum: u32 },
    TXT(Seq<u8>),
    Unknown(Seq<u8>),
}

impl View for RData {
    type V = RDataV;

    open spec fn view(&self) -> RDataV {
        match self {
            RData::A(a) => RDataV::A(*a),
            RData::AAAA(a) => RDataV::AAAA(*a),
            RData::NS(n) => RDataV::NS(n@),
            RData::CName(n) => RDataV::CName(n@),
            RData::PTR(n) => RDataV::PTR(n@),
            RData::MX { preference, exchange } => RDataV::MX { preference: *preference, exchange: exchange@ },
            RData::SRV { priority, weight, port, target } => RDataV::SRV {
                priority: *priority,
                weight: *weight,
                port: *port,
                target: target@,
            },
            RData::SOA { mname, rname, serial, refresh, retry, expire, minimum } => RDataV::SOA {
                mname: mname@,
                rname: rname@,
                serial: *serial,
                refresh: *refresh,
                retry: *retry,
                expire: *expire,
                minimum: *minimum,
            },
            RData::TXT(t) => RDataV::TXT(t@),
            RData::Unknown(t) => RDataV::Unknown(t@),
        }
    }
}

/// The views of a vector of record data.
pub open spec fn rdatas_view(v: Seq<RData>) -> Seq<RDataV> {
    v.map_values(|r: RData| r@)
}

pub proof fn lemma_rdatas_view_push(v: Seq<RData>, x: RData)
    ensures
        rdatas_view(v.push(x)) == rdatas_view(v).push(x@),
{
    assert(rdatas_view(v.push(x)) =~= rdatas_view(v).push(x@));
}

fn copy_vec_u8(a: &Vec<u8>) -> (r: Vec<u8>)
    ensures
        r@ == a@,
{
    let mut r: Vec<u8> = Vec::new();
    let mut i: usize = 0;
    while i < a.len()
        invariant
            i <= a.len(),
            r@ == a@.subrange(0, i as int),
        decreases a.len() - i,
    {
        r.push(a[i]);
        proof {
            assert(a@.subrange(0, i + 1) == a@.subrange(0, i as int).push(a@[i as int]));
        }
        i = i + 1;
    }
    proof {
        assert(a@.subrange(0, a@.len() as int) == a@);
    }
    r
}

impl RData {
    /// An independent copy of this record data.
    pub fn copy(&self) -> (r: RData)
        ensures
            r@ == self@,
    {
        match self {
            RData::A(a) => RData::A(*a),
            RData::AAAA(a) => RData::AAAA(*a),
            RData::NS(n) => RData::NS(n.copy()),
            RData::CName(n) => RData::CName(n.copy()),
            RData::PTR(n) => RData::PTR(n.copy()),
            RData::MX { preference, exchange } => RData::MX {
                preference: *preference,
                exchange: exchange.copy(),
            },
            RData::SRV { priority, weight, port, target } => RData::SRV {
                priority: *priority,
                weight: *weight,
                port: *port,
                target: target.copy(),
            },
            RData::SOA { mname, rname, serial, refresh, retry, expire, minimum } => RData::SOA {
                mname: mname.copy(),
                rname: rname.copy(),
                serial: *serial,
                refresh: *refresh,
                retry: *retry,
                expire: *expire,
                minimum: *minimum,
            },
            RData::TXT(t) => RData::TXT(copy_vec_u8(t)),
            RData::Unknown(t) => RData::Unknown(copy_vec_u8(t)),
        }
    }

    /// Whether two record data are the same.
    pub fn eq_rdata(&self, other: &RData) -> (r: bool)
        ensures
            r == (self@ == other@),
    {
        match (self, other) {
            (RData::A(a), RData::A(b)) => *a == *b,
            (RData::AAAA(a), RData::AAAA(b)) => *a == *b,
            (RData::NS(a), RData::NS(b)) => a.eq_name(b),
            (RData::CName(a), RData::CName(b)) => a.eq_name(b),
            (RData::PTR(a), RData::PTR(b)) => a.eq_name(b),
            (
                RData::MX { preference: p1, exchange: e1 },
                RData::MX { preference: p2, exchange: e2 },
            ) => *p1 == *p2 && e1.eq_name(e2),
            (
                RData::SRV { priority: a1, weight: b1, port: c1, target: t1 },
                RData::SRV { priority: a2, weight: b2, port: c2, target: t2 },
            ) => *a1 == *a2 && *b1 == *b2 && *c1 == *c2 && t1.eq_name(t2),
            (
                RData::SOA { mname: m1, rname: r1, serial: s1, refresh: f1, retry: y1, expire: e1, minimum: n1 },
                RData::SOA { mname: m2, rname: r2, serial: s2, refresh: f2, retry: y2, expire: e2, minimum: n2 },
            ) => *s1 == *s2 && *f1 == *f2 && *y1 == *y2 && *e1 == *e2 && *n1 == *n2 && m1.eq_name(m2)
                && r1.eq_name(r2),
            (RData::TXT(a), RData::TXT(b)) => bytes_eq(a, b),
            (RData::Unknown(a), RData::Unknown(b)) => bytes_eq(a, b),
            _ => false,
        }
    }
}

/// Copies a vector of record data.
pub fn copy_rdatas(v: &Vec<RData>) -> (r: Vec<RData>)
    ensures
        rdatas_view(r@) == rdatas_view(v@),
{
    let mut r: Vec<RData> = Vec::new();
    let mut i: usize = 0;
    while i < v.len()
        invariant
            i <= v.len(),
            rdatas_view(r@) == rdatas_view(v@).subrange(0, i as int),
        decreases v.len() - i,
    {
        let x = v[i].copy();
        proof {
            lemma_rdatas_view_push(r@, x);
        }
        r.push(x);
        proof {
            assert(rdatas_view(r@) =~= rdatas_view(v@).subrange(0, i + 1));
        }
        i = i + 1;
    }
    proof {
        assert(rdatas_view(v@).subrange(0, v@.len() as int) == rdatas_view(v@));
    }
    r
}

/// A set of resource records sharing owner name, type and class.
#[derive(Debug, PartialEq, Eq)]
pub struct RRset {
    pub name: Name,
    pub typ: RRType,
    pub class: u16,
    pub ttl: u32,
    pub rdatas: Vec<RData>,
}

/// The abstract value of a record set.
pub struct RRsetV {
    pub name: Seq<Seq<u8>>,
    pub typ: RRType,
    pub class: u16,
    pub ttl: u32,
    pub rdatas: Seq<RDataV>,
}

impl View for RRset {
    type V = RRsetV;

    open spec fn view(&self) -> RRsetV {
        RRsetV {
            name: self.name@,
            typ: self.typ,
            class: self.class,
            ttl: self.ttl,
            rdatas: rdatas_view(self.rdatas@),
        }
    }
}

/// The views of a vector of record sets.
pub open spec fn rrsets_view(v: Seq<RRset>) -> Seq<RRsetV> {
    v.map_values(|r: RRset| r@)
}

pub proof fn lemma_rrsets_view_push(v: Seq<RRset>, x: RRset)
    ensures
        rrsets_view(v.push(x)) == rrsets_view(v).push(x@),
{
    assert(rrsets_view(v.push(x)) =~= rrsets_view(v).push(x@));
}

impl RRset {
    /// An independent copy of this record set.
    pub fn copy(&self) -> (r: RRset)
        ensures
            r@ == self@,
    {
        RRset {
            name: self.name.copy(),
            typ: self.typ,
            class: self.class,
            ttl: self.ttl,
            rdatas: copy_rdatas(&self.rdatas),
        }
    }
}

/// Copies a vector of record sets.
pub fn copy_rrsets(v: &Vec<RRset>) -> (r: Vec<RRset>)
    ensures
        rrsets_view(r@) == rrsets_view(v@),
{
    let mut r: Vec<RRset> = Vec::new();
    let mut i: usize = 0;
    while i < v.len()
        invariant
            i <= v.len(),
            rrsets_view(r@) == rrsets_view(v@).subrange(0, i as int),
        decreases v.len() - i,
    {
        let x = v[i].copy();
        proof {
            lemma_rrsets_view_push(r@, x);
        }
        r.push(x);
        proof {
            assert(rrsets_view(r@) =~= rrsets_view(v@).subrange(0, i + 1));
        }
        i = i + 1;
    }
    proof {
        assert(rrsets_view(v@).subrange(0, v@.len() as int) == rrsets_view(v@));
    }
    r
}

/// The abstract value of an optional record set.
pub open spec fn opt_rrset_view(r: Option<RRset>) -> Option<RRsetV> {
    match r {
        Some(x) => Some(x@),
        None => None,
    }
}

} // verus!
