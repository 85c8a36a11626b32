//! DNS messages: header, question and the three record sections.
use crate::name::Name;
use crate::rr::{copy_rrsets, lemma_rrsets_view_push, rrsets_view, RRType, RRset, RRsetV};
use vstd::prelude::*;

verus! {

/// The one-bit flags of a message header.
#[derive(Clone, Copy, Debug, PartialEq, Eq, Structural)]
pub struct HeaderFlags {
    pub qr: bool,
    pub aa: bool,
    pub tc: bool,
    pub rd: bool,
    pub ra: bool,
    pub ad: bool,
    pub cd: bool,
}

/// A flag of a message header.
#[derive(Clone, Copy, Debug, PartialEq, Eq, Structural)]
pub enum HeaderFlag {
    QueryRespone,
    AuthAnswer,
    Truncation,
    RecursionDesired,
    RecursionAvailable,
    AuthenticData,
    CheckingDisabled,
}

/// Whether `f` is set in `flags`.
pub open spec fn flag_of(flags: HeaderFlags, f: HeaderFlag) -> bool {
    match f {
        HeaderFlag::QueryRespone => flags.qr,
        HeaderFlag::AuthAnswer => flags.aa,
        HeaderFlag::Truncation => flags.tc,
        HeaderFlag::RecursionDesired => flags.rd,
        HeaderFlag::RecursionAvailable => flags.ra,
        HeaderFlag::AuthenticData => flags.ad,
        HeaderFlag::CheckingDisabled => flags.cd,
    }
}

/// `flags` with `f` set to `v`.
pub open spec fn with_flag(flags: HeaderFlags, f: HeaderFlag, v: bool) -> HeaderFlags {
    match f {
        HeaderFlag::QueryRespone => HeaderFlags { qr: v, ..flags },
        HeaderFlag::AuthAnswer => HeaderFlags { aa: v, ..flags },
        HeaderFlag::Truncation => HeaderFlags { tc: v, ..flags },
        HeaderFlag::RecursionDesired => HeaderFlags { rd: v, ..flags },
        HeaderFlag::RecursionAvailable => HeaderFlags { ra: v, ..flags },
        HeaderFlag::AuthenticData => HeaderFlags { ad: v, ..flags },
        HeaderFlag::CheckingDisabled => HeaderFlags { cd: v, ..flags },
    }
}

/// The kind of a message.
#[derive(Clone, Copy, Debug, PartialEq, Eq, Structural)]
pub enum Opcode {
    Query,
    IQuery,
    Status,
    Notify,
    Update,
    Reserved(u8),
}

/// The response code of a message.
#[derive(Clone, Copy, Debug, PartialEq, Eq, Structural)]
pub enum Rcode {
    NoError,
    FormErr,
    ServFail,
    NXDomain,
    NotImp,
    Refused,
    YXDomain,
    YXRRset,
    NXRRset,
    NotAuth,
    NotZone,
    Reserved(u16),
}

/// The header of a message. The record counts are those of the sections.
#[derive(Clone, Copy, Debug, PartialEq, Eq, Structural)]
pub struct Header {
    pub id: u16,
    pub flags: HeaderFlags,
    pub opcode: Opcode,
    pub rcode: Rcode,
}

/// The question of a message.
#[derive(Debug)]
pub struct Question {
    pub name: Name,
    pub typ: RRType,
}

/// A section of a message.
#[derive(Clone, Copy, Debug, PartialEq, Eq, Structural)]
pub enum SectionType {
    Answer,
    Authority,
    Additional,
}

/// A DNS message.
#[derive(Debug)]
pub struct Message {
    pub header: Header,
    pub question: Option<Question>,
    pub answer: Vec<RRset>,
    pub authority: Vec<RRset>,
    pub additional: Vec<RRset>,
}

/// The abstract value of a message.
pub struct MessageV {
    pub header: Header,
    pub question: Option<(Seq<Seq<u8>>, RRType)>,
    pub answer: Seq<RRsetV>,
    pub authority: Seq<RRsetV>,
    pub additional: Seq<RRsetV>,
}

impl View for Message {
    type V = MessageV;

    open spec fn view(&self) -> MessageV {
        MessageV {
            header: self.header,
            question: match self.question {
                Some(q) => Some((q.name@, q.typ)),
                None => None,
            },
            answer: rrsets_view(self.answer@),
            authority: rrsets_view(self.authority@),
            additional: rrsets_view(self.additional@),
        }
    }
}

/// The record sets of section `s` of `m`.
pub open spec fn section_of(m: MessageV, s: SectionType) -> Seq<RRsetV> {
    match s {
        SectionType::Answer => m.answer,
        SectionType::Authority => m.authority,
        SectionType::Additional => m.additional,
    }
}

/// The number of records in record sets `s`.
pub open spec fn rr_count(s: Seq<RRsetV>) -> nat
    decreases s.len(),
{
    if s.len() == 0 {
        0
    } else {
        rr_count(s.drop_last()) + s.last().rdatas.len()
    }
}

/// A query message for `name` and `typ`, with no flags set.
pub open spec fn query_message(name: Seq<Seq<u8>>, typ: RRType) -> MessageV {
    MessageV {
        header: Header {
            id: 0,
            flags: HeaderFlags { qr: false, aa: false, tc: false, rd: false, ra: false, ad: false, cd: false },
            opcode: Opcode::Query,
            rcode: Rcode::NoError,
        },
        question: Some((name, typ)),
        answer: Seq::empty(),
        authority: Seq::empty(),
        additional: Seq::empty(),
    }
}

impl Message {
    /// A query for `name` and `typ`: id 0, no flags, opcode Query, no records.
    pub fn with_query(name: Name, typ: RRType) -> (r: Message)
        ensures
            r@ == query_message(name@, typ),
    {
        let r = Message {
            header: Header {
                id: 0,
                flags: HeaderFlags { qr: false, aa: false, tc: false, rd: false, ra: false, ad: false, cd: false },
                opcode: Opcode::Query,
                rcode: Rcode::NoError,
            },
            question: Some(Question { name, typ }),
            answer: Vec::new(),
            authority: Vec::new(),
            additional: Vec::new(),
        };
        proof {
            assert(r@.answer =~= Seq::<RRsetV>::empty());
            assert(r@.authority =~= Seq::<RRsetV>::empty());
            assert(r@.additional =~= Seq::<RRsetV>::empty());
        }
        r
    }

    /// An independent copy of this message.
    pub fn copy(&self) -> (r: Message)
        ensures
            r@ == self@,
    {
        Message {
            header: self.header,
            question: match &self.question {
                Some(q) => Some(Question { name: q.name.copy(), typ: q.typ }),
                None => None,
            },
            answer: copy_rrsets(&self.answer),
            authority: copy_rrsets(&self.authority),
            additional: copy_rrsets(&self.additional),
        }
    }

    /// Whether flag `f` is set.
    pub fn is_flag_set(&self, f: HeaderFlag) -> (r: bool)
        ensures
            r == flag_of(self.header.flags, f),
    {
        let fl = self.header.flags;
        match f {
            HeaderFlag::QueryRespone => fl.qr,
            HeaderFlag::AuthAnswer => fl.aa,
            HeaderFlag::Truncation => fl.tc,
            HeaderFlag::RecursionDesired => fl.rd,
            HeaderFlag::RecursionAvailable => fl.ra,
            HeaderFlag::AuthenticData => fl.ad,
            HeaderFlag::CheckingDisabled => fl.cd,
        }
    }

    /// Sets flag `f` to `v`.
    pub fn set_flag_to(&mut self, f: HeaderFlag, v: bool)
        ensures
            final(self)@ == (MessageV {
                header: Header { flags: with_flag(old(self)@.header.flags, f, v), ..old(self)@.header },
                ..old(self)@
            }),
    {
        let mut fl = self.header.flags;
        match f {
            HeaderFlag::QueryRespone => fl.qr = v,
            HeaderFlag::AuthAnswer => fl.aa = v,
            HeaderFlag::Truncation => fl.tc = v,
            HeaderFlag::RecursionDesired => fl.rd = v,
            HeaderFlag::RecursionAvailable => fl.ra = v,
            HeaderFlag::AuthenticData => fl.ad = v,
            HeaderFlag::CheckingDisabled => fl.cd = v,
        }
        self.header.flags = fl;
    }

    /// Sets flag `f`.
    pub fn set_flag(&mut self, f: HeaderFlag)
        ensures
            final(self)@ == (MessageV {
                header: Header { flags: with_flag(old(self)@.header.flags, f, true), ..old(self)@.header },
                ..old(self)@
            }),
    {
        self.set_flag_to(f, true);
    }

    /// Clears flag `f`.
    pub fn clear_flag(&mut self, f: HeaderFlag)
        ensures
            final(self)@ == (MessageV {
                header: Header { flags: with_flag(old(self)@.header.flags, f, false), ..old(self)@.header },
                ..old(self)@
            }),
    {
        self.set_flag_to(f, false);
    }

    /// Turns the message into a response: sets the QR flag.
    pub fn make_response(&mut self)
        ensures
            final(self)@ == (MessageV {
                header: Header { flags: HeaderFlags { qr: true, ..old(self)@.header.flags }, ..old(self)@.header },
                ..old(self)@
            }),
    {
        self.header.flags.qr = true;
    }

    /// Sets the response code.
    pub fn set_rcode(&mut self, rcode: Rcode)
        ensures
            final(self)@ == (MessageV { header: Header { rcode: rcode, ..old(self)@.header }, ..old(self)@ }),
    {
        self.header.rcode = rcode;
    }

    /// Appends a record set to the answer section.
    pub fn add_answer(&mut self, rrset: RRset)
        ensures
            final(self)@ == (MessageV { answer: old(self)@.answer.push(rrset@), ..old(self)@ }),
    {
        proof {
            lemma_rrsets_view_push(self.answer@, rrset);
        }
        self.answer.push(rrset);
    }

    /// Appends a record set to the authority section.
    pub fn add_auth(&mut self, rrset: RRset)
        ensures
            final(self)@ == (MessageV { authority: old(self)@.authority.push(rrset@), ..old(self)@ }),
    {
        proof {
            lemma_rrsets_view_push(self.authority@, rrset);
        }
        self.authority.push(rrset);
    }

    /// Appends a record set to the additional section.
    pub fn add_additional(&mut self, rrset: RRset)
        ensures
            final(self)@ == (MessageV { additional: old(self)@.additional.push(rrset@), ..old(self)@ }),
    {
        proof {
            lemma_rrsets_view_push(self.additional@, rrset);
        }
        self.additional.push(rrset);
    }

    /// The record sets of a section.
    pub fn section(&self, s: SectionType) -> (r: &Vec<RRset>)
        ensures
            rrsets_view(r@) == section_of(self@, s),
    {
        match s {
            SectionType::Answer => &self.answer,
            SectionType::Authority => &self.authority,
            SectionType::Additional => &self.additional,
        }
    }

    /// Takes the record sets out of a section, leaving it empty.
    pub fn take_section(&mut self, s: SectionType) -> (r: Vec<RRset>)
        ensures
            rrsets_view(r@) == section_of(old(self)@, s),
            final(self)@.header == old(self)@.header,
            final(self)@.question == old(self)@.question,
            forall|t: SectionType| #[trigger] section_of(final(self)@, t) == if t == s {
                Seq::<RRsetV>::empty()
            } else {
                section_of(old(self)@, t)
            },
    {
        let mut r: Vec<RRset> = Vec::new();
        match s {
            SectionType::Answer => std::mem::swap(&mut self.answer, &mut r),
            SectionType::Authority => std::mem::swap(&mut self.authority, &mut r),
            SectionType::Additional => std::mem::swap(&mut self.additional, &mut r),
        }
        proof {
            assert(rrsets_view(Seq::<RRset>::empty()) =~= Seq::<RRsetV>::empty());
        }
        r
    }

    /// The number of records in a section.
    pub fn rr_count_of(&self, s: SectionType) -> (r: usize)
        ensures
            rr_count(section_of(self@, s)) <= usize::MAX ==> r == rr_count(section_of(self@, s)),
            rr_count(section_of(self@, s)) > usize::MAX ==> r == usize::MAX,
    {
        let v = self.section(s);
        let ghost sv = section_of(self@, s);
        let mut total: usize = 0;
        let mut i: usize = 0;
        while i < v.len()
            invariant
                i <= v.len(),
                sv == rrsets_view(v@),
                sv.len() == v.len(),
                rr_count(sv.subrange(0, i as int)) <= usize::MAX ==> total == rr_count(sv.subrange(0, i as int)),
                rr_count(sv.subrange(0, i as int)) > usize::MAX ==> total == usize::MAX,
            decreases v.len() - i,
        {
            proof {
                assert(sv.subrange(0, i + 1).drop_last() =~= sv.subrange(0, i as int));
                assert(sv.subrange(0, i + 1).last() == sv[i as int]);
                assert(sv[i as int].rdatas.len() == v@[i as int].rdatas@.len());
            }
            total = total.saturating_add(v[i].rdatas.len());
            i = i + 1;
        }
        proof {
            assert(sv.subrange(0, sv.len() as int) =~= sv);
        }
        total
    }
}

} // verus!
