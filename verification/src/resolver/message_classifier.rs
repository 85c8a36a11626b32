//! Classifying the response to a query sent to an authoritative server.
use crate::message::{MessageV, Message, Opcode, Rcode, HeaderFlag};
use crate::name::Name;
use crate::rr::{RData, RDataV, RRType, RRsetV};
use vstd::prelude::*;

verus! {

/// Why a response is not usable.
#[derive(Clone, Copy, Debug, PartialEq, Eq, Structural)]
pub enum InvalidReason {
    /// "not response message"
    NotResponse,
    /// "not a query message"
    NotQuery,
    /// "short of question"
    ShortOfQuestion,
    /// "question doesn't match"
    QuestionMismatch,
    /// "invalid rcode"
    InvalidRcode,
    /// "empty response"
    EmptyResponse,
    /// "answer name doesn't match question"
    AnswerNameMismatch,
    /// "cname doesn't have one rdata"
    CNameRdataCount,
    /// "answer type doesn't match question"
    AnswerTypeMismatch,
    /// "cname doesn't form a chain"
    NotChain,
    /// "cname chain is broken"
    ChainBroken,
}

/// What a response to a query says.
#[derive(Debug, PartialEq, Eq)]
pub enum ResponseCategory {
    /// The answer to the question.
    Answer,
    /// The answer, reached through a chain of CNAMEs.
    AnswerCName,
    /// A CNAME chain ending at this name, without its answer.
    CName(Name),
    /// The name does not exist.
    NXDomain,
    /// The name has no records of the type.
    NXRRset,
    /// A referral to servers closer to the name.
    Referral,
    /// Not a usable response.
    Invalid(InvalidReason),
}

/// The abstract value of a category.
pub enum CategoryV {
    Answer,
    AnswerCName,
    CName(Seq<Seq<u8>>),
    NXDomain,
    NXRRset,
    Referral,
    Invalid(InvalidReason),
}

impl View for ResponseCategory {
    type V = CategoryV;

    open spec fn view(&self) -> CategoryV {
        match self {
            ResponseCategory::Answer => CategoryV::Answer,
            ResponseCategory::AnswerCName => CategoryV::AnswerCName,
            ResponseCategory::CName(n) => CategoryV::CName(n@),
            ResponseCategory::NXDomain => CategoryV::NXDomain,
            ResponseCategory::NXRRset => CategoryV::NXRRset,
            ResponseCategory::Referral => CategoryV::Referral,
            ResponseCategory::Invalid(r) => CategoryV::Invalid(*r),
        }
    }
}

/// The target of a CNAME record.
pub open spec fn cname_target(rd: RDataV) -> Option<Seq<Seq<u8>>> {
    match rd {
        RDataV::CName(n) => Some(n),
        _ => None,
    }
}

/// Some record set of `auth` is of type NS.
pub open spec fn has_ns(auth: Seq<RRsetV>) -> bool {
    exists|i: int| 0 <= i < auth.len() && auth[i].typ == RRType::NS
}

/// The category of a CNAME record set ending a chain or standing alone.
pub open spec fn cname_end(r: RRsetV) -> Option<CategoryV> {
    if r.rdatas.len() != 1 {
        Some(CategoryV::Invalid(InvalidReason::CNameRdataCount))
    } else {
        match cname_target(r.rdatas[0]) {
            Some(n) => Some(CategoryV::CName(n)),
            None => None,
        }
    }
}

/// Checks the answers from position `i` on as a CNAME chain from `last`.
/// `None` where a CNAME record set holds record data of another kind.
pub open spec fn chain_from(ans: Seq<RRsetV>, typ: RRType, last: Seq<Seq<u8>>, i: int) -> Option<CategoryV>
    decreases ans.len() - i,
{
    if i < 0 || i >= ans.len() {
        None
    } else {
        let r = ans[i];
        if r.name != last {
            Some(CategoryV::Invalid(InvalidReason::NotChain))
        } else if i != ans.len() - 1 {
            if r.typ != RRType::CNAME {
                Some(CategoryV::Invalid(InvalidReason::ChainBroken))
            } else if r.rdatas.len() != 1 {
                Some(CategoryV::Invalid(InvalidReason::CNameRdataCount))
            } else {
                match cname_target(r.rdatas[0]) {
                    Some(n) => chain_from(ans, typ, n, i + 1),
                    None => None,
                }
            }
        } else if r.typ == RRType::CNAME {
            cname_end(r)
        } else if r.typ != typ {
            Some(CategoryV::Invalid(InvalidReason::AnswerTypeMismatch))
        } else {
            Some(CategoryV::AnswerCName)
        }
    }
}

/// The category of response `m` to the question `name`, `typ`. `None`
/// where a CNAME record set that is read holds record data of another kind.
pub open spec fn classify_spec(name: Seq<Seq<u8>>, typ: RRType, m: MessageV) -> Option<CategoryV> {
    if !m.header.flags.qr {
        Some(CategoryV::Invalid(InvalidReason::NotResponse))
    } else if m.header.opcode != Opcode::Query {
        Some(CategoryV::Invalid(InvalidReason::NotQuery))
    } else if m.question is None {
        Some(CategoryV::Invalid(InvalidReason::ShortOfQuestion))
    } else if m.question.unwrap().0 != name || m.question.unwrap().1 != typ {
        Some(CategoryV::Invalid(InvalidReason::QuestionMismatch))
    } else if m.header.rcode != Rcode::NoError {
        if m.header.rcode == Rcode::NXDomain {
            Some(CategoryV::NXDomain)
        } else {
            Some(CategoryV::Invalid(InvalidReason::InvalidRcode))
        }
    } else if m.answer.len() == 0 {
        if m.authority.len() == 0 {
            Some(CategoryV::Invalid(InvalidReason::EmptyResponse))
        } else if has_ns(m.authority) {
            Some(CategoryV::Referral)
        } else {
            Some(CategoryV::NXRRset)
        }
    } else if m.answer.len() == 1 {
        let a = m.answer[0];
        if a.name != name {
            Some(CategoryV::Invalid(InvalidReason::AnswerNameMismatch))
        } else if a.typ == typ {
            Some(CategoryV::Answer)
        } else if a.typ == RRType::CNAME {
            cname_end(a)
        } else {
            Some(CategoryV::Invalid(InvalidReason::AnswerTypeMismatch))
        }
    } else {
        chain_from(m.answer, typ, name, 0)
    }
}

/// The target of a CNAME record.
fn get_cname_target(rdata: &RData) -> (r: &Name)
    requires
        cname_target(rdata@) is Some,
    ensures
        Some(r@) == cname_target(rdata@),
{
    match rdata {
        RData::CName(n) => n,
        _ => vstd::pervasive::unreached(),
    }
}

/// Classifies `msg` as a response to the question `name`, `typ`.
pub fn classify_response(name: &Name, typ: RRType, msg: &Message) -> (r: ResponseCategory)
    requires
        classify_spec(name@, typ, msg@) is Some,
    ensures
        Some(r@) == classify_spec(name@, typ, msg@),
{
    if !msg.is_flag_set(HeaderFlag::QueryRespone) {
        return ResponseCategory::Invalid(InvalidReason::NotResponse);
    }
    if msg.header.opcode != Opcode::Query {
        return ResponseCategory::Invalid(InvalidReason::NotQuery);
    }
    let question = match &msg.question {
        None => {
            return ResponseCategory::Invalid(InvalidReason::ShortOfQuestion);
        },
        Some(q) => q,
    };
    if !question.name.eq_name(name) || question.typ != typ {
        return ResponseCategory::Invalid(InvalidReason::QuestionMismatch);
    }
    let rcode = msg.header.rcode;
    if rcode != Rcode::NoError {
        if rcode == Rcode::NXDomain {
            return ResponseCategory::NXDomain;
        } else {
            return ResponseCategory::Invalid(InvalidReason::InvalidRcode);
        }
    }
    if msg.answer.len() == 0 {
        if msg.authority.len() == 0 {
            return ResponseCategory::Invalid(InvalidReason::EmptyResponse);
        }
        proof {
            assert(classify_spec(name@, typ, msg@) == (if has_ns(msg@.authority) {
                Some(CategoryV::Referral)
            } else {
                Some(CategoryV::NXRRset)
            }));
        }
        let mut i: usize = 0;
        while i < msg.authority.len()
            invariant
                classify_spec(name@, typ, msg@) == (if has_ns(msg@.authority) {
                    Some(CategoryV::Referral)
                } else {
                    Some(CategoryV::NXRRset)
                }),
                i <= msg.authority.len(),
                msg@.authority.len() == msg.authority.len(),
                forall|j: int| 0 <= j < i ==> msg@.authority[j].typ != RRType::NS,
            decreases msg.authority.len() - i,
        {
            if msg.authority[i].typ == RRType::NS {
                proof {
                    assert(msg@.authority[i as int].typ == RRType::NS);
                }
                return ResponseCategory::Referral;
            }
            proof {
                assert(msg@.authority[i as int].typ == msg.authority@[i as int].typ);
            }
            i = i + 1;
        }
        return ResponseCategory::NXRRset;
    }
    if msg.answer.len() == 1 {
        let a = &msg.answer[0];
        proof {
            assert(msg@.answer[0] == a@);
        }
        if !a.name.eq_name(name) {
            return ResponseCategory::Invalid(InvalidReason::AnswerNameMismatch);
        }
        if a.typ == typ {
            return ResponseCategory::Answer;
        } else if a.typ == RRType::CNAME {
            if a.rdatas.len() != 1 {
                return ResponseCategory::Invalid(InvalidReason::CNameRdataCount);
            }
            proof {
                assert(a@.rdatas[0] == a.rdatas@[0]@);
            }
            return ResponseCategory::CName(get_cname_target(&a.rdatas[0]).copy());
        } else {
            return ResponseCategory::Invalid(InvalidReason::AnswerTypeMismatch);
        }
    }
    let ghost ans = msg@.answer;
    proof {
        assert(classify_spec(name@, typ, msg@) == chain_from(ans, typ, name@, 0));
    }
    let mut last_name: &Name = name;
    let answer_count = msg.answer.len();
    let mut i: usize = 0;
    while i < answer_count
        invariant
            answer_count == msg.answer.len(),
            answer_count >= 2,
            ans == msg@.answer,
            ans.len() == answer_count,
            i < answer_count,
            chain_from(ans, typ, name@, 0) == chain_from(ans, typ, last_name@, i as int),
            chain_from(ans, typ, name@, 0) is Some,
            classify_spec(name@, typ, msg@) == chain_from(ans, typ, name@, 0),
        decreases answer_count - i,
    {
        let rrset = &msg.answer[i];
        proof {
            assert(ans[i as int] == rrset@);
        }
        if !rrset.name.eq_name(last_name) {
            return ResponseCategory::Invalid(InvalidReason::NotChain);
        }
        if i != answer_count - 1 {
            if rrset.typ != RRType::CNAME {
                return ResponseCategory::Invalid(InvalidReason::ChainBroken);
            }
            if rrset.rdatas.len() != 1 {
                return ResponseCategory::Invalid(InvalidReason::CNameRdataCount);
            }
            proof {
                assert(rrset@.rdatas[0] == rrset.rdatas@[0]@);
            }
            last_name = get_cname_target(&rrset.rdatas[0]);
        } else {
            if rrset.typ == RRType::CNAME {
                if rrset.rdatas.len() != 1 {
                    return ResponseCategory::Invalid(InvalidReason::CNameRdataCount);
                }
                proof {
                    assert(rrset@.rdatas[0] == rrset.rdatas@[0]@);
                }
                return ResponseCategory::CName(get_cname_target(&rrset.rdatas[0]).copy());
            } else if rrset.typ != typ {
                return ResponseCategory::Invalid(InvalidReason::AnswerTypeMismatch);
            } else {
                return ResponseCategory::AnswerCName;
            }
        }
        i = i + 1;
    }
    proof {
        assert(false);
    }
    ResponseCategory::AnswerCName
}

/// A chain of CNAMEs answers with a CNAME to follow, a final answer through
/// the chain, or an invalid response, never anything else.
pub proof fn lemma_chain_kinds(ans: Seq<RRsetV>, typ: RRType, last: Seq<Seq<u8>>, i: int)
    ensures
        chain_from(ans, typ, last, i) matches Some(k) ==> k is Invalid || k is CName || k is AnswerCName,
    decreases ans.len() - i,
{
    if 0 <= i < ans.len() && ans[i].name == last && i != ans.len() - 1 && ans[i].typ == RRType::CNAME && ans[i].rdatas.len() == 1 {
        match cname_target(ans[i].rdatas[0]) {
            Some(n) => lemma_chain_kinds(ans, typ, n, i + 1),
            None => {},
        }
    }
}

/// A well-formed response to the question, without error and with an empty
/// answer but some authority data, is a referral exactly when some
/// authority record set is an NS set, and otherwise says the name has no
/// data of the type asked.
pub proof fn lemma_empty_answer(name: Seq<Seq<u8>>, typ: RRType, m: MessageV)
    requires
        m.header.flags.qr,
        m.header.opcode == Opcode::Query,
        m.question == Some((name, typ)),
        m.header.rcode == Rcode::NoError,
        m.answer.len() == 0,
        m.authority.len() > 0,
    ensures
        (exists|i: int| 0 <= i < m.authority.len() && (#[trigger] m.authority[i]).typ == RRType::NS) ==> classify_spec(name, typ, m)
            == Some(CategoryV::Referral),
        (forall|i: int| 0 <= i < m.authority.len() ==> (#[trigger] m.authority[i]).typ != RRType::NS) ==> classify_spec(name, typ, m)
            == Some(CategoryV::NXRRset),
{
}

/// A response that is not a response, not to a standard query, or not to
/// the question asked is invalid. For a well-formed response to the
/// question: the code "no such name" makes it a "no such name" answer, any
/// other error code makes it invalid; without error, a single answer set of
/// the name and the type asked is an answer, and a single answer set of the
/// name of another type than the asked type or CNAME is invalid.
pub proof fn lemma_response_kinds(name: Seq<Seq<u8>>, typ: RRType, m: MessageV)
    ensures
        !m.header.flags.qr || m.header.opcode != Opcode::Query || m.question != Some((name, typ)) ==> (classify_spec(name, typ, m)
            matches Some(k) && k is Invalid),
        m.header.flags.qr && m.header.opcode == Opcode::Query && m.question == Some((name, typ)) ==> {
            &&& m.header.rcode == Rcode::NXDomain ==> classify_spec(name, typ, m) == Some(CategoryV::NXDomain)
            &&& m.header.rcode != Rcode::NXDomain && m.header.rcode != Rcode::NoError ==> (classify_spec(name, typ, m) matches Some(k)
                && k is Invalid)
            &&& m.header.rcode == Rcode::NoError && m.answer.len() == 1 && m.answer[0].name == name && m.answer[0].typ == typ
                ==> classify_spec(name, typ, m) == Some(CategoryV::Answer)
            &&& m.header.rcode == Rcode::NoError && m.answer.len() == 1 && m.answer[0].name == name && m.answer[0].typ != typ
                && m.answer[0].typ != RRType::CNAME ==> (classify_spec(name, typ, m) matches Some(k) && k is Invalid)
        },
{
}

} // verus!
