//! What a response says of itself: whether it is negative, whether it can be
//! cached, and how far the sets of each section are trusted.
use crate::cache::trust_level::RRsetTrustLevel;
use crate::message::{rr_count, Message, MessageV, Rcode, SectionType};
use crate::rr::RRType;
use vstd::prelude::*;

verus! {

/// Whether some set of type `t` is in the authority section of `m`.
pub open spec fn auth_has_type(m: MessageV, t: RRType) -> bool {
    exists|i: int| 0 <= i < m.authority.len() && (#[trigger] m.authority[i]).typ == t
}

/// Whether `m` is a negative response: the name does not exist, or there is
/// no answer and the authority section holds an SOA set or no NS set.
pub open spec fn negative_response(m: MessageV) -> bool {
    ||| m.header.rcode == Rcode::NXDomain
    ||| (m.header.rcode == Rcode::NoError && rr_count(m.answer) == 0 && (auth_has_type(m, RRType::SOA)
        || !auth_has_type(m, RRType::NS)))
}

/// Whether `m` can be cached: a negative response only with an SOA set in
/// its authority section.
pub open spec fn cacheable(m: MessageV) -> bool {
    !(negative_response(m) && !auth_has_type(m, RRType::SOA))
}

/// The trust level of the sets of section `s` of a response whose
/// authoritative-answer flag is `aa`.
pub open spec fn section_trust(aa: bool, s: SectionType) -> RRsetTrustLevel {
    match s {
        SectionType::Answer => if aa {
            RRsetTrustLevel::AnswerWithAA
        } else {
            RRsetTrustLevel::AnswerWithoutAA
        },
        SectionType::Authority => if aa {
            RRsetTrustLevel::AuthorityWithAA
        } else {
            RRsetTrustLevel::AuthorityWithoutAA
        },
        SectionType::Additional => if aa {
            RRsetTrustLevel::AdditionalWithAA
        } else {
            RRsetTrustLevel::AdditionalWithoutAA
        },
    }
}

/// Whether some set of type `typ` is in the authority section.
pub fn has_rrset_with_type_in_auth_sec(message: &Message, typ: RRType) -> (r: bool)
    ensures
        r == auth_has_type(message@, typ),
{
    let sets = &message.authority;
    let mut i: usize = 0;
    while i < sets.len()
        invariant
            i <= sets.len(),
            message@.authority.len() == sets.len(),
            forall|j: int| 0 <= j < sets.len() ==> #[trigger] message@.authority[j] == sets@[j]@,
            forall|j: int| 0 <= j < i ==> (#[trigger] message@.authority[j]).typ != typ,
        decreases sets.len() - i,
    {
        if sets[i].typ == typ {
            proof {
                assert(message@.authority[i as int].typ == typ);
            }
            return true;
        }
        i = i + 1;
    }
    false
}

/// Whether the response is negative.
pub fn is_negative_response(message: &Message) -> (r: bool)
    ensures
        r == negative_response(message@),
{
    match message.header.rcode {
        Rcode::NXDomain => true,
        Rcode::NoError => {
            if message.rr_count_of(SectionType::Answer) == 0 {
                if has_rrset_with_type_in_auth_sec(message, RRType::SOA) {
                    true
                } else {
                    !has_rrset_with_type_in_auth_sec(message, RRType::NS)
                }
            } else {
                false
            }
        },
        _ => false,
    }
}

/// Whether the response can be cached.
pub fn can_message_be_cached(message: &Message) -> (r: bool)
    ensures
        r == cacheable(message@),
{
    !(is_negative_response(message) && !has_rrset_with_type_in_auth_sec(message, RRType::SOA))
}

/// The trust level of the sets of a section of the response.
pub fn get_rrset_trust_level(message: &Message, section: SectionType) -> (r: RRsetTrustLevel)
    ensures
        r == section_trust(message@.header.flags.aa, section),
{
    let aa = message.header.flags.aa;
    match section {
        SectionType::Answer => if aa {
            RRsetTrustLevel::AnswerWithAA
        } else {
            RRsetTrustLevel::AnswerWithoutAA
        },
        SectionType::Authority => if aa {
            RRsetTrustLevel::AuthorityWithAA
        } else {
            RRsetTrustLevel::AuthorityWithoutAA
        },
        SectionType::Additional => if aa {
            RRsetTrustLevel::AdditionalWithAA
        } else {
            RRsetTrustLevel::AdditionalWithoutAA
        },
    }
}

} // verus!
