//! How far a cached record set can be trusted.
use vstd::prelude::*;

verus! {

/// The trust level of a cached record set, from the least to the most trusted.
#[derive(Clone, Copy, Debug, PartialEq, Eq, Structural, PartialOrd, Ord)]
pub enum RRsetTrustLevel {
    Default,
    AdditionalWithoutAA,
    AuthorityWithoutAA,
    AdditionalWithAA,
    NonAuthAnswerWithAA,
    AnswerWithoutAA,
    PrimGlue,
    AuthorityWithAA,
    AnswerWithAA,
    PrimNonGlue,
}

/// The position of a trust level in the order of trust.
pub open spec fn trust_rank(t: RRsetTrustLevel) -> nat {
    match t {
        RRsetTrustLevel::Default => 0,
        RRsetTrustLevel::AdditionalWithoutAA => 1,
        RRsetTrustLevel::AuthorityWithoutAA => 2,
        RRsetTrustLevel::AdditionalWithAA => 3,
        RRsetTrustLevel::NonAuthAnswerWithAA => 4,
        RRsetTrustLevel::AnswerWithoutAA => 5,
        RRsetTrustLevel::PrimGlue => 6,
        RRsetTrustLevel::AuthorityWithAA => 7,
        RRsetTrustLevel::AnswerWithAA => 8,
        RRsetTrustLevel::PrimNonGlue => 9,
    }
}

impl RRsetTrustLevel {
    /// The position of this level in the order of trust.
    pub fn rank(self) -> (r: u8)
        ensures
            r == trust_rank(self),
    {
        match self {
            RRsetTrustLevel::Default => 0,
            RRsetTrustLevel::AdditionalWithoutAA => 1,
            RRsetTrustLevel::AuthorityWithoutAA => 2,
            RRsetTrustLevel::AdditionalWithAA => 3,
            RRsetTrustLevel::NonAuthAnswerWithAA => 4,
            RRsetTrustLevel::AnswerWithoutAA => 5,
            RRsetTrustLevel::PrimGlue => 6,
            RRsetTrustLevel::AuthorityWithAA => 7,
            RRsetTrustLevel::AnswerWithAA => 8,
            RRsetTrustLevel::PrimNonGlue => 9,
        }
    }

    /// Whether this level is trusted more than `other`.
    pub fn is_above(self, other: RRsetTrustLevel) -> (r: bool)
        ensures
            r == (trust_rank(self) > trust_rank(other)),
    {
        self.rank() > other.rank()
    }
}

} // verus!
