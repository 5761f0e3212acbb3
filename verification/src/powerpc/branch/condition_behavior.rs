use vstd::prelude::*;

use crate::powerpc::condition::condition_bit::ConditionBit;
use crate::powerpc::register::crf::Crf;

verus! {

/// Branch instruction behavior for a condition register bit.
#[derive(Clone, Copy, Debug, PartialEq, Eq, Structural)]
pub enum ConditionBehavior {
    BranchFalse(ConditionBit),
    BranchTrue(ConditionBit),
    BranchAlways,
}

impl ConditionBehavior {
    /// The bit that the branch tests, if it tests one.
    pub open spec fn bit(self) -> Option<ConditionBit> {
        match self {
            ConditionBehavior::BranchFalse(c) => Some(c),
            ConditionBehavior::BranchTrue(c) => Some(c),
            ConditionBehavior::BranchAlways => None,
        }
    }

    /// The condition register field of the bit that the branch tests.
    pub fn crf(self) -> (r: Option<Crf>)
        ensures
            r is Some <==> self.bit() is Some,
            r is Some ==> r->0.index() == self.bit()->0.index() / 4,
    {
        match self {
            ConditionBehavior::BranchFalse(c) => Some(c.crf()),
            ConditionBehavior::BranchTrue(c) => Some(c.crf()),
            ConditionBehavior::BranchAlways => None,
        }
    }
}

} // verus!
