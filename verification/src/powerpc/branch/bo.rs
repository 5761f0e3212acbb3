use vstd::prelude::*;

use crate::powerpc::branch::condition_behavior::ConditionBehavior;
use crate::powerpc::branch::ctr_behavior::CtrBehavior;
use crate::powerpc::condition::condition_bit::ConditionBit;

verus! {

/// The 'bo' instruction field as defined in the PowerPC manual.
pub struct Bo(pub(crate) u32);

impl Bo {
    /// The field's value.
    pub open(crate) spec fn value(self) -> u32 {
        self.0
    }

    /// What a branch with `BO = bo` does with the count register. Bit `0x04`
    /// set: nothing. Else it decrements it, and branches on zero if bit
    /// `0x02` is set, on nonzero if not.
    pub open spec fn ctr_of(bo: u32) -> CtrBehavior {
        if bo & 0x04 != 0 {
            CtrBehavior::Untouched
        } else if bo & 0x02 != 0 {
            CtrBehavior::DecrementBranchZero
        } else {
            CtrBehavior::DecrementBranchNonzero
        }
    }

    /// What a branch with `BO = bo` does with the bit `condition`. Bit `0x10`
    /// set: nothing. Else it branches if the bit is set where bit `0x08` is
    /// set, and if it is clear where not.
    pub open spec fn condition_of(bo: u32, condition: ConditionBit) -> ConditionBehavior {
        if bo & 0x10 != 0 {
            ConditionBehavior::BranchAlways
        } else if bo & 0x08 != 0 {
            ConditionBehavior::BranchTrue(condition)
        } else {
            ConditionBehavior::BranchFalse(condition)
        }
    }

    pub fn new(x: u32) -> (r: Bo)
        ensures
            r.value() == x,
    {
        Bo(x)
    }

    pub fn ctr(self) -> (r: CtrBehavior)
        ensures
            r == Bo::ctr_of(self.value()),
    {
        let x = self.0;
        assert(x & 0x06 == 0x00 || x & 0x06 == 0x02 || x & 0x06 == 0x04 || x & 0x06 == 0x06)
            by (bit_vector);
        assert((x & 0x04 != 0) == (x & 0x06 == 0x04 || x & 0x06 == 0x06)) by (bit_vector);
        assert((x & 0x02 != 0) == (x & 0x06 == 0x02 || x & 0x06 == 0x06)) by (bit_vector);
        match self.0 & 0x06 {
            0x00 => CtrBehavior::DecrementBranchNonzero,
            0x02 => CtrBehavior::DecrementBranchZero,
            _ => CtrBehavior::Untouched,
        }
    }

    pub fn modify_condition(self, condition: ConditionBit) -> (r: ConditionBehavior)
        ensures
            r == Bo::condition_of(self.value(), condition),
    {
        let x = self.0;
        assert(x & 0x18 == 0x00 || x & 0x18 == 0x08 || x & 0x18 == 0x10 || x & 0x18 == 0x18)
            by (bit_vector);
        assert((x & 0x10 != 0) == (x & 0x18 == 0x10 || x & 0x18 == 0x18)) by (bit_vector);
        assert((x & 0x08 != 0) == (x & 0x18 == 0x08 || x & 0x18 == 0x18)) by (bit_vector);
        match self.0 & 0x18 {
            0x00 => ConditionBehavior::BranchFalse(condition),
            0x08 => ConditionBehavior::BranchTrue(condition),
            _ => ConditionBehavior::BranchAlways,
        }
    }
}

} // verus!
