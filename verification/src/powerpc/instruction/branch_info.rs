use vstd::prelude::*;

use crate::powerpc::branch::condition_behavior::ConditionBehavior;
use crate::powerpc::branch::ctr_behavior::CtrBehavior;

verus! {

/// What every branch instruction says of itself.
#[derive(Clone, Copy, Debug, PartialEq, Eq, Structural)]
pub struct BranchInfo {
    pub condition: ConditionBehavior,
    pub ctr: CtrBehavior,
    pub link: bool,
    pub target: Option<u32>,
}

impl BranchInfo {
    /// A branch is conditional if it tests a condition bit or the count
    /// register.
    pub open spec fn conditional(self) -> bool {
        !(self.condition is BranchAlways) || !(self.ctr is Untouched)
    }

    /// A branch diverges if control never falls through to the next
    /// instruction: it is unconditional and does not link.
    pub open spec fn divergent(self) -> bool {
        !self.conditional() && !self.link
    }

    pub fn is_conditional(&self) -> (r: bool)
        ensures
            r == self.conditional(),
    {
        let tests_condition = match self.condition {
            ConditionBehavior::BranchFalse(..) | ConditionBehavior::BranchTrue(..) => true,
            ConditionBehavior::BranchAlways => false,
        };
        let tests_ctr = match self.ctr {
            CtrBehavior::DecrementBranchNonzero | CtrBehavior::DecrementBranchZero => true,
            CtrBehavior::Untouched => false,
        };
        tests_condition || tests_ctr
    }

    /// True if the branch is unconditional and not linked.
    pub fn diverges(&self) -> (r: bool)
        ensures
            r == self.divergent(),
    {
        !self.is_conditional() && !self.link
    }
}

} // verus!
