use vstd::prelude::*;

use crate::powerpc::condition::condition::Condition;
use crate::powerpc::register::crf::Crf;

verus! {

/// A bit in the condition register, `0..=31`.
#[derive(Clone, Copy, Debug, PartialEq, Eq, PartialOrd, Ord, Hash, Structural)]
pub struct ConditionBit(pub(crate) u32);

impl ConditionBit {
    #[verifier::type_invariant]
    pub open(crate) spec fn in_range(self) -> bool {
        self.0 < 32
    }

    /// The bit's number.
    pub open(crate) spec fn index(self) -> u32 {
        self.0
    }

    /// The bit with the given number.
    pub open(crate) spec fn of_index(x: u32) -> ConditionBit {
        ConditionBit(x)
    }

    pub fn new(x: u32) -> (r: Option<Self>)
        ensures
            r is Some <==> x < 32,
            r is Some ==> r->0 == ConditionBit::of_index(x) && r->0.index() == x,
    {
        if x < 32 {
            Some(Self(x))
        } else {
            None
        }
    }

    pub fn as_u32(self) -> (r: u32)
        ensures
            r == self.index(),
            r < 32,
    {
        proof {
            use_type_invariant(&self);
        }
        self.0
    }

    /// The bit for `condition` in field `crf`: bit `4 * crf + condition`.
    pub fn from_crf_and_condition(crf: Crf, condition: Condition) -> (r: Self)
        ensures
            r.index() == 4 * crf.index() + condition.index(),
    {
        Self(4 * crf.get() + condition.as_u32())
    }

    /// The field that holds the bit: the bit's number divided by four.
    pub fn crf(self) -> (r: Crf)
        ensures
            r.index() == self.index() / 4,
    {
        proof {
            use_type_invariant(&self);
        }
        Crf(self.0 / 4)
    }

    /// Which bit of its field this is: the bit's number modulo four.
    pub fn bi(self) -> (r: Condition)
        ensures
            r.index() == self.index() % 4,
    {
        proof {
            use_type_invariant(&self);
        }
        match self.0 % 4 {
            0 => Condition::Less,
            1 => Condition::Greater,
            2 => Condition::Equal,
            _ => Condition::SummaryOverflow,
        }
    }
}

} // verus!
