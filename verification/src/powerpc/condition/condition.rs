use vstd::prelude::*;

use crate::powerpc::condition::negative_condition::NegativeCondition;
use crate::powerpc::condition::positive_condition::PositiveCondition;

verus! {

/// One of the four bits of a condition register field.
#[derive(Clone, Copy, Debug, PartialEq, Eq, Structural)]
pub enum Condition {
    Less,
    Greater,
    Equal,
    SummaryOverflow,
}

impl Condition {
    /// The condition at a bit position within a field.
    pub open spec fn of_index(x: u32) -> Condition {
        if x == 0 {
            Condition::Less
        } else if x == 1 {
            Condition::Greater
        } else if x == 2 {
            Condition::Equal
        } else {
            Condition::SummaryOverflow
        }
    }

    /// The bit position of the condition within a field.
    pub open spec fn index(self) -> u32 {
        match self {
            Condition::Less => 0,
            Condition::Greater => 1,
            Condition::Equal => 2,
            Condition::SummaryOverflow => 3,
        }
    }

    pub fn new(x: u32) -> (r: Option<Condition>)
        ensures
            r is Some <==> x < 4,
            r is Some ==> r->0 == Condition::of_index(x) && r->0.index() == x,
    {
        match x {
            0 => Some(Condition::Less),
            1 => Some(Condition::Greater),
            2 => Some(Condition::Equal),
            3 => Some(Condition::SummaryOverflow),
            _ => None,
        }
    }

    pub fn as_u32(self) -> (r: u32)
        ensures
            r == self.index(),
            r < 4,
            Condition::of_index(r) == self,
    {
        match self {
            Condition::Less => 0,
            Condition::Greater => 1,
            Condition::Equal => 2,
            Condition::SummaryOverflow => 3,
        }
    }

    pub fn positive(self) -> (r: PositiveCondition)
        ensures
            r.0 == self,
    {
        PositiveCondition(self)
    }

    pub fn negative(self) -> (r: NegativeCondition)
        ensures
            r.0 == self,
    {
        NegativeCondition(self)
    }
}

} // verus!
