use vstd::prelude::*;

use crate::powerpc::condition::condition::Condition;
use crate::powerpc::condition::condition_bit::ConditionBit;
use crate::powerpc::register::crf::Crf;

verus! {

pub const LT: Condition = Condition::Less;

pub const GT: Condition = Condition::Greater;

pub const EQ: Condition = Condition::Equal;

pub const SO: Condition = Condition::SummaryOverflow;

/// The condition register field `cr0`, which record forms write.
pub fn cr0() -> (r: Crf)
    ensures
        r.index() == 0,
{
    Crf(0)
}

/// The condition register field `cr1`.
pub fn cr1() -> (r: Crf)
    ensures
        r.index() == 1,
{
    Crf(1)
}

/// The condition register field `cr2`.
pub fn cr2() -> (r: Crf)
    ensures
        r.index() == 2,
{
    Crf(2)
}

/// The condition register field `cr3`.
pub fn cr3() -> (r: Crf)
    ensures
        r.index() == 3,
{
    Crf(3)
}

/// The condition register field `cr4`.
pub fn cr4() -> (r: Crf)
    ensures
        r.index() == 4,
{
    Crf(4)
}

/// The condition register field `cr5`.
pub fn cr5() -> (r: Crf)
    ensures
        r.index() == 5,
{
    Crf(5)
}

/// The condition register field `cr6`.
pub fn cr6() -> (r: Crf)
    ensures
        r.index() == 6,
{
    Crf(6)
}

/// The condition register field `cr7`.
pub fn cr7() -> (r: Crf)
    ensures
        r.index() == 7,
{
    Crf(7)
}

/// The "less than" bit of `cr0`.
pub fn cr0lt() -> (r: ConditionBit)
    ensures
        r.index() == 0,
{
    ConditionBit(0)
}

/// The "greater than" bit of `cr0`.
pub fn cr0gt() -> (r: ConditionBit)
    ensures
        r.index() == 1,
{
    ConditionBit(1)
}

/// The "equal" bit of `cr0`.
pub fn cr0eq() -> (r: ConditionBit)
    ensures
        r.index() == 2,
{
    ConditionBit(2)
}

/// The "summary overflow" bit of `cr0`.
pub fn cr0so() -> (r: ConditionBit)
    ensures
        r.index() == 3,
{
    ConditionBit(3)
}

} // verus!
