use vstd::prelude::*;

use crate::powerpc::register::gpr::Gpr;

verus! {

/// `r0`, which a call leaves undefined.
pub fn r0() -> (r: Gpr)
    ensures
        r.index() == 0,
{
    Gpr(0)
}

/// `r1`, the stack pointer.
pub fn r1() -> (r: Gpr)
    ensures
        r.index() == 1,
{
    Gpr(1)
}

/// `r3`, the first argument and the return value.
pub fn r3() -> (r: Gpr)
    ensures
        r.index() == 3,
{
    Gpr(3)
}

} // verus!
