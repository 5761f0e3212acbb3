use vstd::prelude::*;

use crate::powerpc::register::gpr::Gpr;

verus! {

/// One of the non-`r0` general-purpose registers, `r1..=r31`.
#[derive(Clone, Copy, Debug, PartialEq, Eq, PartialOrd, Ord, Hash, Structural)]
pub struct NonZeroGpr(pub(crate) u32);

impl NonZeroGpr {
    #[verifier::type_invariant]
    pub open(crate) spec fn in_range(self) -> bool {
        0 < self.0 < 32
    }

    /// The register's number.
    pub open(crate) spec fn index(self) -> u32 {
        self.0
    }

    /// The register with the given number.
    pub open(crate) spec fn of_index(x: u32) -> NonZeroGpr {
        NonZeroGpr(x)
    }

    /// The same register as a [`Gpr`].
    pub open(crate) spec fn gpr(self) -> Gpr {
        Gpr(self.0)
    }

    pub fn new(x: u32) -> (r: Option<NonZeroGpr>)
        ensures
            r is Some <==> 0 < x < 32,
            r is Some ==> r->0 == NonZeroGpr::of_index(x) && r->0.index() == x,
    {
        if x > 0 && x < 32 {
            Some(NonZeroGpr(x))
        } else {
            None
        }
    }

    pub fn as_gpr(self) -> (r: Gpr)
        ensures
            r == self.gpr(),
            r.index() == self.index(),
    {
        proof {
            use_type_invariant(&self);
        }
        Gpr(self.0)
    }

    pub fn as_u32(self) -> (r: u32)
        ensures
            r == self.index(),
            0 < r < 32,
    {
        proof {
            use_type_invariant(&self);
        }
        self.0
    }
}

} // verus!
