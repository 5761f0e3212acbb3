use vstd::prelude::*;

verus! {

/// One of the general-purpose registers, `r0..=r31`.
#[derive(Clone, Copy, Debug, PartialEq, Eq, PartialOrd, Ord, Hash, Structural)]
pub struct Gpr(pub(crate) u32);

impl Gpr {
    #[verifier::type_invariant]
    pub open(crate) spec fn in_range(self) -> bool {
        self.0 < 32
    }

    /// The register's number.
    pub open(crate) spec fn index(self) -> u32 {
        self.0
    }

    /// The register with the given number.
    pub open(crate) spec fn of_index(x: u32) -> Gpr {
        Gpr(x)
    }

    pub fn new(x: u32) -> (r: Option<Gpr>)
        ensures
            r is Some <==> x < 32,
            r is Some ==> r->0 == Gpr::of_index(x) && r->0.index() == x,
    {
        if x < 32 {
            Some(Gpr(x))
        } else {
            None
        }
    }

    pub fn as_u32(self) -> (r: u32)
        ensures
            r == self.index(),
            r < 32,
    {
        proof {
            use_type_invariant(&self);
        }
        self.0
    }
}

} // verus!
