use vstd::prelude::*;
use vstd::std_specs::convert::FromSpecImpl;

use crate::powerpc::register::non_zero_gpr::NonZeroGpr;

verus! {

/// Either zero or one of the general-purpose registers, `r1..=r31`.
///
/// Typeset in the PowerPC manual as (*r*X|0) for some letter X.
#[derive(Clone, Copy, Debug, PartialEq, Eq, PartialOrd, Ord, Hash, Structural)]
pub enum GprOrZero {
    Zero,
    Gpr(NonZeroGpr),
}

impl GprOrZero {
    /// The operand that a five-bit field value encodes.
    pub open spec fn of_index(x: u32) -> GprOrZero {
        if x == 0 {
            GprOrZero::Zero
        } else {
            GprOrZero::Gpr(NonZeroGpr::of_index(x))
        }
    }

    /// The field value that encodes the operand.
    pub open spec fn index(self) -> u32 {
        match self {
            GprOrZero::Zero => 0,
            GprOrZero::Gpr(gpr) => gpr.index(),
        }
    }

    pub fn new(x: u32) -> (r: Option<GprOrZero>)
        ensures
            r is Some <==> x < 32,
            r is Some ==> r->0 == GprOrZero::of_index(x) && r->0.index() == x,
    {
        if x == 0 {
            Some(GprOrZero::Zero)
        } else {
            match NonZeroGpr::new(x) {
                Some(gpr) => Some(GprOrZero::Gpr(gpr)),
                None => None,
            }
        }
    }

    pub fn is_zero(self) -> (r: bool)
        ensures
            r == (self is Zero),
    {
        match self {
            GprOrZero::Zero => true,
            GprOrZero::Gpr(_) => false,
        }
    }

    pub fn is_gpr(self) -> (r: bool)
        ensures
            r == (self is Gpr),
    {
        match self {
            GprOrZero::Gpr(_) => true,
            GprOrZero::Zero => false,
        }
    }

    pub fn try_unwrap_gpr(self) -> (r: Option<NonZeroGpr>)
        ensures
            r == (match self {
                GprOrZero::Zero => None::<NonZeroGpr>,
                GprOrZero::Gpr(gpr) => Some(gpr),
            }),
    {
        match self {
            GprOrZero::Zero => None,
            GprOrZero::Gpr(gpr) => Some(gpr),
        }
    }

    /// The register of an operand that is known not to be zero.
    pub fn unwrap_gpr(self) -> (r: NonZeroGpr)
        requires
            self is Gpr,
        ensures
            self == GprOrZero::Gpr(r),
    {
        match self {
            GprOrZero::Zero => vstd::pervasive::unreached(),
            GprOrZero::Gpr(gpr) => gpr,
        }
    }

    pub fn as_u32(self) -> (r: u32)
        ensures
            r == self.index(),
            r < 32,
            (r == 0) == (self is Zero),
    {
        match self {
            GprOrZero::Zero => 0,
            GprOrZero::Gpr(gpr) => gpr.as_u32(),
        }
    }
}

impl From<NonZeroGpr> for GprOrZero {
    fn from(gpr: NonZeroGpr) -> (r: GprOrZero) {
        GprOrZero::Gpr(gpr)
    }
}

impl FromSpecImpl<NonZeroGpr> for GprOrZero {
    open spec fn obeys_from_spec() -> bool {
        true
    }

    open spec fn from_spec(gpr: NonZeroGpr) -> GprOrZero {
        GprOrZero::Gpr(gpr)
    }
}

} // verus!
