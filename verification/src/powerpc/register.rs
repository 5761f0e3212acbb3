use vstd::prelude::*;
use vstd::std_specs::convert::FromSpecImpl;

use crate::powerpc::condition::condition_bit::ConditionBit;
use crate::powerpc::register::gpr::Gpr;
use crate::powerpc::register::gpr_or_zero::GprOrZero;
use crate::powerpc::register::non_zero_gpr::NonZeroGpr;
use crate::powerpc::register::spr::Spr;

pub mod crf;
pub mod gpr;
pub mod gpr_or_zero;
pub mod non_zero_gpr;
pub mod spr;

verus! {

/// Any register that the symbolic executor tracks, or the literal zero that
/// stands in the place of a register in `(rA|0)` operands.
#[derive(Clone, Copy, Debug, PartialEq, Eq, PartialOrd, Ord, Hash, Structural)]
pub enum Register {
    Zero,
    GeneralPurpose(Gpr),
    SpecialPurpose(Spr),
    ConditionBit(ConditionBit),
}

/// Number of distinct codes that [`Register::code`] hands out.
pub const REGISTER_CODES: u32 = 75;

impl Register {
    /// A number that identifies the register: 0 for the literal zero, 1..=32
    /// for `r0..=r31`, 33..=42 for the special-purpose registers and 43..=74
    /// for the condition bits.
    pub open spec fn code(self) -> u32 {
        match self {
            Register::Zero => 0,
            Register::GeneralPurpose(gpr) => (1 + gpr.index()) as u32,
            Register::SpecialPurpose(spr) => (33 + spr.ordinal()) as u32,
            Register::ConditionBit(bit) => (43 + bit.index()) as u32,
        }
    }

    /// Whether every register number held inside is in its range.
    pub open spec fn wf(self) -> bool {
        match self {
            Register::Zero => true,
            Register::GeneralPurpose(gpr) => gpr.index() < 32,
            Register::SpecialPurpose(_) => true,
            Register::ConditionBit(bit) => bit.index() < 32,
        }
    }

    /// The register that a code stands for; the inverse of [`Register::code`].
    pub open spec fn of_code(code: u32) -> Register {
        if code == 0 {
            Register::Zero
        } else if code <= 32 {
            Register::GeneralPurpose(Gpr::of_index((code - 1) as u32))
        } else if code <= 42 {
            Register::SpecialPurpose(Spr::of_ordinal((code - 33) as u32))
        } else {
            Register::ConditionBit(ConditionBit::of_index((code - 43) as u32))
        }
    }

    /// Shows that a register that a program holds is well formed.
    pub fn check(&self)
        ensures
            self.wf(),
    {
        match self {
            Register::Zero => {},
            Register::GeneralPurpose(gpr) => {
                proof {
                    use_type_invariant(gpr);
                }
            },
            Register::SpecialPurpose(_) => {},
            Register::ConditionBit(bit) => {
                proof {
                    use_type_invariant(bit);
                }
            },
        }
    }

    /// Computes [`Register::code`].
    pub fn to_code(self) -> (code: u32)
        ensures
            code == self.code(),
            code < REGISTER_CODES,
            self.wf(),
            Register::of_code(code) == self,
    {
        match self {
            Register::Zero => 0,
            Register::GeneralPurpose(gpr) => 1 + gpr.as_u32(),
            Register::SpecialPurpose(spr) => 33 + spr.to_ordinal(),
            Register::ConditionBit(bit) => 43 + bit.as_u32(),
        }
    }

    /// Rebuilds a register from its code.
    pub fn from_code(code: u32) -> (r: Option<Register>)
        ensures
            r is Some <==> code < REGISTER_CODES,
            r is Some ==> r->0 == Register::of_code(code) && r->0.code() == code && r->0.wf(),
    {
        if code == 0 {
            Some(Register::Zero)
        } else if code <= 32 {
            match Gpr::new(code - 1) {
                Some(gpr) => Some(Register::GeneralPurpose(gpr)),
                None => None,
            }
        } else if code <= 42 {
            match Spr::from_ordinal(code - 33) {
                Some(spr) => Some(Register::SpecialPurpose(spr)),
                None => None,
            }
        } else if code < REGISTER_CODES {
            match ConditionBit::new(code - 43) {
                Some(bit) => Some(Register::ConditionBit(bit)),
                None => None,
            }
        } else {
            None
        }
    }

    /// The register that an `(rA|0)` operand names.
    pub open spec fn of_gpr_or_zero(gprz: GprOrZero) -> Register {
        match gprz {
            GprOrZero::Zero => Register::Zero,
            GprOrZero::Gpr(gpr) => Register::GeneralPurpose(gpr.gpr()),
        }
    }
}

impl From<Gpr> for Register {
    fn from(gpr: Gpr) -> (r: Register) {
        Register::GeneralPurpose(gpr)
    }
}

impl FromSpecImpl<Gpr> for Register {
    open spec fn obeys_from_spec() -> bool {
        true
    }

    open spec fn from_spec(gpr: Gpr) -> Register {
        Register::GeneralPurpose(gpr)
    }
}

impl From<GprOrZero> for Register {
    fn from(gprz: GprOrZero) -> (r: Register) {
        match gprz.try_unwrap_gpr() {
            Some(gpr) => Register::GeneralPurpose(gpr.as_gpr()),
            None => Register::Zero,
        }
    }
}

impl FromSpecImpl<GprOrZero> for Register {
    open spec fn obeys_from_spec() -> bool {
        true
    }

    open spec fn from_spec(gprz: GprOrZero) -> Register {
        Register::of_gpr_or_zero(gprz)
    }
}

impl From<NonZeroGpr> for Register {
    fn from(nzgpr: NonZeroGpr) -> (r: Register) {
        Register::GeneralPurpose(nzgpr.as_gpr())
    }
}

impl FromSpecImpl<NonZeroGpr> for Register {
    open spec fn obeys_from_spec() -> bool {
        true
    }

    open spec fn from_spec(nzgpr: NonZeroGpr) -> Register {
        Register::GeneralPurpose(nzgpr.gpr())
    }
}

impl From<Spr> for Register {
    fn from(spr: Spr) -> (r: Register) {
        Register::SpecialPurpose(spr)
    }
}

impl FromSpecImpl<Spr> for Register {
    open spec fn obeys_from_spec() -> bool {
        true
    }

    open spec fn from_spec(spr: Spr) -> Register {
        Register::SpecialPurpose(spr)
    }
}

impl From<ConditionBit> for Register {
    fn from(condition_bit: ConditionBit) -> (r: Register) {
        Register::ConditionBit(condition_bit)
    }
}

impl FromSpecImpl<ConditionBit> for Register {
    open spec fn obeys_from_spec() -> bool {
        true
    }

    open spec fn from_spec(condition_bit: ConditionBit) -> Register {
        Register::ConditionBit(condition_bit)
    }
}

} // verus!
