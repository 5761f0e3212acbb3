//! Registers, conditions and instructions as text, as an assembler writes
//! them.

use vstd::prelude::*;
use vstd::string::*;

use crate::powerpc::branch::condition_behavior::ConditionBehavior;
use crate::powerpc::branch::ctr_behavior::CtrBehavior;
use crate::powerpc::condition::condition::Condition;
use crate::powerpc::condition::condition_bit::ConditionBit;
use crate::powerpc::condition::negative_condition::NegativeCondition;
use crate::powerpc::condition::positive_condition::PositiveCondition;
use crate::powerpc::instruction::encoded_instruction::ParseError;
use crate::powerpc::register::crf::Crf;
use crate::powerpc::register::gpr::Gpr;
use crate::powerpc::register::gpr_or_zero::GprOrZero;
use crate::powerpc::register::non_zero_gpr::NonZeroGpr;
use crate::powerpc::register::Register;
use crate::powerpc::register::spr::Spr;
use crate::text::decimal_text;
use crate::text::push_number;

verus! {

impl Gpr {
    /// The text of the register: `r` and its number.
    pub open spec fn text(&self) -> Seq<char> {
        "r"@ + decimal_text(self.index() as nat)
    }

    pub fn to_string(&self) -> (r: String)
        ensures
            r@ == self.text(),
    {
        let mut out = String::from_str("r");
        push_number(&mut out, self.as_u32() as u64, 10);
        out
    }

    /// The register as a debugging listing shows it: by its text.
    pub fn debug_string(&self) -> (r: String)
        ensures
            r@ == self.text(),
    {
        self.to_string()
    }
}

impl NonZeroGpr {
    /// The text of the register: `r` and its number.
    pub open spec fn text(&self) -> Seq<char> {
        "r"@ + decimal_text(self.index() as nat)
    }

    pub fn to_string(&self) -> (r: String)
        ensures
            r@ == self.text(),
    {
        let mut out = String::from_str("r");
        push_number(&mut out, self.as_u32() as u64, 10);
        out
    }
}

impl GprOrZero {
    /// The text of the operand: `0`, or `r` and the number of the register.
    pub open spec fn text(&self) -> Seq<char> {
        match self {
            GprOrZero::Zero => "0"@,
            GprOrZero::Gpr(gpr) => gpr.text(),
        }
    }

    pub fn to_string(&self) -> (r: String)
        ensures
            r@ == self.text(),
    {
        match self {
            GprOrZero::Zero => String::from_str("0"),
            GprOrZero::Gpr(gpr) => gpr.to_string(),
        }
    }

    /// The operand as a debugging listing shows it: by its text.
    pub fn debug_string(&self) -> (r: String)
        ensures
            r@ == self.text(),
    {
        self.to_string()
    }
}

impl Crf {
    /// The text of the field: `cr` and its number.
    pub open spec fn text(&self) -> Seq<char> {
        "cr"@ + decimal_text(self.index() as nat)
    }

    pub fn to_string(&self) -> (r: String)
        ensures
            r@ == self.text(),
    {
        let mut out = String::from_str("cr");
        push_number(&mut out, self.get() as u64, 10);
        out
    }
}

impl Spr {
    /// The name of the register.
    pub open spec fn text(&self) -> Seq<char> {
        match self {
            Spr::IntegerException => "xer"@,
            Spr::Link => "lr"@,
            Spr::Count => "ctr"@,
            Spr::Gqr1 => "gqr1"@,
            Spr::Gqr2 => "gqr2"@,
            Spr::Gqr3 => "gqr3"@,
            Spr::Gqr4 => "gqr4"@,
            Spr::Gqr5 => "gqr5"@,
            Spr::Gqr6 => "gqr6"@,
            Spr::Gqr7 => "gqr7"@,
        }
    }

    pub fn to_string(&self) -> (r: String)
        ensures
            r@ == self.text(),
    {
        String::from_str(
            match self {
                Spr::IntegerException => "xer",
                Spr::Link => "lr",
                Spr::Count => "ctr",
                Spr::Gqr1 => "gqr1",
                Spr::Gqr2 => "gqr2",
                Spr::Gqr3 => "gqr3",
                Spr::Gqr4 => "gqr4",
                Spr::Gqr5 => "gqr5",
                Spr::Gqr6 => "gqr6",
                Spr::Gqr7 => "gqr7",
            },
        )
    }
}

impl Condition {
    /// The name of the condition.
    pub open spec fn text(&self) -> Seq<char> {
        match self {
            Condition::Less => "lt"@,
            Condition::Greater => "gt"@,
            Condition::Equal => "eq"@,
            Condition::SummaryOverflow => "so"@,
        }
    }

    pub fn to_string(&self) -> (r: String)
        ensures
            r@ == self.text(),
    {
        String::from_str(
            match self {
                Condition::Less => "lt",
                Condition::Greater => "gt",
                Condition::Equal => "eq",
                Condition::SummaryOverflow => "so",
            },
        )
    }
}

impl PositiveCondition {
    /// The condition as the mnemonic of a branch names it that is taken
    /// when the bit is set.
    pub open spec fn text(&self) -> Seq<char> {
        self.0.text()
    }

    pub fn to_string(&self) -> (r: String)
        ensures
            r@ == self.text(),
    {
        self.0.to_string()
    }
}

impl NegativeCondition {
    /// The condition as the mnemonic of a branch names it that is taken
    /// when the bit is clear.
    pub open spec fn text(&self) -> Seq<char> {
        match self.0 {
            Condition::Less => "nl"@,
            Condition::Greater => "ng"@,
            Condition::Equal => "ne"@,
            Condition::SummaryOverflow => "ns"@,
        }
    }

    pub fn to_string(&self) -> (r: String)
        ensures
            r@ == self.text(),
    {
        String::from_str(
            match self.0 {
                Condition::Less => "nl",
                Condition::Greater => "ng",
                Condition::Equal => "ne",
                Condition::SummaryOverflow => "ns",
            },
        )
    }
}

impl ConditionBit {
    /// The condition that the bit stands for in its field.
    pub open spec fn condition(&self) -> Condition {
        Condition::of_index((self.index() % 4) as u32)
    }

    /// The text of the bit: the name of its condition, after `crN*4+` if
    /// it is a bit of another field than `cr0`.
    pub open spec fn text(&self) -> Seq<char> {
        if self.index() / 4 > 0 {
            "cr"@ + decimal_text((self.index() / 4) as nat) + "*4+"@ + self.condition().text()
        } else {
            self.condition().text()
        }
    }

    pub fn to_string(&self) -> (r: String)
        ensures
            r@ == self.text(),
    {
        let crf = self.crf();
        let condition = self.bi();
        assert(condition == self.condition());
        if crf.get() > 0 {
            let mut out = crf.to_string();
            out.append("*4+");
            out.append(condition.to_string().as_str());
            out
        } else {
            condition.to_string()
        }
    }
}

impl Register {
    /// The text of the register.
    pub open spec fn text(&self) -> Seq<char> {
        match self {
            Register::Zero => "0"@,
            Register::GeneralPurpose(gpr) => gpr.text(),
            Register::SpecialPurpose(spr) => spr.text(),
            Register::ConditionBit(bit) => bit.text(),
        }
    }

    pub fn to_string(&self) -> (r: String)
        ensures
            r@ == self.text(),
    {
        match self {
            Register::Zero => String::from_str("0"),
            Register::GeneralPurpose(gpr) => gpr.to_string(),
            Register::SpecialPurpose(spr) => spr.to_string(),
            Register::ConditionBit(bit) => bit.to_string(),
        }
    }
}

impl CtrBehavior {
    /// What the mnemonic of a branch says of the count register.
    pub open spec fn text(&self) -> Seq<char> {
        match self {
            CtrBehavior::DecrementBranchNonzero => "dnz"@,
            CtrBehavior::DecrementBranchZero => "dz"@,
            CtrBehavior::Untouched => ""@,
        }
    }

    pub fn to_string(&self) -> (r: String)
        ensures
            r@ == self.text(),
    {
        String::from_str(
            match self {
                CtrBehavior::DecrementBranchNonzero => "dnz",
                CtrBehavior::DecrementBranchZero => "dz",
                CtrBehavior::Untouched => "",
            },
        )
    }
}

impl ConditionBehavior {
    /// What the mnemonic of a branch says of the condition.
    pub open spec fn text(&self) -> Seq<char> {
        match self {
            ConditionBehavior::BranchFalse(c) => NegativeCondition(c.condition()).text(),
            ConditionBehavior::BranchTrue(c) => PositiveCondition(c.condition()).text(),
            ConditionBehavior::BranchAlways => ""@,
        }
    }

    pub fn to_string(&self) -> (r: String)
        ensures
            r@ == self.text(),
    {
        match self {
            ConditionBehavior::BranchFalse(c) => {
                let condition = c.bi();
                assert(condition == c.condition());
                condition.negative().to_string()
            },
            ConditionBehavior::BranchTrue(c) => {
                let condition = c.bi();
                assert(condition == c.condition());
                condition.positive().to_string()
            },
            ConditionBehavior::BranchAlways => String::from_str(""),
        }
    }
}

impl ParseError {
    /// The message of the error.
    pub open spec fn text(&self) -> Seq<char> {
        match self {
            ParseError::UnimplementedOpcode(opcode) => "unimplemented opcode: "@ + decimal_text(
                *opcode as nat,
            ),
            ParseError::UnimplementedExtendedOpcode { opcode, extended_opcode } => {
                "unimplemented extended opcode: opcode = "@ + decimal_text(*opcode as nat)
                    + ", extended_opcode = "@ + decimal_text(*extended_opcode as nat)
            },
            ParseError::IllegalEncoding => "illegal encoding"@,
        }
    }

    pub fn to_string(&self) -> (r: String)
        ensures
            r@ == self.text(),
    {
        match self {
            ParseError::UnimplementedOpcode(opcode) => {
                let mut out = String::from_str("unimplemented opcode: ");
                push_number(&mut out, *opcode as u64, 10);
                out
            },
            ParseError::UnimplementedExtendedOpcode { opcode, extended_opcode } => {
                let mut out = String::from_str("unimplemented extended opcode: opcode = ");
                push_number(&mut out, *opcode as u64, 10);
                out.append(", extended_opcode = ");
                push_number(&mut out, *extended_opcode as u64, 10);
                out
            },
            ParseError::IllegalEncoding => String::from_str("illegal encoding"),
        }
    }
}

} // verus!
