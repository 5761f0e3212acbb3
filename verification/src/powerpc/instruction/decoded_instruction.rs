use vstd::prelude::*;

use crate::powerpc::branch::condition_behavior::ConditionBehavior;
use crate::powerpc::branch::ctr_behavior::CtrBehavior;
use crate::powerpc::condition::condition_bit::ConditionBit;
use crate::powerpc::instruction::branch_info::BranchInfo;
use crate::powerpc::register::crf::Crf;
use crate::powerpc::register::gpr::Gpr;
use crate::powerpc::register::gpr_or_zero::GprOrZero;
use crate::powerpc::register::non_zero_gpr::NonZeroGpr;
use crate::powerpc::register::spr::Spr;

verus! {

/// An instruction with its operands taken apart.
#[allow(inconsistent_fields)]
#[derive(Clone, Copy, Debug, PartialEq, Eq)]
pub enum DecodedInstruction {
    Addi { dst: Gpr, src: GprOrZero, immediate: i16 },
    Addis { dst: Gpr, src: GprOrZero, immediate: i16 },
    Addze { dst: Gpr, src: Gpr, overflow_enable: bool, record: bool },
    B { link: bool, absolute: bool, target: u32 },
    Bc { condition: ConditionBehavior, ctr: CtrBehavior, link: bool, absolute: bool, target: u32 },
    Bclr { condition: ConditionBehavior, ctr: CtrBehavior, link: bool },
    Cmpi { crf: Crf, src: Gpr, immediate: i16 },
    Cmpl { crf: Crf, srcs: [Gpr; 2] },
    Cmpli { crf: Crf, src: Gpr, immediate: u16 },
    Crxor { dst: ConditionBit, srcs: [ConditionBit; 2] },
    Lbz { dst: Gpr, offset: i16, base: GprOrZero },
    Lha { dst: Gpr, offset: i16, base: GprOrZero },
    Lwz { dst: Gpr, offset: i16, base: GprOrZero },
    Mfspr { spr: Spr, dst: Gpr },
    Mtspr { spr: Spr, src: Gpr },
    Or { dst: Gpr, srcs: [Gpr; 2], record: bool },
    Rlwinm { dst: Gpr, src: Gpr, shift: u8, mask_begin: u8, mask_end: u8, record: bool },
    Srawi { dst: Gpr, src: Gpr, shift: u8, record: bool },
    Stmw { src: Gpr, offset: i16, base: GprOrZero },
    Stw { src: Gpr, offset: i16, base: GprOrZero },
    Stwu { src: Gpr, offset: i16, base: NonZeroGpr },
}

impl DecodedInstruction {
    /// The branch descriptor of the three branch instructions: `b` always
    /// branches to its target, `bc` carries its own condition, count register
    /// behavior and target, `bclr` has no static target. No other instruction
    /// has one.
    pub open spec fn branch_descriptor(self) -> Option<BranchInfo> {
        match self {
            DecodedInstruction::B { link, target, .. } => Some(
                BranchInfo {
                    condition: ConditionBehavior::BranchAlways,
                    ctr: CtrBehavior::Untouched,
                    link,
                    target: Some(target),
                },
            ),
            DecodedInstruction::Bc { condition, ctr, link, target, .. } => Some(
                BranchInfo { condition, ctr, link, target: Some(target) },
            ),
            DecodedInstruction::Bclr { condition, ctr, link } => Some(
                BranchInfo { condition, ctr, link, target: None },
            ),
            _ => None,
        }
    }

    pub fn branch_info(self) -> (r: Option<BranchInfo>)
        ensures
            r == self.branch_descriptor(),
    {
        match self {
            DecodedInstruction::B { link, target, .. } => Some(
                BranchInfo {
                    condition: ConditionBehavior::BranchAlways,
                    ctr: CtrBehavior::Untouched,
                    link,
                    target: Some(target),
                },
            ),
            DecodedInstruction::Bc { condition, ctr, link, target, .. } => Some(
                BranchInfo { condition, ctr, link, target: Some(target) },
            ),
            DecodedInstruction::Bclr { condition, ctr, link } => Some(
                BranchInfo { condition, ctr, link, target: None },
            ),
            _ => None,
        }
    }
}

} // verus!
