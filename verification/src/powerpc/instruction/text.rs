//! Instructions as text, as a disassembler writes them.

use vstd::prelude::*;
use vstd::string::*;

use crate::powerpc::branch::condition_behavior::ConditionBehavior;
use crate::powerpc::instruction::decoded_instruction::DecodedInstruction;
use crate::powerpc::instruction::format_small_i16::FormatSmallI16;
use crate::powerpc::instruction::format_small_u16::FormatSmallU16;
use crate::powerpc::register::crf::Crf;
use crate::powerpc::register::gpr::Gpr;
use crate::text::address_text;
use crate::text::decimal_text;
use crate::text::push_address;
use crate::text::push_number;

verus! {

/// A suffix of a mnemonic that stands there if a flag is set.
pub open spec fn flag_text(flag: bool, suffix: Seq<char>) -> Seq<char> {
    if flag {
        suffix
    } else {
        ""@
    }
}

/// The offset of a load or store, which is left out if it is zero.
pub open spec fn offset_text(offset: i16) -> Seq<char> {
    if offset != 0 {
        FormatSmallI16(offset).text()
    } else {
        ""@
    }
}

/// The condition register field of a comparison, which is left out if it
/// is `cr0`.
pub open spec fn field_text(crf: Crf) -> Seq<char> {
    if crf.index() > 0 {
        crf.text() + ", "@
    } else {
        ""@
    }
}

/// The condition register field that a branch tests, if it is another
/// than `cr0`.
pub open spec fn tested_field(condition: ConditionBehavior) -> Option<Crf> {
    match condition.bit() {
        Some(bit) => if bit.index() / 4 > 0 {
            Some(Crf::of_index((bit.index() / 4) as u32))
        } else {
            None
        },
        None => None,
    }
}

/// A load or store as text: the mnemonic, the register, and the address as
/// `offset(base)`.
pub open spec fn memory_text(mnemonic: Seq<char>, register: Gpr, offset: i16, base: Seq<char>) -> Seq<
    char,
> {
    mnemonic + register.text() + ", "@ + offset_text(offset) + "("@ + base + ")"@
}

fn flag_str(flag: bool, suffix: &'static str) -> (r: &'static str)
    ensures
        r@ == flag_text(flag, suffix@),
{
    if flag {
        suffix
    } else {
        ""
    }
}

fn offset_string(offset: i16) -> (r: String)
    ensures
        r@ == offset_text(offset),
{
    if offset != 0 {
        FormatSmallI16(offset).to_string()
    } else {
        String::from_str("")
    }
}

fn field_string(crf: Crf) -> (r: String)
    ensures
        r@ == field_text(crf),
{
    if crf.get() > 0 {
        let mut out = crf.to_string();
        out.append(", ");
        out
    } else {
        String::from_str("")
    }
}

fn tested(condition: ConditionBehavior) -> (r: Option<Crf>)
    ensures
        r == tested_field(condition),
{
    match condition.crf() {
        Some(crf) => crf.nonzero(),
        None => None,
    }
}

fn memory_string(mnemonic: &'static str, register: Gpr, offset: i16, base: String) -> (r: String)
    ensures
        r@ == memory_text(mnemonic@, register, offset, base@),
{
    let mut out = String::from_str(mnemonic);
    out.append(register.to_string().as_str());
    out.append(", ");
    out.append(offset_string(offset).as_str());
    out.append("(");
    out.append(base.as_str());
    out.append(")");
    out
}

impl DecodedInstruction {
    /// The instruction as a disassembler writes it: the mnemonic, with the
    /// simplified mnemonics `li` for `addi` from zero and `mr` for `or` of a
    /// register with itself, and the operands.
    pub open spec fn text(&self) -> Seq<char> {
        match *self {
            DecodedInstruction::Addi { dst, src, immediate } => {
                if src is Gpr {
                    "addi "@ + dst.text() + ", "@ + src.text() + ", "@ + FormatSmallI16(
                        immediate,
                    ).text()
                } else {
                    "li "@ + dst.text() + ", "@ + FormatSmallI16(immediate).text()
                }
            },
            DecodedInstruction::Addis { dst, src, immediate } => {
                "addis "@ + dst.text() + ", "@ + src.text() + ", "@ + FormatSmallI16(
                    immediate,
                ).text()
            },
            DecodedInstruction::Addze { dst, src, overflow_enable, record } => {
                "addze"@ + flag_text(overflow_enable, "o"@) + flag_text(record, "."@) + " "@
                    + dst.text() + ", "@ + src.text()
            },
            DecodedInstruction::B { link, absolute, target } => {
                "b"@ + flag_text(link, "l"@) + flag_text(absolute, "a"@) + " "@ + address_text(
                    target,
                )
            },
            DecodedInstruction::Bc { condition, ctr, link, absolute, target } => {
                "b"@ + ctr.text() + condition.text() + flag_text(link, "l"@) + flag_text(
                    absolute,
                    "a"@,
                ) + " "@ + (match tested_field(condition) {
                    Some(crf) => crf.text() + ", "@,
                    None => ""@,
                }) + address_text(target)
            },
            DecodedInstruction::Bclr { condition, ctr, link } => {
                "b"@ + ctr.text() + condition.text() + "lr"@ + flag_text(link, "l"@) + (
                match tested_field(condition) {
                    Some(crf) => " "@ + crf.text(),
                    None => ""@,
                })
            },
            DecodedInstruction::Cmpi { crf, src, immediate } => {
                "cmpwi "@ + field_text(crf) + src.text() + ", "@ + FormatSmallI16(immediate).text()
            },
            DecodedInstruction::Cmpl { crf, srcs } => {
                "cmplw "@ + field_text(crf) + srcs[0].text() + ", "@ + srcs[1].text()
            },
            DecodedInstruction::Cmpli { crf, src, immediate } => {
                "cmplwi "@ + field_text(crf) + src.text() + ", "@ + FormatSmallU16(
                    immediate,
                ).text()
            },
            DecodedInstruction::Crxor { dst, srcs } => {
                "crxor "@ + dst.text() + ", "@ + srcs[0].text() + ", "@ + srcs[1].text()
            },
            DecodedInstruction::Lbz { dst, offset, base } => memory_text(
                "lbz "@,
                dst,
                offset,
                base.text(),
            ),
            DecodedInstruction::Lha { dst, offset, base } => memory_text(
                "lha "@,
                dst,
                offset,
                base.text(),
            ),
            DecodedInstruction::Lwz { dst, offset, base } => memory_text(
                "lwz "@,
                dst,
                offset,
                base.text(),
            ),
            DecodedInstruction::Mfspr { spr, dst } => "mf"@ + spr.text() + " "@ + dst.text(),
            DecodedInstruction::Mtspr { spr, src } => "mt"@ + spr.text() + " "@ + src.text(),
            DecodedInstruction::Or { dst, srcs, record } => {
                if srcs[0] != srcs[1] {
                    "or"@ + flag_text(record, "."@) + " "@ + dst.text() + ", "@ + srcs[0].text()
                        + ", "@ + srcs[1].text()
                } else {
                    "mr"@ + flag_text(record, "."@) + " "@ + dst.text() + ", "@ + srcs[0].text()
                }
            },
            DecodedInstruction::Rlwinm { dst, src, shift, mask_begin, mask_end, record } => {
                "rlwinm"@ + flag_text(record, "."@) + " "@ + dst.text() + ", "@ + src.text()
                    + ", "@ + decimal_text(shift as nat) + ", "@ + decimal_text(mask_begin as nat)
                    + ", "@ + decimal_text(mask_end as nat)
            },
            DecodedInstruction::Srawi { dst, src, shift, record } => {
                "srawi"@ + flag_text(record, "."@) + " "@ + dst.text() + ", "@ + src.text()
                    + ", "@ + decimal_text(shift as nat)
            },
            DecodedInstruction::Stmw { src, offset, base } => memory_text(
                "stmw "@,
                src,
                offset,
                base.text(),
            ),
            DecodedInstruction::Stw { src, offset, base } => memory_text(
                "stw "@,
                src,
                offset,
                base.text(),
            ),
            DecodedInstruction::Stwu { src, offset, base } => memory_text(
                "stwu "@,
                src,
                offset,
                base.text(),
            ),
        }
    }

    pub fn to_string(&self) -> (r: String)
        ensures
            r@ == self.text(),
    {
        match *self {
            DecodedInstruction::Addi { dst, src, immediate } => {
                if src.is_gpr() {
                    let mut out = String::from_str("addi ");
                    out.append(dst.to_string().as_str());
                    out.append(", ");
                    out.append(src.to_string().as_str());
                    out.append(", ");
                    out.append(FormatSmallI16(immediate).to_string().as_str());
                    out
                } else {
                    let mut out = String::from_str("li ");
                    out.append(dst.to_string().as_str());
                    out.append(", ");
                    out.append(FormatSmallI16(immediate).to_string().as_str());
                    out
                }
            },
            DecodedInstruction::Addis { dst, src, immediate } => {
                let mut out = String::from_str("addis ");
                out.append(dst.to_string().as_str());
                out.append(", ");
                out.append(src.to_string().as_str());
                out.append(", ");
                out.append(FormatSmallI16(immediate).to_string().as_str());
                out
            },
            DecodedInstruction::Addze { dst, src, overflow_enable, record } => {
                let mut out = String::from_str("addze");
                out.append(flag_str(overflow_enable, "o"));
                out.append(flag_str(record, "."));
                out.append(" ");
                out.append(dst.to_string().as_str());
                out.append(", ");
                out.append(src.to_string().as_str());
                out
            },
            DecodedInstruction::B { link, absolute, target } => {
                let mut out = String::from_str("b");
                out.append(flag_str(link, "l"));
                out.append(flag_str(absolute, "a"));
                out.append(" ");
                push_address(&mut out, target);
                out
            },
            DecodedInstruction::Bc { condition, ctr, link, absolute, target } => {
                let mut out = String::from_str("b");
                out.append(ctr.to_string().as_str());
                out.append(condition.to_string().as_str());
                out.append(flag_str(link, "l"));
                out.append(flag_str(absolute, "a"));
                out.append(" ");
                match tested(condition) {
                    Some(cr) => {
                        let mut field = cr.to_string();
                        field.append(", ");
                        out.append(field.as_str());
                    },
                    None => {
                        out.append("");
                    },
                }
                push_address(&mut out, target);
                out
            },
            DecodedInstruction::Bclr { condition, ctr, link } => {
                let mut out = String::from_str("b");
                out.append(ctr.to_string().as_str());
                out.append(condition.to_string().as_str());
                out.append("lr");
                out.append(flag_str(link, "l"));
                match tested(condition) {
                    Some(cr) => {
                        let mut field = String::from_str(" ");
                        field.append(cr.to_string().as_str());
                        out.append(field.as_str());
                    },
                    None => {
                        out.append("");
                    },
                }
                out
            },
            DecodedInstruction::Cmpi { crf, src, immediate } => {
                let mut out = String::from_str("cmpwi ");
                out.append(field_string(crf).as_str());
                out.append(src.to_string().as_str());
                out.append(", ");
                out.append(FormatSmallI16(immediate).to_string().as_str());
                out
            },
            DecodedInstruction::Cmpl { crf, srcs } => {
                let mut out = String::from_str("cmplw ");
                out.append(field_string(crf).as_str());
                out.append(srcs[0].to_string().as_str());
                out.append(", ");
                out.append(srcs[1].to_string().as_str());
                out
            },
            DecodedInstruction::Cmpli { crf, src, immediate } => {
                let mut out = String::from_str("cmplwi ");
                out.append(field_string(crf).as_str());
                out.append(src.to_string().as_str());
                out.append(", ");
                out.append(FormatSmallU16(immediate).to_string().as_str());
                out
            },
            DecodedInstruction::Crxor { dst, srcs } => {
                let mut out = String::from_str("crxor ");
                out.append(dst.to_string().as_str());
                out.append(", ");
                out.append(srcs[0].to_string().as_str());
                out.append(", ");
                out.append(srcs[1].to_string().as_str());
                out
            },
            DecodedInstruction::Lbz { dst, offset, base } => memory_string(
                "lbz ",
                dst,
                offset,
                base.to_string(),
            ),
            DecodedInstruction::Lha { dst, offset, base } => memory_string(
                "lha ",
                dst,
                offset,
                base.to_string(),
            ),
            DecodedInstruction::Lwz { dst, offset, base } => memory_string(
                "lwz ",
                dst,
                offset,
                base.to_string(),
            ),
            DecodedInstruction::Mfspr { spr, dst } => {
                let mut out = String::from_str("mf");
                out.append(spr.to_string().as_str());
                out.append(" ");
                out.append(dst.to_string().as_str());
                out
            },
            DecodedInstruction::Mtspr { spr, src } => {
                let mut out = String::from_str("mt");
                out.append(spr.to_string().as_str());
                out.append(" ");
                out.append(src.to_string().as_str());
                out
            },
            DecodedInstruction::Or { dst, srcs, record } => {
                if srcs[0] != srcs[1] {
                    let mut out = String::from_str("or");
                    out.append(flag_str(record, "."));
                    out.append(" ");
                    out.append(dst.to_string().as_str());
                    out.append(", ");
                    out.append(srcs[0].to_string().as_str());
                    out.append(", ");
                    out.append(srcs[1].to_string().as_str());
                    out
                } else {
                    let mut out = String::from_str("mr");
                    out.append(flag_str(record, "."));
                    out.append(" ");
                    out.append(dst.to_string().as_str());
                    out.append(", ");
                    out.append(srcs[0].to_string().as_str());
                    out
                }
            },
            DecodedInstruction::Rlwinm { dst, src, shift, mask_begin, mask_end, record } => {
                let mut out = String::from_str("rlwinm");
                out.append(flag_str(record, "."));
                out.append(" ");
                out.append(dst.to_string().as_str());
                out.append(", ");
                out.append(src.to_string().as_str());
                out.append(", ");
                push_number(&mut out, shift as u64, 10);
                out.append(", ");
                push_number(&mut out, mask_begin as u64, 10);
                out.append(", ");
                push_number(&mut out, mask_end as u64, 10);
                out
            },
            DecodedInstruction::Srawi { dst, src, shift, record } => {
                let mut out = String::from_str("srawi");
                out.append(flag_str(record, "."));
                out.append(" ");
                out.append(dst.to_string().as_str());
                out.append(", ");
                out.append(src.to_string().as_str());
                out.append(", ");
                push_number(&mut out, shift as u64, 10);
                out
            },
            DecodedInstruction::Stmw { src, offset, base } => memory_string(
                "stmw ",
                src,
                offset,
                base.to_string(),
            ),
            DecodedInstruction::Stw { src, offset, base } => memory_string(
                "stw ",
                src,
                offset,
                base.to_string(),
            ),
            DecodedInstruction::Stwu { src, offset, base } => memory_string(
                "stwu ",
                src,
                offset,
                base.to_string(),
            ),
        }
    }
}

} // verus!
