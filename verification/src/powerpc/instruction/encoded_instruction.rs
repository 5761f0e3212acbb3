use vstd::prelude::*;

use crate::powerpc::branch::bo::Bo;
use crate::powerpc::condition::condition_bit::ConditionBit;
use crate::powerpc::instruction::decoded_instruction::DecodedInstruction;
use crate::powerpc::register::crf::Crf;
use crate::powerpc::register::gpr::Gpr;
use crate::powerpc::register::gpr_or_zero::GprOrZero;
use crate::powerpc::register::non_zero_gpr::NonZeroGpr;
use crate::powerpc::register::spr::Spr;

verus! {

/// Why a word is not an instruction that the decoder knows.
#[derive(Clone, Copy, Debug, PartialEq, Eq, Structural)]
pub enum ParseError {
    UnimplementedOpcode(u32),
    UnimplementedExtendedOpcode { opcode: u32, extended_opcode: u32 },
    IllegalEncoding,
}

/// A 32-bit instruction word.
#[derive(Clone, Copy, Debug)]
pub struct EncodedInstruction(pub u32);

/// Bits `from..=to` of `word`, numbered as in the PowerPC manual: bit 0 is
/// the most significant one, bit 31 the least.
pub open spec fn field(word: u32, from: u32, to: u32) -> u32 {
    if to - from == 31 {
        word
    } else {
        (word >> ((31 - to) as u32)) & (((1u32 << ((to - from + 1) as u32)) - 1) as u32)
    }
}

/// A 16-bit field read as a two's complement number.
pub open spec fn signed_16(x: u32) -> i16 {
    if x < 0x8000 {
        x as i16
    } else {
        (x - 0x1_0000) as i16
    }
}

/// The offset of a `bc`: the 14-bit field `BD` with two zero bits appended,
/// read as a two's complement number of 16 bits.
pub open spec fn small_offset(word: u32) -> i32 {
    let x = 4 * field(word, 16, 29);
    if x < 0x8000 {
        x as i32
    } else {
        (x - 0x1_0000) as i32
    }
}

/// The offset of a `b`: the 24-bit field `LI` with two zero bits appended,
/// read as a two's complement number of 26 bits.
pub open spec fn large_offset(word: u32) -> i32 {
    let x = 4 * field(word, 6, 29);
    if x < 0x200_0000 {
        x as i32
    } else {
        (x - 0x400_0000) as i32
    }
}

/// Where a branch at `address` with the given offset goes: the offset is
/// added to the address, or to zero if the branch is absolute, and the sum
/// wraps around at 32 bits.
pub open spec fn branch_target(word: u32, address: u32, offset: i32) -> u32 {
    let base: int = if field(word, 30, 30) == 1 {
        0
    } else {
        address as int
    };
    ((base + offset) % 0x1_0000_0000) as u32
}

/// The SPR number of `mfspr` and `mtspr`, whose two five-bit halves stand
/// swapped in the instruction word.
pub open spec fn spr_number(word: u32) -> u32 {
    (32 * field(word, 16, 20) + field(word, 11, 15)) as u32
}

/// What the bits `BO` and `BI` of a conditional branch say.
pub open spec fn branch_condition(word: u32) -> crate::powerpc::branch::condition_behavior::ConditionBehavior {
    Bo::condition_of(field(word, 6, 10), ConditionBit::of_index(field(word, 11, 15)))
}

/// The instruction that `word` encodes when it stands at `address`, or the
/// reason why it encodes none. The primary opcode is in bits 0..=5; opcodes
/// 19 and 31 are told apart further by the extended opcode in bits 21..=30.
pub open spec fn decode(word: u32, address: u32) -> Result<DecodedInstruction, ParseError> {
    let opcode = field(word, 0, 5);
    let extended = field(word, 21, 30);
    let gpr_a = Gpr::of_index(field(word, 11, 15));
    let gpr_a_or_zero = GprOrZero::of_index(field(word, 11, 15));
    let gpr_b = Gpr::of_index(field(word, 16, 20));
    let gpr_c = Gpr::of_index(field(word, 6, 10));
    let crf_d = Crf::of_index(field(word, 6, 8));
    let simm = signed_16(field(word, 16, 31));
    let shift = field(word, 16, 20) as u8;
    let link = field(word, 31, 31) == 1;
    let record = field(word, 31, 31) == 1;
    let absolute = field(word, 30, 30) == 1;
    if opcode == 10 {
        if field(word, 9, 10) == 0 {
            Ok(DecodedInstruction::Cmpli { crf: crf_d, src: gpr_a, immediate: field(word, 16, 31) as u16 })
        } else {
            Err(ParseError::IllegalEncoding)
        }
    } else if opcode == 11 {
        if field(word, 9, 10) == 0 {
            Ok(DecodedInstruction::Cmpi { crf: crf_d, src: gpr_a, immediate: simm })
        } else {
            Err(ParseError::IllegalEncoding)
        }
    } else if opcode == 14 {
        Ok(DecodedInstruction::Addi { dst: gpr_c, src: gpr_a_or_zero, immediate: simm })
    } else if opcode == 15 {
        Ok(DecodedInstruction::Addis { dst: gpr_c, src: gpr_a_or_zero, immediate: simm })
    } else if opcode == 16 {
        Ok(
            DecodedInstruction::Bc {
                condition: branch_condition(word),
                ctr: Bo::ctr_of(field(word, 6, 10)),
                link,
                absolute,
                target: branch_target(word, address, small_offset(word)),
            },
        )
    } else if opcode == 18 {
        Ok(DecodedInstruction::B { link, absolute, target: branch_target(word, address, large_offset(word)) })
    } else if opcode == 19 {
        if extended == 16 {
            if field(word, 16, 20) == 0 {
                Ok(
                    DecodedInstruction::Bclr {
                        condition: branch_condition(word),
                        ctr: Bo::ctr_of(field(word, 6, 10)),
                        link,
                    },
                )
            } else {
                Err(ParseError::IllegalEncoding)
            }
        } else if extended == 193 {
            if field(word, 31, 31) == 0 {
                Ok(
                    DecodedInstruction::Crxor {
                        dst: ConditionBit::of_index(field(word, 6, 10)),
                        srcs: [
                            ConditionBit::of_index(field(word, 11, 15)),
                            ConditionBit::of_index(field(word, 16, 20)),
                        ],
                    },
                )
            } else {
                Err(ParseError::IllegalEncoding)
            }
        } else {
            Err(ParseError::UnimplementedExtendedOpcode { opcode, extended_opcode: extended })
        }
    } else if opcode == 21 {
        Ok(
            DecodedInstruction::Rlwinm {
                dst: gpr_a,
                src: gpr_c,
                shift,
                mask_begin: field(word, 21, 25) as u8,
                mask_end: field(word, 26, 30) as u8,
                record,
            },
        )
    } else if opcode == 31 {
        if extended == 32 {
            if field(word, 9, 10) == 0 && field(word, 31, 31) == 0 {
                Ok(DecodedInstruction::Cmpl { crf: crf_d, srcs: [gpr_a, gpr_b] })
            } else {
                Err(ParseError::IllegalEncoding)
            }
        } else if extended == 202 || extended == 714 {
            if field(word, 16, 20) == 0 {
                Ok(
                    DecodedInstruction::Addze {
                        dst: gpr_c,
                        src: gpr_a,
                        overflow_enable: field(word, 21, 21) == 1,
                        record,
                    },
                )
            } else {
                Err(ParseError::IllegalEncoding)
            }
        } else if extended == 339 {
            match Spr::of_number(spr_number(word)) {
                Some(spr) => if field(word, 31, 31) == 0 {
                    Ok(DecodedInstruction::Mfspr { spr, dst: gpr_c })
                } else {
                    Err(ParseError::IllegalEncoding)
                },
                None => Err(ParseError::IllegalEncoding),
            }
        } else if extended == 444 {
            Ok(DecodedInstruction::Or { dst: gpr_a, srcs: [gpr_c, gpr_b], record })
        } else if extended == 467 {
            match Spr::of_number(spr_number(word)) {
                Some(spr) => if field(word, 31, 31) == 0 {
                    Ok(DecodedInstruction::Mtspr { spr, src: gpr_c })
                } else {
                    Err(ParseError::IllegalEncoding)
                },
                None => Err(ParseError::IllegalEncoding),
            }
        } else if extended == 824 {
            Ok(DecodedInstruction::Srawi { dst: gpr_a, src: gpr_c, shift, record })
        } else {
            Err(ParseError::UnimplementedExtendedOpcode { opcode, extended_opcode: extended })
        }
    } else if opcode == 32 {
        Ok(DecodedInstruction::Lwz { dst: gpr_c, offset: simm, base: gpr_a_or_zero })
    } else if opcode == 34 {
        Ok(DecodedInstruction::Lbz { dst: gpr_c, offset: simm, base: gpr_a_or_zero })
    } else if opcode == 36 {
        Ok(DecodedInstruction::Stw { src: gpr_c, offset: simm, base: gpr_a_or_zero })
    } else if opcode == 37 {
        if field(word, 11, 15) != 0 {
            Ok(
                DecodedInstruction::Stwu {
                    src: gpr_c,
                    offset: simm,
                    base: NonZeroGpr::of_index(field(word, 11, 15)),
                },
            )
        } else {
            Err(ParseError::IllegalEncoding)
        }
    } else if opcode == 42 {
        Ok(DecodedInstruction::Lha { dst: gpr_c, offset: simm, base: gpr_a_or_zero })
    } else if opcode == 47 {
        Ok(DecodedInstruction::Stmw { src: gpr_c, offset: simm, base: gpr_a_or_zero })
    } else {
        Err(ParseError::UnimplementedOpcode(opcode))
    }
}

/// How wide each field of an instruction word is.
pub proof fn lemma_field_bounds(word: u32)
    by (bit_vector)
    ensures
        field(word, 0, 5) < 64,
        field(word, 6, 8) < 8,
        field(word, 9, 10) < 4,
        field(word, 6, 10) < 32,
        field(word, 11, 15) < 32,
        field(word, 16, 20) < 32,
        field(word, 21, 25) < 32,
        field(word, 26, 30) < 32,
        field(word, 21, 30) < 1024,
        field(word, 16, 31) < 0x1_0000,
        field(word, 16, 29) < 0x4000,
        field(word, 6, 29) < 0x100_0000,
        field(word, 21, 21) < 2,
        field(word, 30, 30) < 2,
        field(word, 31, 31) < 2,
{
}

impl EncodedInstruction {
    /// Bits `from..=to` of the word, bit 0 being the most significant one.
    pub fn bits(self, from: u32, to: u32) -> (r: u32)
        requires
            from <= to < 32,
        ensures
            r == field(self.0, from, to),
    {
        if to - from == 31 {
            return self.0;
        }
        let width: u32 = to - from + 1;
        assert((1u32 << width) >= 1) by (bit_vector)
            requires
                width < 32,
        ;
        (self.0 >> (31 - to)) & ((1u32 << width) - 1)
    }

    pub fn opcode(self) -> (r: u32)
        ensures
            r == field(self.0, 0, 5),
            r < 64,
    {
        proof {
            lemma_field_bounds(self.0);
        }
        self.bits(0, 5)
    }

    pub fn extended_opcode(self) -> (r: u32)
        ensures
            r == field(self.0, 21, 30),
            r < 1024,
    {
        proof {
            lemma_field_bounds(self.0);
        }
        self.bits(21, 30)
    }

    /// A GPR index in bits 11..=15. Named `rA`.
    pub fn gpr_a(self) -> (r: Gpr)
        ensures
            r == Gpr::of_index(field(self.0, 11, 15)),
    {
        proof {
            lemma_field_bounds(self.0);
        }
        Gpr::new(self.bits(11, 15)).unwrap()
    }

    /// A GPR index in bits 11..=15. Named `(rA|0)`.
    pub fn gpr_a_or_zero(self) -> (r: GprOrZero)
        ensures
            r == GprOrZero::of_index(field(self.0, 11, 15)),
    {
        proof {
            lemma_field_bounds(self.0);
        }
        GprOrZero::new(self.bits(11, 15)).unwrap()
    }

    /// The condition bit that a branch tests, in bits 11..=15. Named `BI`.
    pub fn bi(self) -> (r: ConditionBit)
        ensures
            r == ConditionBit::of_index(field(self.0, 11, 15)),
    {
        proof {
            lemma_field_bounds(self.0);
        }
        ConditionBit::new(self.bits(11, 15)).unwrap()
    }

    /// A condition bit index in bits 11..=15. Named `crbA`.
    pub fn crb_a(self) -> (r: ConditionBit)
        ensures
            r == ConditionBit::of_index(field(self.0, 11, 15)),
    {
        proof {
            lemma_field_bounds(self.0);
        }
        ConditionBit::new(self.bits(11, 15)).unwrap()
    }

    /// A GPR index in bits 16..=20. Named `rB`.
    pub fn gpr_b(self) -> (r: Gpr)
        ensures
            r == Gpr::of_index(field(self.0, 16, 20)),
    {
        proof {
            lemma_field_bounds(self.0);
        }
        Gpr::new(self.bits(16, 20)).unwrap()
    }

    /// A shift amount in bits 16..=20. Named `SH`.
    pub fn shift(self) -> (r: u8)
        ensures
            r == field(self.0, 16, 20),
            r < 32,
    {
        proof {
            lemma_field_bounds(self.0);
        }
        self.bits(16, 20) as u8
    }

    /// A condition bit index in bits 16..=20. Named `crbB`.
    pub fn crb_b(self) -> (r: ConditionBit)
        ensures
            r == ConditionBit::of_index(field(self.0, 16, 20)),
    {
        proof {
            lemma_field_bounds(self.0);
        }
        ConditionBit::new(self.bits(16, 20)).unwrap()
    }

    /// A GPR index in bits 6..=10. Named `rD` or `rS`.
    pub fn gpr_c(self) -> (r: Gpr)
        ensures
            r == Gpr::of_index(field(self.0, 6, 10)),
    {
        proof {
            lemma_field_bounds(self.0);
        }
        Gpr::new(self.bits(6, 10)).unwrap()
    }

    /// A condition register field in bits 6..=8. Named `crfD`.
    pub fn crf_d(self) -> (r: Crf)
        ensures
            r == Crf::of_index(field(self.0, 6, 8)),
    {
        proof {
            lemma_field_bounds(self.0);
        }
        Crf::new(self.bits(6, 8)).unwrap()
    }

    /// A condition bit index in bits 6..=10. Named `crbD`.
    pub fn crb_d(self) -> (r: ConditionBit)
        ensures
            r == ConditionBit::of_index(field(self.0, 6, 10)),
    {
        proof {
            lemma_field_bounds(self.0);
        }
        ConditionBit::new(self.bits(6, 10)).unwrap()
    }

    /// The branch options in bits 6..=10. Named `BO`.
    pub fn bo(self) -> (r: Bo)
        ensures
            r.value() == field(self.0, 6, 10),
    {
        Bo::new(self.bits(6, 10))
    }

    /// The special-purpose register that bits 11..=20 name, if it is a known
    /// one.
    pub fn try_spr(self) -> (r: Option<Spr>)
        ensures
            r == Spr::of_number(spr_number(self.0)),
    {
        proof {
            lemma_field_bounds(self.0);
        }
        Spr::new(self.bits(16, 20) * 32 + self.bits(11, 15))
    }

    /// Bits 16..=31 as an unsigned number. Named `UIMM`.
    pub fn unsigned_immediate(self) -> (r: u16)
        ensures
            r == field(self.0, 16, 31),
    {
        proof {
            lemma_field_bounds(self.0);
        }
        self.bits(16, 31) as u16
    }

    /// Bits 16..=31 as a two's complement number. Named `SIMM` or `d`.
    pub fn signed_immediate(self) -> (r: i16)
        ensures
            r == signed_16(field(self.0, 16, 31)),
    {
        proof {
            lemma_field_bounds(self.0);
        }
        let x = self.bits(16, 31);
        if x < 0x8000 {
            x as i16
        } else {
            (x as i32 - 0x1_0000) as i16
        }
    }

    pub fn small_branch_offset(self) -> (r: i32)
        ensures
            r == small_offset(self.0),
            -0x8000 <= r < 0x8000,
            r % 4 == 0,
    {
        proof {
            lemma_field_bounds(self.0);
        }
        let x = 4 * self.bits(16, 29);
        if x < 0x8000 {
            x as i32
        } else {
            x as i32 - 0x1_0000
        }
    }

    pub fn large_branch_offset(self) -> (r: i32)
        ensures
            r == large_offset(self.0),
            -0x200_0000 <= r < 0x200_0000,
            r % 4 == 0,
    {
        proof {
            lemma_field_bounds(self.0);
        }
        let x = 4 * self.bits(6, 29);
        if x < 0x200_0000 {
            x as i32
        } else {
            x as i32 - 0x400_0000
        }
    }

    /// Bit 21. Named `OE`.
    pub fn overflow_enable(self) -> (r: bool)
        ensures
            r == (field(self.0, 21, 21) == 1),
    {
        self.bits(21, 21) == 1
    }

    /// Bit 31. Named `Rc`.
    pub fn update_condition_register(self) -> (r: bool)
        ensures
            r == (field(self.0, 31, 31) == 1),
    {
        self.bits(31, 31) == 1
    }

    /// Bit 30. Named `AA`.
    pub fn absolute_address(self) -> (r: bool)
        ensures
            r == (field(self.0, 30, 30) == 1),
    {
        self.bits(30, 30) == 1
    }

    /// Bit 31. Named `LK`.
    pub fn link(self) -> (r: bool)
        ensures
            r == (field(self.0, 31, 31) == 1),
    {
        self.bits(31, 31) == 1
    }

    /// Where a branch with the given offset goes.
    fn target(self, address: u32, offset: i32) -> (r: u32)
        ensures
            r == branch_target(self.0, address, offset),
    {
        let base: i64 = if self.absolute_address() {
            0
        } else {
            address as i64
        };
        let sum: i64 = base + offset as i64;
        if sum < 0 {
            (sum + 0x1_0000_0000) as u32
        } else if sum >= 0x1_0000_0000 {
            (sum - 0x1_0000_0000) as u32
        } else {
            sum as u32
        }
    }

    /// Decodes the word as the instruction at `address`.
    pub fn parse(self, address: u32) -> (r: Result<DecodedInstruction, ParseError>)
        ensures
            r == decode(self.0, address),
    {
        match self.opcode() {
            10 => {
                // Check reserved bit and width flag, which must be clear.
                if self.bits(9, 10) == 0 {
                    Ok(
                        DecodedInstruction::Cmpli {
                            crf: self.crf_d(),
                            src: self.gpr_a(),
                            immediate: self.unsigned_immediate(),
                        },
                    )
                } else {
                    Err(ParseError::IllegalEncoding)
                }
            },
            11 => {
                // Check reserved bit and width flag, which must be clear.
                if self.bits(9, 10) == 0 {
                    Ok(
                        DecodedInstruction::Cmpi {
                            crf: self.crf_d(),
                            src: self.gpr_a(),
                            immediate: self.signed_immediate(),
                        },
                    )
                } else {
                    Err(ParseError::IllegalEncoding)
                }
            },
            14 => Ok(
                DecodedInstruction::Addi {
                    dst: self.gpr_c(),
                    src: self.gpr_a_or_zero(),
                    immediate: self.signed_immediate(),
                },
            ),
            15 => Ok(
                DecodedInstruction::Addis {
                    dst: self.gpr_c(),
                    src: self.gpr_a_or_zero(),
                    immediate: self.signed_immediate(),
                },
            ),
            16 => Ok(
                DecodedInstruction::Bc {
                    condition: self.bo().modify_condition(self.bi()),
                    ctr: self.bo().ctr(),
                    link: self.link(),
                    absolute: self.absolute_address(),
                    target: self.target(address, self.small_branch_offset()),
                },
            ),
            18 => Ok(
                DecodedInstruction::B {
                    link: self.link(),
                    absolute: self.absolute_address(),
                    target: self.target(address, self.large_branch_offset()),
                },
            ),
            19 => match self.extended_opcode() {
                16 => {
                    if self.bits(16, 20) == 0 {
                        Ok(
                            DecodedInstruction::Bclr {
                                condition: self.bo().modify_condition(self.bi()),
                                ctr: self.bo().ctr(),
                                link: self.link(),
                            },
                        )
                    } else {
                        Err(ParseError::IllegalEncoding)
                    }
                },
                193 => {
                    if self.bits(31, 31) == 0 {
                        Ok(
                            DecodedInstruction::Crxor {
                                dst: self.crb_d(),
                                srcs: [self.crb_a(), self.crb_b()],
                            },
                        )
                    } else {
                        Err(ParseError::IllegalEncoding)
                    }
                },
                extended_opcode => Err(
                    ParseError::UnimplementedExtendedOpcode { opcode: 19, extended_opcode },
                ),
            },
            21 => Ok(
                DecodedInstruction::Rlwinm {
                    dst: self.gpr_a(),
                    src: self.gpr_c(),
                    shift: self.shift(),
                    mask_begin: self.five_bits(21),
                    mask_end: self.five_bits(26),
                    record: self.update_condition_register(),
                },
            ),
            31 => match self.extended_opcode() {
                32 => {
                    if self.bits(9, 10) == 0 && self.bits(31, 31) == 0 {
                        Ok(
                            DecodedInstruction::Cmpl {
                                crf: self.crf_d(),
                                srcs: [self.gpr_a(), self.gpr_b()],
                            },
                        )
                    } else {
                        Err(ParseError::IllegalEncoding)
                    }
                },
                202 | 714 => {
                    if self.bits(16, 20) == 0 {
                        Ok(
                            DecodedInstruction::Addze {
                                dst: self.gpr_c(),
                                src: self.gpr_a(),
                                overflow_enable: self.overflow_enable(),
                                record: self.update_condition_register(),
                            },
                        )
                    } else {
                        Err(ParseError::IllegalEncoding)
                    }
                },
                339 => match (self.try_spr(), self.bits(31, 31)) {
                    (Some(spr), 0) => Ok(DecodedInstruction::Mfspr { spr, dst: self.gpr_c() }),
                    _ => Err(ParseError::IllegalEncoding),
                },
                444 => Ok(
                    DecodedInstruction::Or {
                        dst: self.gpr_a(),
                        srcs: [self.gpr_c(), self.gpr_b()],
                        record: self.update_condition_register(),
                    },
                ),
                467 => match (self.try_spr(), self.bits(31, 31)) {
                    (Some(spr), 0) => Ok(DecodedInstruction::Mtspr { spr, src: self.gpr_c() }),
                    _ => Err(ParseError::IllegalEncoding),
                },
                824 => Ok(
                    DecodedInstruction::Srawi {
                        dst: self.gpr_a(),
                        src: self.gpr_c(),
                        shift: self.shift(),
                        record: self.update_condition_register(),
                    },
                ),
                extended_opcode => Err(
                    ParseError::UnimplementedExtendedOpcode { opcode: 31, extended_opcode },
                ),
            },
            32 => Ok(
                DecodedInstruction::Lwz {
                    dst: self.gpr_c(),
                    offset: self.signed_immediate(),
                    base: self.gpr_a_or_zero(),
                },
            ),
            34 => Ok(
                DecodedInstruction::Lbz {
                    dst: self.gpr_c(),
                    offset: self.signed_immediate(),
                    base: self.gpr_a_or_zero(),
                },
            ),
            36 => Ok(
                DecodedInstruction::Stw {
                    src: self.gpr_c(),
                    offset: self.signed_immediate(),
                    base: self.gpr_a_or_zero(),
                },
            ),
            37 => {
                if let Some(base) = self.gpr_a_or_zero().try_unwrap_gpr() {
                    Ok(
                        DecodedInstruction::Stwu {
                            src: self.gpr_c(),
                            offset: self.signed_immediate(),
                            base,
                        },
                    )
                } else {
                    Err(ParseError::IllegalEncoding)
                }
            },
            42 => Ok(
                DecodedInstruction::Lha {
                    dst: self.gpr_c(),
                    offset: self.signed_immediate(),
                    base: self.gpr_a_or_zero(),
                },
            ),
            47 => Ok(
                DecodedInstruction::Stmw {
                    src: self.gpr_c(),
                    offset: self.signed_immediate(),
                    base: self.gpr_a_or_zero(),
                },
            ),
            opcode => Err(ParseError::UnimplementedOpcode(opcode)),
        }
    }

    /// The five bits that begin at bit `from`: a mask bound of `rlwinm`.
    fn five_bits(self, from: u32) -> (r: u8)
        requires
            from == 21 || from == 26,
        ensures
            r == field(self.0, from, (from + 4) as u32),
    {
        proof {
            lemma_field_bounds(self.0);
        }
        self.bits(from, from + 4) as u8
    }
}

} // verus!
