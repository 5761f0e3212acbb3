use decompiler::powerpc::branch::condition_behavior::ConditionBehavior;
use decompiler::powerpc::branch::ctr_behavior::CtrBehavior;
use decompiler::powerpc::condition::condition_bit::ConditionBit;
use decompiler::powerpc::cr_constants::cr0;
use decompiler::powerpc::cr_constants::cr1;
use decompiler::powerpc::cr_constants::cr2;
use decompiler::powerpc::cr_constants::cr3;
use decompiler::powerpc::cr_constants::cr4;
use decompiler::powerpc::cr_constants::cr5;
use decompiler::powerpc::cr_constants::cr6;
use decompiler::powerpc::cr_constants::cr7;
use decompiler::powerpc::instruction::branch_info::BranchInfo;
use decompiler::powerpc::instruction::decoded_instruction::DecodedInstruction;
use decompiler::powerpc::instruction::encoded_instruction::EncodedInstruction;
use decompiler::powerpc::instruction::encoded_instruction::ParseError;
use decompiler::powerpc::instruction::format_small_i16::FormatSmallI16;
use decompiler::powerpc::instruction::format_small_u16::FormatSmallU16;
use decompiler::powerpc::register::crf::Crf;
use decompiler::powerpc::register::gpr::Gpr;
use decompiler::powerpc::register::gpr_or_zero::GprOrZero;
use decompiler::powerpc::register::non_zero_gpr::NonZeroGpr;
use decompiler::powerpc::register::spr::Spr;
use decompiler::powerpc::register::Register;

fn gpr(n: u32) -> Gpr {
    Gpr::new(n).unwrap()
}

fn parse(word: u32, address: u32) -> Result<DecodedInstruction, ParseError> {
    EncodedInstruction(word).parse(address)
}

#[test]
fn bits_basic() {
    // |xxx-----------------------------|
    assert_eq!(EncodedInstruction(0x00000000).bits(0, 2), 0x0);
    assert_eq!(EncodedInstruction(0x20000000).bits(0, 2), 0x1);
    assert_eq!(EncodedInstruction(0x40000000).bits(0, 2), 0x2);
    assert_eq!(EncodedInstruction(0x80000000).bits(0, 2), 0x4);
    assert_eq!(EncodedInstruction(0xe0000000).bits(0, 2), 0x7);

    // |---------------------------xxxxx|
    assert_eq!(EncodedInstruction(0xaa55aa40).bits(27, 31), 0x00);
    assert_eq!(EncodedInstruction(0xaa55aa41).bits(27, 31), 0x01);
    assert_eq!(EncodedInstruction(0xaa55aa42).bits(27, 31), 0x02);
    assert_eq!(EncodedInstruction(0xaa55aa44).bits(27, 31), 0x04);
    assert_eq!(EncodedInstruction(0xaa55aa48).bits(27, 31), 0x08);
    assert_eq!(EncodedInstruction(0xaa55aa50).bits(27, 31), 0x10);
    assert_eq!(EncodedInstruction(0xaa55aa5f).bits(27, 31), 0x1f);
}

#[test]
fn bits_whole_word() {
    assert_eq!(EncodedInstruction(0xdeadbeef).bits(0, 31), 0xdeadbeef);
    assert_eq!(EncodedInstruction(0xdeadbeef).bits(31, 31), 1);
    assert_eq!(EncodedInstruction(0xdeadbeef).bits(0, 0), 1);
    assert_eq!(EncodedInstruction(0xdeadbeef).bits(1, 31), 0x5eadbeef);
}

#[test]
fn format_small_i16() {
    assert_eq!(FormatSmallI16(0).to_string(), "0");
    assert_eq!(FormatSmallI16(-9).to_string(), "-9");
    assert_eq!(FormatSmallI16(9).to_string(), "9");
    assert_eq!(FormatSmallI16(-10).to_string(), "-0xa");
    assert_eq!(FormatSmallI16(10).to_string(), "0xa");
    assert_eq!(FormatSmallI16(32767).to_string(), "0x7fff");
    assert_eq!(FormatSmallI16(-32768).to_string(), "-0x8000");
}

#[test]
fn format_small_u16() {
    assert_eq!(FormatSmallU16(0).to_string(), "0");
    assert_eq!(FormatSmallU16(9).to_string(), "9");
    assert_eq!(FormatSmallU16(10).to_string(), "0xa");
    assert_eq!(FormatSmallU16(32767).to_string(), "0x7fff");
    assert_eq!(FormatSmallU16(32768).to_string(), "0x8000");
    assert_eq!(FormatSmallU16(65535).to_string(), "0xffff");
}

#[test]
fn gpr_new_in_range() {
    assert_eq!(Gpr::new(0).unwrap().as_u32(), 0);
    assert_eq!(Gpr::new(5).unwrap().as_u32(), 5);
    assert_eq!(Gpr::new(31).unwrap().as_u32(), 31);
}

#[test]
fn gpr_new_out_of_range() {
    assert!(Gpr::new(32).is_none());
    assert!(Gpr::new(std::u32::MAX).is_none());
}

#[test]
fn gpr_display() {
    assert_eq!(format!("{}", Gpr::new(0).unwrap().to_string()), "r0");
    assert_eq!(format!("{}", Gpr::new(5).unwrap().to_string()), "r5");
}

#[test]
fn gpr_debug() {
    assert_eq!(format!("{}", Gpr::new(0).unwrap().debug_string()), "r0");
    assert_eq!(format!("{}", Gpr::new(5).unwrap().debug_string()), "r5");
}

#[test]
fn gpr_or_zero_new_in_range() {
    assert!(GprOrZero::new(0).unwrap().is_zero());
    assert_eq!(GprOrZero::new(5).unwrap().unwrap_gpr().as_u32(), 5);
    assert_eq!(GprOrZero::new(31).unwrap().unwrap_gpr().as_u32(), 31);
}

#[test]
fn gpr_or_zero_new_out_of_range() {
    assert!(GprOrZero::new(32).is_none());
    assert!(GprOrZero::new(std::u32::MAX).is_none());
}

#[test]
fn gpr_or_zero_display() {
    assert_eq!(format!("{}", GprOrZero::new(0).unwrap().to_string()), "0");
    assert_eq!(format!("{}", GprOrZero::new(5).unwrap().to_string()), "r5");
}

#[test]
fn gpr_or_zero_debug() {
    assert_eq!(format!("{}", GprOrZero::new(0).unwrap().debug_string()), "0");
    assert_eq!(format!("{}", GprOrZero::new(5).unwrap().debug_string()), "r5");
}

#[test]
fn gpr_or_zero_queries() {
    let zero = GprOrZero::new(0).unwrap();
    let seven = GprOrZero::new(7).unwrap();
    assert!(!zero.is_gpr());
    assert!(seven.is_gpr());
    assert!(!seven.is_zero());
    assert_eq!(zero.try_unwrap_gpr(), None);
    assert_eq!(seven.try_unwrap_gpr(), NonZeroGpr::new(7));
    assert_eq!(zero.as_u32(), 0);
    assert_eq!(seven.as_u32(), 7);
}

#[test]
fn non_zero_gpr_range() {
    assert!(NonZeroGpr::new(0).is_none());
    assert!(NonZeroGpr::new(32).is_none());
    assert_eq!(NonZeroGpr::new(1).unwrap().as_u32(), 1);
    assert_eq!(NonZeroGpr::new(31).unwrap().as_gpr(), gpr(31));
}

#[test]
fn crf_range() {
    assert!(Crf::new(8).is_none());
    assert_eq!(Crf::new(7).unwrap().get(), 7);
    assert_eq!(Crf::new(0).unwrap().nonzero(), None);
    assert_eq!(Crf::new(3).unwrap().nonzero(), Crf::new(3));
    assert_eq!(Crf::new(3).unwrap().to_string(), "cr3");
}

#[test]
fn spr_numbers() {
    assert_eq!(Spr::new(1), Some(Spr::IntegerException));
    assert_eq!(Spr::new(8), Some(Spr::Link));
    assert_eq!(Spr::new(9), Some(Spr::Count));
    assert_eq!(Spr::new(913), Some(Spr::Gqr1));
    assert_eq!(Spr::new(919), Some(Spr::Gqr7));
    assert_eq!(Spr::new(0), None);
    assert_eq!(Spr::new(912), None);
    assert_eq!(Spr::Link.to_string(), "lr");
}

#[test]
fn condition_bit_parts() {
    let bit = ConditionBit::new(14).unwrap();
    assert_eq!(bit.crf().get(), 3);
    assert_eq!(bit.bi().as_u32(), 2);
    assert_eq!(bit.to_string(), "cr3*4+eq");
    assert_eq!(ConditionBit::new(1).unwrap().to_string(), "gt");
    assert!(ConditionBit::new(32).is_none());
    let crf = Crf::new(3).unwrap();
    let eq = decompiler::powerpc::condition::condition::Condition::Equal;
    assert_eq!(ConditionBit::from_crf_and_condition(crf, eq), bit);
}

#[test]
fn register_codes_round_trip() {
    for code in 0..75 {
        let register = Register::from_code(code).unwrap();
        assert_eq!(register.to_code(), code);
    }
    assert_eq!(Register::from_code(75), None);
    assert_eq!(Register::from(gpr(0)).to_code(), 1);
    assert_eq!(Register::from(Spr::IntegerException).to_code(), 33);
    assert_eq!(Register::from(ConditionBit::new(0).unwrap()).to_code(), 43);
    assert_eq!(Register::from(GprOrZero::new(0).unwrap()), Register::Zero);
    assert_eq!(Register::from(GprOrZero::new(4).unwrap()), Register::GeneralPurpose(gpr(4)));
    assert_eq!(Register::from(NonZeroGpr::new(4).unwrap()), Register::GeneralPurpose(gpr(4)));
}

#[test]
fn decodes_tiny_block_instruction() {
    assert_eq!(
        parse(0x38600005, 0x00001000),
        Ok(DecodedInstruction::Addi {
            dst: gpr(3),
            src: GprOrZero::Zero,
            immediate: 5,
        })
    );
}

#[test]
fn decodes_negative_immediate() {
    assert_eq!(
        parse(0x3821fff0, 0),
        Ok(DecodedInstruction::Addi {
            dst: gpr(1),
            src: GprOrZero::new(1).unwrap(),
            immediate: -16,
        })
    );
    assert_eq!(
        parse(0x93e1fff0, 0),
        Ok(DecodedInstruction::Stw {
            src: gpr(31),
            offset: -16,
            base: GprOrZero::new(1).unwrap(),
        })
    );
}

#[test]
fn decodes_branches() {
    assert_eq!(
        parse(0x48000008, 0x1000),
        Ok(DecodedInstruction::B { link: false, absolute: false, target: 0x1008 })
    );
    assert_eq!(
        parse(0x48000005, 0x1000),
        Ok(DecodedInstruction::B { link: true, absolute: false, target: 0x1004 })
    );
    // A backward branch: the offset is negative.
    assert_eq!(
        parse(0x4bfffff8, 0x1000),
        Ok(DecodedInstruction::B { link: false, absolute: false, target: 0x0ff8 })
    );
    // An absolute branch ignores the address of the instruction.
    assert_eq!(
        parse(0x48000102, 0x1000),
        Ok(DecodedInstruction::B { link: false, absolute: true, target: 0x100 })
    );
    // The target wraps around at 32 bits.
    assert_eq!(
        parse(0x4bfffff8, 0x4),
        Ok(DecodedInstruction::B { link: false, absolute: false, target: 0xfffffffc })
    );
    assert_eq!(
        parse(0x4182000c, 0x1000),
        Ok(DecodedInstruction::Bc {
            condition: ConditionBehavior::BranchTrue(ConditionBit::new(2).unwrap()),
            ctr: CtrBehavior::Untouched,
            link: false,
            absolute: false,
            target: 0x100c,
        })
    );
    assert_eq!(
        parse(0x4e800020, 0x1000),
        Ok(DecodedInstruction::Bclr {
            condition: ConditionBehavior::BranchAlways,
            ctr: CtrBehavior::Untouched,
            link: false,
        })
    );
    // bdnz -8
    assert_eq!(
        parse(0x4200fff8, 0x1000),
        Ok(DecodedInstruction::Bc {
            condition: ConditionBehavior::BranchAlways,
            ctr: CtrBehavior::DecrementBranchNonzero,
            link: false,
            absolute: false,
            target: 0x0ff8,
        })
    );
}

#[test]
fn decodes_the_other_instructions() {
    assert_eq!(
        parse(0x3c608000, 0),
        Ok(DecodedInstruction::Addis {
            dst: gpr(3),
            src: GprOrZero::Zero,
            immediate: -32768,
        })
    );
    assert_eq!(
        parse(0x7c630194, 0),
        Ok(DecodedInstruction::Addze {
            dst: gpr(3),
            src: gpr(3),
            overflow_enable: false,
            record: false,
        })
    );
    assert_eq!(
        parse(0x2c030000, 0),
        Ok(DecodedInstruction::Cmpi { crf: Crf::new(0).unwrap(), src: gpr(3), immediate: 0 })
    );
    assert_eq!(
        parse(0x7c032040, 0),
        Ok(DecodedInstruction::Cmpl { crf: Crf::new(0).unwrap(), srcs: [gpr(3), gpr(4)] })
    );
    assert_eq!(
        parse(0x2883ffff, 0),
        Ok(DecodedInstruction::Cmpli { crf: Crf::new(1).unwrap(), src: gpr(3), immediate: 0xffff })
    );
    assert_eq!(
        parse(0x4cc63182, 0),
        Ok(DecodedInstruction::Crxor {
            dst: ConditionBit::new(6).unwrap(),
            srcs: [ConditionBit::new(6).unwrap(), ConditionBit::new(6).unwrap()],
        })
    );
    assert_eq!(
        parse(0x88030004, 0),
        Ok(DecodedInstruction::Lbz { dst: gpr(0), offset: 4, base: GprOrZero::new(3).unwrap() })
    );
    assert_eq!(
        parse(0xa8030004, 0),
        Ok(DecodedInstruction::Lha { dst: gpr(0), offset: 4, base: GprOrZero::new(3).unwrap() })
    );
    assert_eq!(
        parse(0x80010014, 0),
        Ok(DecodedInstruction::Lwz { dst: gpr(0), offset: 20, base: GprOrZero::new(1).unwrap() })
    );
    assert_eq!(parse(0x7c0802a6, 0), Ok(DecodedInstruction::Mfspr { spr: Spr::Link, dst: gpr(0) }));
    assert_eq!(parse(0x7c0803a6, 0), Ok(DecodedInstruction::Mtspr { spr: Spr::Link, src: gpr(0) }));
    assert_eq!(parse(0x7c0903a6, 0), Ok(DecodedInstruction::Mtspr { spr: Spr::Count, src: gpr(0) }));
    assert_eq!(
        parse(0x7c7f1b78, 0),
        Ok(DecodedInstruction::Or { dst: gpr(31), srcs: [gpr(3), gpr(3)], record: false })
    );
    assert_eq!(
        parse(0x7c7f2379, 0),
        Ok(DecodedInstruction::Or { dst: gpr(31), srcs: [gpr(3), gpr(4)], record: true })
    );
    assert_eq!(
        parse(0x5463103a, 0),
        Ok(DecodedInstruction::Rlwinm {
            dst: gpr(3),
            src: gpr(3),
            shift: 2,
            mask_begin: 0,
            mask_end: 29,
            record: false,
        })
    );
    assert_eq!(
        parse(0x7c631670, 0),
        Ok(DecodedInstruction::Srawi { dst: gpr(3), src: gpr(3), shift: 2, record: false })
    );
    assert_eq!(
        parse(0xbfc10008, 0),
        Ok(DecodedInstruction::Stmw { src: gpr(30), offset: 8, base: GprOrZero::new(1).unwrap() })
    );
    assert_eq!(
        parse(0x9421ffe0, 0),
        Ok(DecodedInstruction::Stwu { src: gpr(1), offset: -32, base: NonZeroGpr::new(1).unwrap() })
    );
}

#[test]
fn parse_errors() {
    // ori: opcode 24 is not known.
    assert_eq!(parse(0x60000000, 0), Err(ParseError::UnimplementedOpcode(24)));
    assert_eq!(parse(0xffffffff, 0), Err(ParseError::UnimplementedOpcode(63)));
    // Opcode 19 with an extended opcode that is not known.
    assert_eq!(
        parse(0x4c00012c, 0),
        Err(ParseError::UnimplementedExtendedOpcode { opcode: 19, extended_opcode: 150 })
    );
    // Opcode 31 with an extended opcode that is not known.
    assert_eq!(
        parse(0x7c000000, 0),
        Err(ParseError::UnimplementedExtendedOpcode { opcode: 31, extended_opcode: 0 })
    );
    // stwu with the base 0.
    assert_eq!(parse(0x9400ffe0, 0), Err(ParseError::IllegalEncoding));
    // cmplwi with the L bit set.
    assert_eq!(parse(0x28230000, 0), Err(ParseError::IllegalEncoding));
    // cmpwi with the reserved bit set.
    assert_eq!(parse(0x2c430000, 0), Err(ParseError::IllegalEncoding));
    // blr with reserved bits set.
    assert_eq!(parse(0x4e800820, 0), Err(ParseError::IllegalEncoding));
    // mfspr of a register that is not known.
    assert_eq!(parse(0x7c0002a6, 0), Err(ParseError::IllegalEncoding));
    // mflr with the record bit set.
    assert_eq!(parse(0x7c0802a7, 0), Err(ParseError::IllegalEncoding));
    // crxor with the link bit set.
    assert_eq!(parse(0x4cc63183, 0), Err(ParseError::IllegalEncoding));
    // addze with rB set.
    assert_eq!(parse(0x7c630994, 0), Err(ParseError::IllegalEncoding));
    // cmplw with the record bit set.
    assert_eq!(parse(0x7c032041, 0), Err(ParseError::IllegalEncoding));
}

#[test]
fn parse_error_messages() {
    assert_eq!(ParseError::UnimplementedOpcode(24).to_string(), "unimplemented opcode: 24");
    assert_eq!(
        ParseError::UnimplementedExtendedOpcode { opcode: 31, extended_opcode: 150 }.to_string(),
        "unimplemented extended opcode: opcode = 31, extended_opcode = 150"
    );
    assert_eq!(ParseError::IllegalEncoding.to_string(), "illegal encoding");
}

#[test]
fn branch_metadata() {
    let b = parse(0x48000008, 0x1000).unwrap().branch_info().unwrap();
    assert_eq!(
        b,
        BranchInfo {
            condition: ConditionBehavior::BranchAlways,
            ctr: CtrBehavior::Untouched,
            link: false,
            target: Some(0x1008),
        }
    );
    assert!(!b.is_conditional());
    assert!(b.diverges());

    let bl = parse(0x48000005, 0x1000).unwrap().branch_info().unwrap();
    assert!(!bl.is_conditional());
    assert!(!bl.diverges());

    let beq = parse(0x4182000c, 0x1000).unwrap().branch_info().unwrap();
    assert!(beq.is_conditional());
    assert!(!beq.diverges());
    assert_eq!(beq.target, Some(0x100c));

    let bdnz = parse(0x4200fff8, 0x1000).unwrap().branch_info().unwrap();
    assert!(bdnz.is_conditional());

    let blr = parse(0x4e800020, 0x1000).unwrap().branch_info().unwrap();
    assert_eq!(blr.target, None);
    assert!(blr.diverges());

    let bne_lr = parse(0x4c820020, 0x1000).unwrap().branch_info().unwrap();
    assert_eq!(bne_lr.condition, ConditionBehavior::BranchFalse(ConditionBit::new(2).unwrap()));
    assert!(bne_lr.is_conditional());

    assert_eq!(parse(0x38600005, 0x1000).unwrap().branch_info(), None);
}

#[test]
fn instruction_text() {
    let text = |word: u32, address: u32| parse(word, address).unwrap().to_string();
    assert_eq!(text(0x38600005, 0), "li r3, 5");
    assert_eq!(text(0x3821fff0, 0), "addi r1, r1, -0x10");
    assert_eq!(text(0x3c608000, 0), "addis r3, 0, -0x8000");
    assert_eq!(text(0x7c630194, 0), "addze r3, r3");
    assert_eq!(text(0x48000008, 0x1000), "b 0x00001008");
    assert_eq!(text(0x48000005, 0x1000), "bl 0x00001004");
    assert_eq!(text(0x48000102, 0x1000), "ba 0x00000100");
    assert_eq!(text(0x4182000c, 0x1000), "beq 0x0000100c");
    assert_eq!(text(0x4086000c, 0x1000), "bne cr1, 0x0000100c");
    assert_eq!(text(0x4200fff8, 0x1000), "bdnz 0x00000ff8");
    assert_eq!(text(0x4e800020, 0), "blr");
    assert_eq!(text(0x4e800021, 0), "blrl");
    assert_eq!(text(0x4c820020, 0), "bnelr");
    assert_eq!(text(0x4d860020, 0), "beqlr cr1");
    assert_eq!(text(0x2c030000, 0), "cmpwi r3, 0");
    assert_eq!(text(0x7c032040, 0), "cmplw r3, r4");
    assert_eq!(text(0x2883ffff, 0), "cmplwi cr1, r3, 0xffff");
    assert_eq!(text(0x4cc63182, 0), "crxor cr1*4+eq, cr1*4+eq, cr1*4+eq");
    assert_eq!(text(0x88030004, 0), "lbz r0, 4(r3)");
    assert_eq!(text(0xa8030000, 0), "lha r0, (r3)");
    assert_eq!(text(0x80010014, 0), "lwz r0, 0x14(r1)");
    assert_eq!(text(0x7c0802a6, 0), "mflr r0");
    assert_eq!(text(0x7c0903a6, 0), "mtctr r0");
    assert_eq!(text(0x7c7f1b78, 0), "mr r31, r3");
    assert_eq!(text(0x7c7f2379, 0), "or. r31, r3, r4");
    assert_eq!(text(0x5463103a, 0), "rlwinm r3, r3, 2, 0, 29");
    assert_eq!(text(0x7c631670, 0), "srawi r3, r3, 2");
    assert_eq!(text(0xbfc10008, 0), "stmw r30, 8(r1)");
    assert_eq!(text(0x93e1fff0, 0), "stw r31, -0x10(r1)");
    assert_eq!(text(0x9421ffe0, 0), "stwu r1, -0x20(r1)");
}

#[test]
fn condition_register_fields_by_name() {
    let fields = [cr0(), cr1(), cr2(), cr3(), cr4(), cr5(), cr6(), cr7()];
    for (n, field) in fields.iter().enumerate() {
        assert_eq!(field.get(), n as u32);
        assert_eq!(Some(*field), Crf::new(n as u32));
    }
}
