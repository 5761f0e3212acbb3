use decompiler::basic_blocks::build_basic_blocks;
use decompiler::basic_blocks::Unterminated;
use decompiler::discovery::discover;
use decompiler::discovery::scan_and_close_addrs;
use decompiler::discovery::Unmapped;
use decompiler::dol::reader::Reader;
use decompiler::expressions::build_expressions;
use decompiler::expressions::execution::bind_leaving;
use decompiler::expressions::execution::execute_block;
use decompiler::expressions::execution::execute_blocks;
use decompiler::expressions::execution::fetch;
use decompiler::expressions::address::extract_base_offset;
use decompiler::expressions::resolution::resolve_block;
use decompiler::expressions::roots::roots;
use decompiler::expressions::roots::stack_frame_write;
use decompiler::expressions::tracing::trace;
use decompiler::expressions::tracing::trace_step;
use decompiler::expressions::ExpressionError;
use decompiler::fact::basic_block::BasicBlockFact;
use decompiler::fact::basic_block::BasicBlockFactBuilder;
use decompiler::fact::basic_block_end::BasicBlockEndFact;
use decompiler::fact::branch_target::BranchTargetFact;
use decompiler::fact::parse_error::ParseErrorFact;
use decompiler::fact::subroutine::SubroutineFact;
use decompiler::fact::subroutine_call::SubroutineCallFact;
use decompiler::fact_database::FactDatabase;
use decompiler::powerpc::condition::condition_bit::ConditionBit;
use decompiler::powerpc::instruction::decoded_instruction::DecodedInstruction;
use decompiler::powerpc::instruction::encoded_instruction::EncodedInstruction;
use decompiler::powerpc::instruction::encoded_instruction::ParseError;
use decompiler::powerpc::register::gpr::Gpr;
use decompiler::powerpc::register::spr::Spr;
use decompiler::powerpc::register::Register;
use decompiler::powerpc_symbolic::AccessWidth;
use decompiler::powerpc_symbolic::Context;
use decompiler::powerpc_symbolic::MachineState;
use decompiler::powerpc_symbolic::Update;
use decompiler::powerpc_symbolic::Variable;
use decompiler::powerpc_symbolic::Write;
use decompiler::symbolic::expr::Expr;
use decompiler::symbolic::expr_ref::ExprRef;
use decompiler::symbolic::numbered::NumberedVariable;
use decompiler::work_set::WorkSet;

/// A DOL file with one section that is loaded to `load_address` and holds
/// the given words.
fn program(load_address: u32, words: &[u32]) -> Vec<u8> {
    let mut image = vec![0u8; 0x100];
    let size = 4 * words.len() as u32;
    image[0x00..0x04].copy_from_slice(&0x100u32.to_be_bytes());
    image[0x48..0x4c].copy_from_slice(&load_address.to_be_bytes());
    image[0x90..0x94].copy_from_slice(&size.to_be_bytes());
    image[0xe0..0xe4].copy_from_slice(&load_address.to_be_bytes());
    for word in words {
        image.extend_from_slice(&word.to_be_bytes());
    }
    image
}

fn gpr(n: u32) -> Register {
    Register::GeneralPurpose(Gpr::new(n).unwrap())
}

fn bit(n: u32) -> Register {
    Register::ConditionBit(ConditionBit::new(n).unwrap())
}

fn decode(word: u32, address: u32) -> DecodedInstruction {
    EncodedInstruction(word).parse(address).unwrap()
}

fn named(ctx: &mut Context, variable: Variable) -> ExprRef {
    ctx.variable_expr(variable)
}

fn entering(ctx: &mut Context, block: u32, register: Register) -> ExprRef {
    named(ctx, Variable::RegisterEntering { basic_block_addr: block, register })
}

fn leaving(ctx: &mut Context, block: u32, register: Register) -> ExprRef {
    named(ctx, Variable::RegisterLeaving { basic_block_addr: block, register })
}

fn sources(db: &FactDatabase, addr: u32) -> Option<Vec<u32>> {
    db.get_fact::<BranchTargetFact>(addr).map(|fact| fact.iter_sources())
}

fn successors(db: &FactDatabase, addr: u32) -> Option<Vec<u32>> {
    db.get_fact::<BasicBlockEndFact>(addr).map(|fact| fact.successors())
}

fn block(db: &FactDatabase, addr: u32) -> (u32, Vec<u32>, Vec<u32>) {
    let fact = db.get_fact::<BasicBlockFact>(addr).unwrap();
    (fact.end_addr(), fact.predecessors().to_vec(), fact.successors().to_vec())
}

// The fact database

#[test]
fn fact_database_indexes_agree() {
    let mut db = FactDatabase::new();
    assert!(db.get_fact::<SubroutineFact>(0x10).is_none());
    assert!(db.iter_facts_with_type::<SubroutineFact>().is_empty());
    db.insert_fact_with(0x30, || SubroutineFact);
    db.insert_fact_with(0x10, || SubroutineFact);
    db.insert_fact_with(0x20, || SubroutineCallFact::new(0x30));
    db.fact_or_default::<BranchTargetFact>(0x10).record_source(0x20);
    db.fact_or_default::<BasicBlockEndFact>(0x40);
    db.insert_fact_with(0x50, || ParseErrorFact::new(ParseError::IllegalEncoding));
    let all: Vec<u32> = db.iter_facts().iter().map(|(addr, _)| *addr).collect();
    assert_eq!(all, [0x10, 0x20, 0x30, 0x40, 0x50]);
    assert_eq!(db.iter_facts_with_type::<SubroutineFact>(), [0x10, 0x30]);
    assert_eq!(db.iter_facts_with_type::<SubroutineCallFact>(), [0x20]);
    assert_eq!(db.iter_facts_with_type::<BranchTargetFact>(), [0x10]);
    assert_eq!(db.iter_facts_with_type::<BasicBlockEndFact>(), [0x40]);
    assert_eq!(db.iter_facts_with_type::<ParseErrorFact>(), [0x50]);
    assert!(db.iter_facts_with_type::<BasicBlockFact>().is_empty());
    for addr in [0x00, 0x10, 0x20, 0x30, 0x40, 0x50, 0x60] {
        assert_eq!(
            db.get_fact::<SubroutineFact>(addr).is_some(),
            db.iter_facts_with_type::<SubroutineFact>().contains(&addr)
        );
        assert_eq!(
            db.get_fact::<BranchTargetFact>(addr).is_some(),
            db.iter_facts_with_type::<BranchTargetFact>().contains(&addr)
        );
        assert_eq!(
            db.get_fact::<BasicBlockEndFact>(addr).is_some(),
            db.iter_facts_with_type::<BasicBlockEndFact>().contains(&addr)
        );
    }
    let (addr, facts) = &db.iter_facts()[0];
    assert_eq!(*addr, 0x10);
    assert!(facts.subroutine.is_some());
    assert!(facts.branch_target.is_some());
    assert!(facts.basic_block_end.is_none());
}

#[test]
fn facts_are_never_overwritten() {
    let mut db = FactDatabase::new();
    db.insert_fact_with(0x20, || SubroutineCallFact::new(0x30));
    db.insert_fact_with(0x20, || SubroutineCallFact::new(0x40));
    db.insert_fact(0x20, SubroutineCallFact::new(0x50));
    assert_eq!(db.get_fact::<SubroutineCallFact>(0x20).unwrap().target(), 0x30);
    db.insert_fact(0x24, SubroutineCallFact::new(0x50));
    assert_eq!(db.get_fact::<SubroutineCallFact>(0x24).unwrap().target(), 0x50);
    db.insert_fact_with(0x28, || ParseErrorFact::new(ParseError::UnimplementedOpcode(1)));
    db.insert_fact_with(0x28, || ParseErrorFact::new(ParseError::IllegalEncoding));
    assert_eq!(
        *db.get_fact::<ParseErrorFact>(0x28).unwrap().parse_error(),
        ParseError::UnimplementedOpcode(1)
    );
}

#[test]
fn default_facts_accumulate() {
    let mut db = FactDatabase::new();
    db.fact_or_default::<BranchTargetFact>(0x100).record_source(0x30);
    db.fact_or_default::<BranchTargetFact>(0x100).record_source(0x10);
    db.fact_or_default::<BranchTargetFact>(0x100).record_source(0x30);
    assert_eq!(sources(&db, 0x100), Some(vec![0x10, 0x30]));
    assert!(db.get_fact_mut::<BranchTargetFact>(0x104).is_none());
    db.get_fact_mut::<BranchTargetFact>(0x100).unwrap().record_source(0x20);
    assert_eq!(sources(&db, 0x100), Some(vec![0x10, 0x20, 0x30]));
    assert_eq!(
        db.get_fact::<BranchTargetFact>(0x100).unwrap().to_string(),
        "#[branch_target(sources = [0x00000010, 0x00000020, 0x00000030])]"
    );
    assert_eq!(db.fact_or_default::<BranchTargetFact>(0x200).to_string(), "#[branch_target(sources = [])]");
    assert_eq!(SubroutineFact.to_string(), "#[subroutine]");
    db.fact_or_default::<BasicBlockEndFact>(0x100).record_successor(0x8);
    db.fact_or_default::<BasicBlockEndFact>(0x100).record_successor(0x4);
    assert_eq!(successors(&db, 0x100), Some(vec![0x4, 0x8]));
    assert_eq!(sources(&db, 0x100), Some(vec![0x10, 0x20, 0x30]));
    assert_eq!(db.iter_facts_with_type::<BranchTargetFact>(), [0x100, 0x200]);
}

// The discovery pass

#[test]
fn branch_target_linkage() {
    let image = program(0x1000, &[0x48000008, 0x60000000, 0x38000000]);
    let dol = Reader::new(&image);
    let mut db = FactDatabase::new();
    // The scan from the target runs into memory that is not mapped.
    assert_eq!(discover(dol, 0x1000, &mut db).err(), Some(Unmapped(0x100c)));
    assert_eq!(sources(&db, 0x1008), Some(vec![0x1000]));
    assert_eq!(successors(&db, 0x1000), Some(vec![0x1008]));
    // 0x1004 was never scanned: the word there is no known instruction.
    assert!(db.get_fact::<ParseErrorFact>(0x1004).is_none());
    assert!(db.get_fact::<SubroutineFact>(0x1000).is_some());
    let all: Vec<u32> = db.iter_facts().iter().map(|(addr, _)| *addr).collect();
    assert_eq!(all, [0x1000, 0x1008]);
}

#[test]
fn branch_target_linkage_with_a_return() {
    let image = program(0x1000, &[0x48000008, 0x60000000, 0x38000000, 0x4e800020]);
    let dol = Reader::new(&image);
    let mut db = FactDatabase::new();
    let scanned = discover(dol, 0x1000, &mut db).ok().unwrap();
    let mut known = scanned.iter_known();
    known.sort();
    assert_eq!(known, [0x1000, 0x1008, 0x100c]);
    assert_eq!(sources(&db, 0x1008), Some(vec![0x1000]));
    assert_eq!(successors(&db, 0x1000), Some(vec![0x1008]));
    assert_eq!(successors(&db, 0x100c), Some(vec![]));
    assert!(db.get_fact::<ParseErrorFact>(0x1004).is_none());
}

#[test]
fn conditional_branch() {
    let image = program(0x1000, &[0x4182000c, 0x4e800020, 0x4e800020, 0x4e800020]);
    let dol = Reader::new(&image);
    let mut db = FactDatabase::new();
    let mut addrs_to_scan = WorkSet::new();
    assert_eq!(scan_and_close_addrs(dol, 0x1000, &mut db, &mut addrs_to_scan), Ok(()));
    assert_eq!(successors(&db, 0x1000), Some(vec![0x1004, 0x100c]));
    assert_eq!(sources(&db, 0x100c), Some(vec![0x1000]));
    // The branch falls through, and the return behind it ends the scan.
    assert_eq!(successors(&db, 0x1004), Some(vec![]));
    assert_eq!(addrs_to_scan.peek(), Some(&0x100c));
    assert!(!addrs_to_scan.close(0x1000));
    assert!(!addrs_to_scan.close(0x1004));
    assert!(addrs_to_scan.close(0x1008));
}

#[test]
fn subroutine_call() {
    let image = program(0x1000, &[0x48000005, 0x4e800020]);
    let dol = Reader::new(&image);
    let mut db = FactDatabase::new();
    let mut addrs_to_scan = WorkSet::new();
    assert_eq!(scan_and_close_addrs(dol, 0x1000, &mut db, &mut addrs_to_scan), Ok(()));
    assert_eq!(db.get_fact::<SubroutineCallFact>(0x1000).unwrap().target(), 0x1004);
    assert!(db.get_fact::<SubroutineFact>(0x1004).is_some());
    assert_eq!(sources(&db, 0x1004), Some(vec![0x1000]));
    // The call does not end a basic block, and the scan went on behind it.
    assert!(db.get_fact::<BasicBlockEndFact>(0x1000).is_none());
    assert_eq!(successors(&db, 0x1004), Some(vec![]));
    assert_eq!(addrs_to_scan.peek(), None);
    assert!(!addrs_to_scan.close(0x1004));
}

#[test]
fn parse_error_ends_the_scan() {
    let image = program(0x1000, &[0x38600005, 0x60000000, 0x4e800020]);
    let dol = Reader::new(&image);
    let mut db = FactDatabase::new();
    let scanned = discover(dol, 0x1000, &mut db).ok().unwrap();
    let mut known = scanned.iter_known();
    known.sort();
    assert_eq!(known, [0x1000, 0x1004]);
    assert_eq!(
        *db.get_fact::<ParseErrorFact>(0x1004).unwrap().parse_error(),
        ParseError::UnimplementedOpcode(24)
    );
    assert_eq!(db.iter_facts_with_type::<ParseErrorFact>(), [0x1004]);
    assert!(db.get_fact::<BasicBlockEndFact>(0x1008).is_none());
}

#[test]
fn scan_stops_at_a_closed_address() {
    let image = program(0x1000, &[0x38600005, 0x38600006, 0x4e800020]);
    let dol = Reader::new(&image);
    let mut db = FactDatabase::new();
    let mut addrs_to_scan = WorkSet::new();
    addrs_to_scan.close(0x1004);
    assert_eq!(scan_and_close_addrs(dol, 0x1000, &mut db, &mut addrs_to_scan), Ok(()));
    assert!(db.iter_facts().is_empty());
    assert_eq!(scan_and_close_addrs(dol, 0x1000, &mut db, &mut addrs_to_scan), Ok(()));
    assert!(db.iter_facts().is_empty());
    assert_eq!(scan_and_close_addrs(dol, 0x1008, &mut db, &mut addrs_to_scan), Ok(()));
    assert_eq!(successors(&db, 0x1008), Some(vec![]));
    assert_eq!(
        scan_and_close_addrs(dol, 0x2000, &mut db, &mut addrs_to_scan),
        Err(Unmapped(0x2000))
    );
}

// The basic-block builder

/// if (r3 == 0) { r3 = 2 } else { r3 = 1 }; return
const DIAMOND: [u32; 6] = [
    0x28030000, // 0x1000: cmplwi r3, 0
    0x4182000c, // 0x1004: beq 0x1010
    0x38600001, // 0x1008: li r3, 1
    0x48000008, // 0x100c: b 0x1014
    0x38600002, // 0x1010: li r3, 2
    0x4e800020, // 0x1014: blr
];

fn diamond() -> (Vec<u8>, FactDatabase) {
    let image = program(0x1000, &DIAMOND);
    let mut db = FactDatabase::new();
    {
        let dol = Reader::new(&image);
        assert!(discover(dol, 0x1000, &mut db).is_ok());
        assert_eq!(build_basic_blocks(&mut db, 0x1000), Ok(()));
    }
    (image, db)
}

#[test]
fn basic_blocks_of_a_diamond() {
    let (_, db) = diamond();
    assert_eq!(db.iter_facts_with_type::<BasicBlockFact>(), [0x1000, 0x1008, 0x1010, 0x1014]);
    assert_eq!(block(&db, 0x1000), (0x1008, vec![], vec![0x1008, 0x1010]));
    assert_eq!(block(&db, 0x1008), (0x1010, vec![0x1000], vec![0x1014]));
    // This block ends because the next instruction is a branch target.
    assert_eq!(block(&db, 0x1010), (0x1014, vec![0x1000], vec![0x1014]));
    assert_eq!(block(&db, 0x1014), (0x1018, vec![0x1008, 0x1010], vec![]));
    assert!(db.get_fact::<BasicBlockFact>(0x1000).unwrap().writes().is_empty());
}

#[test]
fn basic_block_edges_are_known_at_both_ends() {
    let (_, db) = diamond();
    for start in db.iter_facts_with_type::<BasicBlockFact>() {
        let (end, predecessors, successors) = block(&db, start);
        assert!(end > start);
        assert_eq!((end - start) % 4, 0);
        let mut inside = start;
        while inside < end - 4 {
            assert!(db.get_fact::<BasicBlockEndFact>(inside).is_none());
            inside += 4;
        }
        for successor in successors {
            assert!(block(&db, successor).1.contains(&start));
        }
        for predecessor in predecessors {
            assert!(block(&db, predecessor).2.contains(&start));
        }
    }
}

#[test]
fn basic_block_of_a_loop_is_its_own_predecessor() {
    // 0x1000: li r3, 5; 0x1004: addi r3, r3, -1; 0x1008: cmplwi r3, 0;
    // 0x100c: bne 0x1004; 0x1010: blr
    let image = program(0x1000, &[0x38600005, 0x3863ffff, 0x28030000, 0x4082fff8, 0x4e800020]);
    let dol = Reader::new(&image);
    let mut db = FactDatabase::new();
    assert!(discover(dol, 0x1000, &mut db).is_ok());
    assert_eq!(build_basic_blocks(&mut db, 0x1000), Ok(()));
    assert_eq!(db.iter_facts_with_type::<BasicBlockFact>(), [0x1000, 0x1004, 0x1010]);
    assert_eq!(block(&db, 0x1000), (0x1004, vec![], vec![0x1004]));
    assert_eq!(block(&db, 0x1004), (0x1010, vec![0x1000, 0x1004], vec![0x1004, 0x1010]));
    assert_eq!(block(&db, 0x1010), (0x1014, vec![0x1004], vec![]));
}

#[test]
fn basic_block_builder_scans_to_the_end() {
    let (_, db) = diamond();
    let mut builder = BasicBlockFactBuilder::new(&db, 0x1008);
    assert_eq!(builder.successors(), [0x1014]);
    builder.insert_predecessor(0x30);
    builder.insert_predecessor(0x10);
    builder.insert_predecessor(0x30);
    let fact = builder.build();
    assert_eq!(fact.end_addr(), 0x1010);
    assert_eq!(fact.predecessors(), [0x10, 0x30]);
    assert_eq!(fact.successors(), [0x1014]);
    assert!(fact.writes().is_empty());
    // From inside a block to its end.
    assert_eq!(BasicBlockFactBuilder::new(&db, 0x100c).build().end_addr(), 0x1010);
    // No block ends behind the last end of a block.
    let db = blocks_ending_at(0xffff_fff4);
    assert_eq!(BasicBlockFactBuilder::new(&db, 0xffff_ffe8).build().end_addr(), 0xffff_fff4);
    assert!(BasicBlockFactBuilder::try_new(&db, 0xffff_fff4).is_none());
    assert!(BasicBlockFactBuilder::try_new(&db, 0xffff_fffc).is_none());
    // The end of a block at the last word of the address space would be no 32-bit number.
    let db = blocks_ending_at(0);
    assert!(BasicBlockFactBuilder::try_new(&db, 0xffff_fffc).is_none());
}

#[test]
fn basic_blocks_need_an_end() {
    let image = program(0xffff_fff0, &[0x38600005, 0x60000000]);
    let dol = Reader::new(&image);
    let mut db = FactDatabase::new();
    assert!(discover(dol, 0xffff_fff0, &mut db).is_ok());
    // The scan ended at a parse error: the block at the entry point has no end.
    assert_eq!(build_basic_blocks(&mut db, 0xffff_fff0), Err(Unterminated(0xffff_fff0)));
    assert!(db.iter_facts_with_type::<BasicBlockFact>().is_empty());
}

// The machine state

#[test]
fn tiny_block() {
    let instruction = decode(0x38600005, 0x00001000);
    let mut ctx = Context::new();
    let mut state = MachineState::new(0x1000);
    let update = state.prepare_update(&mut ctx, 0x1000, &instruction);
    assert!(update.writes.is_empty());
    assert_eq!(update.registers.len(), 1);
    let (register, value) = update.registers[0];
    assert_eq!(register, gpr(3));
    // The sum of the literal zero and 5 is the literal 5.
    assert_eq!(ctx.literal_value(value), Some(5));
    assert!(state.iter_registers().is_empty());
    assert!(state.apply(update).is_empty());
    assert_eq!(state.iter_registers(), [(gpr(3), value)]);
    assert_eq!(state.get_register(&mut ctx, gpr(3)), value);
}

#[test]
fn registers_read_as_entering_variables() {
    let mut ctx = Context::new();
    let mut state = MachineState::new(0x2000);
    let zero = state.get_register(&mut ctx, Register::Zero);
    assert_eq!(ctx.literal_value(zero), Some(0));
    assert!(state.iter_registers().is_empty());
    let r4 = state.get_register(&mut ctx, gpr(4));
    assert_eq!(r4, entering(&mut ctx, 0x2000, gpr(4)));
    assert_eq!(state.get_register(&mut ctx, gpr(4)), r4);
    assert_eq!(state.read_register(&mut ctx, gpr(4)), r4);
    // A register that was only read was not set.
    assert!(state.iter_registers().is_empty());
    assert_eq!(state.value_of(gpr(4).to_code()), None);
    assert!(state.apply(Update::new()).is_empty());
    assert!(state.iter_registers().is_empty());
    // A register that was set has the value that it was set to last.
    let five = ctx.literal_expr(5);
    let six = ctx.literal_expr(6);
    let mut update = Update::one_register(gpr(4), five);
    update.set_register(gpr(4), six);
    update.set_register(Register::Zero, five);
    state.apply(update);
    assert_eq!(state.iter_registers(), [(gpr(4), six)]);
    assert_eq!(state.get_register(&mut ctx, gpr(4)), six);
    let mut update = Update::one(gpr(5), five);
    update.set(gpr(4), five);
    assert_eq!(update.registers, [(gpr(5), five), (gpr(4), five)]);
    assert!(update.writes.is_empty());
    state.apply(update);
    let mut set = state.iter_registers();
    set.sort_by_key(|(register, _)| *register);
    assert_eq!(set, [(gpr(4), five), (gpr(5), five)]);
    assert!(gpr(4) < gpr(5) && Register::Zero < gpr(0) && gpr(31) < Register::SpecialPurpose(Spr::Link));
    assert_eq!(state.value_of(gpr(4).to_code()), Some(five));
    assert_eq!(state.value_of(gpr(6).to_code()), None);
    let lr = state.get_register(&mut ctx, Spr::Link);
    assert_eq!(lr, entering(&mut ctx, 0x2000, Register::SpecialPurpose(Spr::Link)));
    assert_eq!(ctx.inner().expr_string(lr), "entering_0x00002000_lr");
    assert_eq!(state.basic_block_addr(), 0x2000);
}

#[test]
fn addi_adds_the_sign_extended_immediate() {
    let mut ctx = Context::new();
    let mut state = MachineState::new(0x1000);
    // addi r1, r1, -16
    let update = state.prepare_update(&mut ctx, 0x1000, &decode(0x3821fff0, 0x1000));
    let r1 = entering(&mut ctx, 0x1000, gpr(1));
    let offset = ctx.literal_expr(0xffff_fff0);
    assert_eq!(update.registers.len(), 1);
    assert_eq!(update.registers[0].0, gpr(1));
    assert_eq!(ctx.get_expr_leaves(update.registers[0].1), vec![r1, offset]);
    assert!(matches!(ctx.get_expr(update.registers[0].1), Expr::Add(_)));
}

#[test]
fn a_later_setting_overrides_an_earlier_one() {
    let mut ctx = Context::new();
    let one = ctx.literal_expr(1);
    let two = ctx.literal_expr(2);
    let mut update = Update::new();
    update.set_register(gpr(3), one);
    update.set_register(Register::Zero, one);
    update.set_register(gpr(3), two);
    update.add_write(AccessWidth::Byte, one, two);
    let mut state = MachineState::new(0);
    let writes = state.apply(update);
    assert_eq!(writes, [Write { width: AccessWidth::Byte, addr: one, data: two }]);
    assert_eq!(state.iter_registers(), [(gpr(3), two)]);
    let single = Update::one_register(Spr::Count, one);
    assert_eq!(single.registers, [(Register::SpecialPurpose(Spr::Count), one)]);
    assert!(single.writes.is_empty());
    let write = Update::one_write(AccessWidth::Halfword, two, one);
    assert!(write.registers.is_empty());
    assert_eq!(write.writes, [Write { width: AccessWidth::Halfword, addr: two, data: one }]);
}

#[test]
fn cmplwi_sets_three_bits_of_its_field() {
    let mut ctx = Context::new();
    let mut state = MachineState::new(0x1000);
    // cmplwi cr1, r3, 0xffff
    let update = state.prepare_update(&mut ctx, 0x1000, &decode(0x2883ffff, 0x1000));
    let r3 = entering(&mut ctx, 0x1000, gpr(3));
    let immediate = ctx.literal_expr(0xffff);
    let lt = ctx.less_unsigned_expr(r3, immediate);
    let gt = ctx.less_unsigned_expr(immediate, r3);
    let eq = ctx.equal_expr(r3, immediate);
    assert_eq!(update.registers, [(bit(4), lt), (bit(5), gt), (bit(6), eq)]);
    assert!(update.writes.is_empty());
}

#[test]
fn or_and_its_record_form() {
    let mut ctx = Context::new();
    let mut state = MachineState::new(0x1000);
    // mr r31, r3
    let update = state.prepare_update(&mut ctx, 0x1000, &decode(0x7c7f1b78, 0x1000));
    let r3 = entering(&mut ctx, 0x1000, gpr(3));
    assert_eq!(update.registers, [(gpr(31), r3)]);
    // or. r31, r3, r4
    let update = state.prepare_update(&mut ctx, 0x1004, &decode(0x7c7f2379, 0x1004));
    let r4 = entering(&mut ctx, 0x1000, gpr(4));
    let or = ctx.bit_or_expr(vec![r3, r4]);
    let zero = ctx.literal_expr(0);
    let lt = ctx.less_signed_expr(or, zero);
    let gt = ctx.less_signed_expr(zero, or);
    let eq = ctx.equal_expr(or, zero);
    assert_eq!(update.registers, [(gpr(31), or), (bit(0), lt), (bit(1), gt), (bit(2), eq)]);
}

#[test]
fn lwz_reads_into_a_new_variable() {
    let mut ctx = Context::new();
    let mut state = MachineState::new(0x1000);
    // lwz r0, 20(r1)
    let update = state.prepare_update(&mut ctx, 0x1000, &decode(0x80010014, 0x1000));
    assert_eq!(update.registers.len(), 1);
    let (register, variable) = update.registers[0];
    assert_eq!(register, gpr(0));
    assert!(matches!(ctx.get_expr(variable), Expr::Variable(NumberedVariable::Numbered(0))));
    let read = ctx.get_variable_assignment(variable).unwrap();
    assert_eq!(ctx.inner().expr_string(read), "read(add(0x00000014, entering_0x00001000_r1))");
    // The next load gets the next variable.
    let update = state.prepare_update(&mut ctx, 0x1004, &decode(0x80010014, 0x1004));
    let (_, second) = update.registers[0];
    assert!(second != variable);
    assert!(matches!(ctx.get_expr(second), Expr::Variable(NumberedVariable::Numbered(1))));
    assert_eq!(ctx.get_variable_assignment(second), Some(read));
}

#[test]
fn moves_to_and_from_special_registers() {
    let mut ctx = Context::new();
    let mut state = MachineState::new(0x1000);
    // mflr r0
    let update = state.prepare_update(&mut ctx, 0x1000, &decode(0x7c0802a6, 0x1000));
    let lr = entering(&mut ctx, 0x1000, Register::SpecialPurpose(Spr::Link));
    assert_eq!(update.registers, [(gpr(0), lr)]);
    state.apply(update);
    // mtctr r0
    let update = state.prepare_update(&mut ctx, 0x1004, &decode(0x7c0903a6, 0x1004));
    assert_eq!(update.registers, [(Register::SpecialPurpose(Spr::Count), lr)]);
}

#[test]
fn stores_write_words() {
    let mut ctx = Context::new();
    let mut state = MachineState::new(0x1000);
    // stw r31, -16(r1)
    let update = state.prepare_update(&mut ctx, 0x1000, &decode(0x93e1fff0, 0x1000));
    let r1 = entering(&mut ctx, 0x1000, gpr(1));
    let r31 = entering(&mut ctx, 0x1000, gpr(31));
    let offset = ctx.literal_expr(0xffff_fff0);
    let addr = ctx.add_expr(vec![offset, r1]);
    assert!(update.registers.is_empty());
    assert_eq!(update.writes, [Write { width: AccessWidth::Word, addr, data: r31 }]);
    // stwu r1, -32(r1)
    let update = state.prepare_update(&mut ctx, 0x1004, &decode(0x9421ffe0, 0x1004));
    let offset = ctx.literal_expr(0xffff_ffe0);
    let addr = ctx.add_expr(vec![offset, r1]);
    assert_eq!(update.registers, [(gpr(1), addr)]);
    assert_eq!(update.writes, [Write { width: AccessWidth::Word, addr, data: r1 }]);
    // stw r3, 0(0): the base is the literal zero.
    let update = state.prepare_update(&mut ctx, 0x1008, &decode(0x90600000, 0x1008));
    assert_eq!(ctx.literal_value(update.writes[0].addr), Some(0));
}

#[test]
fn a_call_clobbers_the_volatile_registers() {
    let mut ctx = Context::new();
    let mut state = MachineState::new(0x1000);
    // bl 0x1004
    let update = state.prepare_update(&mut ctx, 0x1000, &decode(0x48000005, 0x1000));
    let garbage = named(&mut ctx, Variable::Garbage);
    let returned = named(&mut ctx, Variable::Return { call_addr: 0x1000 });
    let mut expected = vec![(gpr(0), garbage)];
    for n in 5..=12 {
        expected.push((gpr(n), garbage));
    }
    for spr in [Spr::Link, Spr::Count, Spr::IntegerException] {
        expected.push((Register::SpecialPurpose(spr), garbage));
    }
    for n in (0..8).chain(20..32) {
        expected.push((bit(n), garbage));
    }
    expected.push((gpr(3), returned));
    assert_eq!(update.registers, expected);
    assert!(update.writes.is_empty());
    assert_eq!(ctx.inner().expr_string(returned), "return_0x00001000");
    assert_eq!(ctx.inner().expr_string(garbage), "garbage");
    // A local branch and a return change nothing.
    for word in [0x48000008, 0x4182000c, 0x4e800020] {
        let update = state.prepare_update(&mut ctx, 0x1000, &decode(word, 0x1000));
        assert!(update.registers.is_empty());
        assert!(update.writes.is_empty());
    }
    // blrl is a call too.
    let update = state.prepare_update(&mut ctx, 0x1010, &decode(0x4e800021, 0x1010));
    assert_eq!(update.registers.len(), 33);
}

#[test]
fn supported_instructions() {
    for word in [
        0x38600005, 0x48000008, 0x4182000c, 0x4e800020, 0x2883ffff, 0x80010014, 0x7c0802a6,
        0x7c0803a6, 0x7c7f1b78, 0x93e1fff0, 0x9421ffe0,
    ] {
        assert!(MachineState::supports(&decode(word, 0)));
    }
    for word in [
        0x3c608000, 0x7c630194, 0x2c030000, 0x7c032040, 0x4cc63182, 0x88030004, 0xa8030004,
        0x5463103a, 0x7c631670, 0xbfc10008,
    ] {
        assert!(!MachineState::supports(&decode(word, 0)));
    }
}

// The expression pipeline

#[test]
fn base_and_offset() {
    let mut ctx = Context::new();
    let x = entering(&mut ctx, 0x1000, gpr(1));
    let y = entering(&mut ctx, 0x1000, gpr(2));
    let four = ctx.literal_expr(4);
    let minus = ctx.literal_expr(0xffff_fff0);
    assert_eq!(extract_base_offset(&mut ctx, x), Some((x, 0)));
    let zero = ctx.literal_expr(0);
    assert_eq!(extract_base_offset(&mut ctx, four), Some((zero, 4)));
    assert_eq!(extract_base_offset(&mut ctx, minus), Some((zero, -16)));
    let sum = ctx.add_expr(vec![four, x]);
    assert_eq!(extract_base_offset(&mut ctx, sum), Some((x, 4)));
    let sum = ctx.add_expr(vec![x, minus]);
    assert_eq!(extract_base_offset(&mut ctx, sum), Some((x, -16)));
    // Two variables, three terms, another kind of node: no base and offset.
    let two = ctx.add_expr(vec![x, y]);
    assert_eq!(extract_base_offset(&mut ctx, two), None);
    let three = ctx.add_expr(vec![x, y, four]);
    assert_eq!(extract_base_offset(&mut ctx, three), None);
    let read = ctx.read_expr(x);
    assert_eq!(extract_base_offset(&mut ctx, read), None);
    let with_read = ctx.add_expr(vec![read, four]);
    assert_eq!(extract_base_offset(&mut ctx, with_read), None);
}

fn executed(words: &[u32], entry_point: u32) -> (Context, FactDatabase, Vec<u32>) {
    let image = program(entry_point, words);
    let dol = Reader::new(&image);
    let mut db = FactDatabase::new();
    assert!(discover(dol, entry_point, &mut db).is_ok());
    assert_eq!(build_basic_blocks(&mut db, entry_point), Ok(()));
    let blocks = db.iter_facts_with_type::<BasicBlockFact>();
    let mut ctx = Context::new();
    assert!(execute_blocks(dol, &mut ctx, &mut db, &blocks).is_ok());
    (ctx, db, blocks)
}

#[test]
fn stack_write_not_rooted() {
    // 0x2000: stw r31, -16(r1); 0x2004: stw r30, 8(r1); 0x2008: stw r29, 4(r1); 0x200c: blr
    let (mut ctx, db, blocks) = executed(&[0x93e1fff0, 0x93c10008, 0x93a10004, 0x4e800020], 0x2000);
    assert_eq!(blocks, [0x2000]);
    let writes = db.get_fact::<BasicBlockFact>(0x2000).unwrap().writes().to_vec();
    assert_eq!(writes.len(), 3);
    let stack = entering(&mut ctx, 0x2000, gpr(1));
    assert_eq!(extract_base_offset(&mut ctx, writes[0].addr), Some((stack, -16)));
    assert_eq!(extract_base_offset(&mut ctx, writes[1].addr), Some((stack, 8)));
    assert_eq!(extract_base_offset(&mut ctx, writes[2].addr), Some((stack, 4)));
    let found = roots(&mut ctx, &db, &blocks, 0x2000).ok().unwrap();
    let returned = leaving(&mut ctx, 0x2000, gpr(3));
    // Of the writes only the one at 8(r1) is a root.
    assert_eq!(found, [writes[1].addr, writes[1].data, returned]);
    // Seen from another function, the same writes are roots.
    let found = roots(&mut ctx, &db, &blocks, 0x3000).ok().unwrap();
    assert_eq!(found.len(), 7);
}

#[test]
fn phi_synthesis() {
    let image = program(0x1000, &DIAMOND);
    let dol = Reader::new(&image);
    let mut db = FactDatabase::new();
    assert!(discover(dol, 0x1000, &mut db).is_ok());
    assert_eq!(build_basic_blocks(&mut db, 0x1000), Ok(()));
    let blocks = db.iter_facts_with_type::<BasicBlockFact>();
    let mut ctx = Context::new();
    assert!(execute_blocks(dol, &mut ctx, &mut db, &blocks).is_ok());
    // Both predecessors of the last block write r3.
    let one = ctx.literal_expr(1);
    let two = ctx.literal_expr(2);
    let from_p = leaving(&mut ctx, 0x1008, gpr(3));
    let from_q = leaving(&mut ctx, 0x1010, gpr(3));
    assert_eq!(ctx.get_variable_assignment(from_p), Some(one));
    assert_eq!(ctx.get_variable_assignment(from_q), Some(two));
    let merged = entering(&mut ctx, 0x1014, gpr(3));
    assert_eq!(ctx.get_variable_assignment(merged), None);
    let next = trace_step(&mut ctx, &db, merged).ok().unwrap();
    let phi = ctx.get_variable_assignment(merged).unwrap();
    assert_eq!(next, [phi]);
    assert!(matches!(ctx.get_expr(phi), Expr::Phi(_)));
    let mut expected = vec![from_p, from_q];
    expected.sort_by_key(|e| e.to_raw());
    assert_eq!(ctx.get_expr_leaves(phi), expected);
    // The trace of the φ goes on with its alternatives, and from there with
    // what was assigned to them.
    assert_eq!(trace_step(&mut ctx, &db, phi).ok().unwrap(), expected);
    assert_eq!(trace_step(&mut ctx, &db, from_p).ok().unwrap(), [one]);
    assert!(trace_step(&mut ctx, &db, one).ok().unwrap().is_empty());
    // A variable with an assignment is not assigned again.
    assert_eq!(trace_step(&mut ctx, &db, merged).ok().unwrap(), [phi]);
}

#[test]
fn trace_steps_by_kind_of_variable() {
    let (mut ctx, db, _) = executed(&DIAMOND, 0x1000);
    // A register that a block does not write leaves it as it entered it.
    let r4_leaving = leaving(&mut ctx, 0x1008, gpr(4));
    let r4_entering = entering(&mut ctx, 0x1008, gpr(4));
    assert_eq!(trace_step(&mut ctx, &db, r4_leaving).ok().unwrap(), [r4_entering]);
    assert_eq!(ctx.get_variable_assignment(r4_leaving), Some(r4_entering));
    // One predecessor: a φ of one alternative.
    let next = trace_step(&mut ctx, &db, r4_entering).ok().unwrap();
    assert_eq!(next.len(), 1);
    let before = leaving(&mut ctx, 0x1000, gpr(4));
    assert_eq!(ctx.get_expr_leaves(next[0]), vec![before]);
    // The entry block has no predecessor: the registers on entering it are roots.
    let r3 = entering(&mut ctx, 0x1000, gpr(3));
    assert!(trace_step(&mut ctx, &db, r3).ok().unwrap().is_empty());
    assert_eq!(ctx.get_variable_assignment(r3), None);
    let garbage = named(&mut ctx, Variable::Garbage);
    assert!(trace_step(&mut ctx, &db, garbage).ok().unwrap().is_empty());
    let returned = named(&mut ctx, Variable::Return { call_addr: 0x1000 });
    assert!(trace_step(&mut ctx, &db, returned).ok().unwrap().is_empty());
    let numbered = ctx.next_numbered_variable_expr();
    assert!(trace_step(&mut ctx, &db, numbered).ok().unwrap().is_empty());
    // No basic block starts at 0x5000.
    let nowhere = entering(&mut ctx, 0x5000, gpr(3));
    assert_eq!(trace_step(&mut ctx, &db, nowhere).err(), Some(ExpressionError::MissingBlock(0x5000)));
}

#[test]
fn trace_visits_what_the_roots_lead_to() {
    let (mut ctx, db, blocks) = executed(&DIAMOND, 0x1000);
    let found = roots(&mut ctx, &db, &blocks, 0x1000).ok().unwrap();
    let returned = leaving(&mut ctx, 0x1014, gpr(3));
    assert_eq!(found, [returned]);
    assert_eq!(trace(&mut ctx, &db, &found, 2).err(), Some(ExpressionError::OutOfSteps));
    let traced = trace(&mut ctx, &db, &found, 1000).ok().unwrap();
    let visited = traced.visited;
    let mut known = visited.iter_known();
    known.sort();
    let entering_last = entering(&mut ctx, 0x1014, gpr(3));
    let phi = ctx.get_variable_assignment(entering_last).unwrap();
    let from_p = leaving(&mut ctx, 0x1008, gpr(3));
    let from_q = leaving(&mut ctx, 0x1010, gpr(3));
    let one = ctx.literal_expr(1);
    let two = ctx.literal_expr(2);
    let mut expected: Vec<usize> =
        [returned, entering_last, phi, from_p, from_q, one, two].iter().map(|e| e.to_raw()).collect();
    expected.sort();
    assert_eq!(known, expected);
    assert_eq!(ctx.get_variable_assignment(returned), Some(entering_last));
}

#[test]
fn resolution_replaces_variables() {
    let (mut ctx, db, blocks) = executed(&DIAMOND, 0x1000);
    let found = roots(&mut ctx, &db, &blocks, 0x1000).ok().unwrap();
    assert!(trace(&mut ctx, &db, &found, 1000).is_ok());
    let depth = ctx.inner().len();
    let resolved = resolve_block(&mut ctx, &db, 0x1014, depth).ok().unwrap();
    assert_eq!(resolved.addr, 0x1014);
    assert!(resolved.writes.is_empty());
    let returned = resolved.returned.unwrap().unwrap();
    assert_eq!(ctx.inner().expr_string(returned), "phi(0x00000001, 0x00000002)");
    let inner = resolve_block(&mut ctx, &db, 0x1008, depth).ok().unwrap();
    assert_eq!(inner.returned, None);
    assert_eq!(
        resolve_block(&mut ctx, &db, 0x5000, depth).err(),
        Some(ExpressionError::MissingBlock(0x5000))
    );
}

#[test]
fn expressions_of_a_small_function() {
    // 0x1000: lwz r4, 8(r3); 0x1004: addi r4, r4, 1; 0x1008: stw r4, 8(r3);
    // 0x100c: mr r3, r4; 0x1010: blr
    let image = program(0x1000, &[0x80830008, 0x38840001, 0x90830008, 0x7c832378, 0x4e800020]);
    let dol = Reader::new(&image);
    let mut db = FactDatabase::new();
    assert!(discover(dol, 0x1000, &mut db).is_ok());
    assert_eq!(build_basic_blocks(&mut db, 0x1000), Ok(()));
    let built = build_expressions(dol, &mut db, 0x1000, 1000).ok().unwrap();
    let (ctx, resolved) = (built.context, built.resolved);
    assert_eq!(resolved.len(), 1);
    assert_eq!(resolved[0].addr, 0x1000);
    assert_eq!(resolved[0].writes.len(), 1);
    let write = resolved[0].writes[0];
    assert_eq!(write.width, AccessWidth::Word);
    let text = |e: Option<ExprRef>| ctx.inner().expr_string(e.unwrap());
    assert_eq!(text(write.addr), "add(0x00000008, entering_0x00001000_r3)");
    assert_eq!(
        text(write.data),
        "add(read(add(0x00000008, entering_0x00001000_r3)), 0x00000001)"
    );
    assert_eq!(
        text(resolved[0].returned.unwrap()),
        "add(read(add(0x00000008, entering_0x00001000_r3)), 0x00000001)"
    );
    let recorded = db.get_fact::<BasicBlockFact>(0x1000).unwrap().writes().to_vec();
    assert_eq!(recorded.len(), 1);
    assert_eq!(ctx.inner().expr_string(recorded[0].data), "add(v_0, 0x00000001)");
}

#[test]
fn expressions_of_a_loop_are_too_deep() {
    // 0x1000: li r3, 5; 0x1004: addi r3, r3, -1; 0x1008: cmplwi r3, 0;
    // 0x100c: bne 0x1004; 0x1010: blr
    let image = program(0x1000, &[0x38600005, 0x3863ffff, 0x28030000, 0x4082fff8, 0x4e800020]);
    let dol = Reader::new(&image);
    let mut db = FactDatabase::new();
    assert!(discover(dol, 0x1000, &mut db).is_ok());
    assert_eq!(build_basic_blocks(&mut db, 0x1000), Ok(()));
    let resolved = build_expressions(dol, &mut db, 0x1000, 1000).ok().unwrap().resolved;
    assert_eq!(resolved.len(), 3);
    assert_eq!(resolved[2].addr, 0x1010);
    // What the function returns goes round the loop: it has no finite form.
    assert_eq!(resolved[2].returned, Some(None));
    assert_eq!(resolved[0].returned, None);
}

#[test]
fn expression_errors() {
    // 0x1000: addis r3, 0, 1; 0x1004: blr
    let image = program(0x1000, &[0x3c600001, 0x4e800020]);
    let dol = Reader::new(&image);
    let mut db = FactDatabase::new();
    assert!(discover(dol, 0x1000, &mut db).is_ok());
    assert_eq!(build_basic_blocks(&mut db, 0x1000), Ok(()));
    assert_eq!(
        build_expressions(dol, &mut db, 0x1000, 1000).err(),
        Some(ExpressionError::Unsupported(0x1000))
    );
    let mut ctx = Context::new();
    assert_eq!(
        execute_block(dol, &mut ctx, &mut db, 0x1004).err(),
        Some(ExpressionError::MissingBlock(0x1004))
    );
    // A block that runs on behind the program.
    let mut db = FactDatabase::new();
    db.insert_fact(0x1000, BasicBlockFactBuilder::new(&blocks_ending_at(0x1008), 0x1000).build());
    assert_eq!(
        execute_block(dol, &mut ctx, &mut db, 0x1000).err(),
        Some(ExpressionError::Unsupported(0x1000))
    );
    let image = program(0x1000, &[0x38600005, 0x60000000]);
    let dol = Reader::new(&image);
    assert_eq!(
        execute_block(dol, &mut ctx, &mut db, 0x1000).err(),
        Some(ExpressionError::NotAnInstruction(0x1004))
    );
    let image = program(0x1000, &[0x38600005]);
    let dol = Reader::new(&image);
    assert_eq!(
        execute_block(dol, &mut ctx, &mut db, 0x1000).err(),
        Some(ExpressionError::Unmapped(0x1004))
    );
    assert!(db.get_fact::<BasicBlockFact>(0x1000).unwrap().writes().is_empty());
}

/// A database in which a basic block ends with the instruction before `end`.
fn blocks_ending_at(end: u32) -> FactDatabase {
    let mut db = FactDatabase::new();
    db.fact_or_default::<BasicBlockEndFact>(end.wrapping_sub(4));
    db
}

#[test]
fn default_update_and_facts() {
    let update = Update::default();
    assert!(update.registers.is_empty());
    assert!(update.writes.is_empty());
    assert_eq!(SubroutineCallFact::default().target(), 0);
    assert_eq!(SubroutineFact::default(), SubroutineFact);
}

#[test]
fn stack_frame_writes_are_told_apart() {
    // 0x2000: stw r31, -16(r1); 0x2004: stw r30, 8(r1); 0x2008: stw r29, 4(r1); 0x200c: blr
    let (mut ctx, db, _) = executed(&[0x93e1fff0, 0x93c10008, 0x93a10004, 0x4e800020], 0x2000);
    let writes = db.get_fact::<BasicBlockFact>(0x2000).unwrap().writes().to_vec();
    let stack = entering(&mut ctx, 0x2000, gpr(1));
    assert_eq!(stack_frame_write(&mut ctx, stack, &writes[0]), Some(-16));
    assert_eq!(stack_frame_write(&mut ctx, stack, &writes[1]), None);
    assert_eq!(stack_frame_write(&mut ctx, stack, &writes[2]), Some(4));
    // Another base: the same writes are no writes to its stack frame.
    let other = entering(&mut ctx, 0x3000, gpr(1));
    assert_eq!(stack_frame_write(&mut ctx, other, &writes[0]), None);
    // A write to a literal address has the literal 0 as its base.
    let address = ctx.literal_expr(0xffff_fff0);
    let absolute = Write { width: AccessWidth::Word, addr: address, data: stack };
    assert_eq!(stack_frame_write(&mut ctx, stack, &absolute), None);
    let zero = ctx.literal_expr(0);
    assert_eq!(stack_frame_write(&mut ctx, zero, &absolute), Some(-16));
}

#[test]
fn a_block_is_executed_step_by_step() {
    // 0x1000: li r3, 5; 0x1004: stw r3, 8(r1); 0x1008: blr
    let words = [0x38600005, 0x90610008, 0x4e800020];
    let (whole, db, _) = executed(&words, 0x1000);
    let image = program(0x1000, &words);
    let dol = Reader::new(&image);
    let mut ctx = Context::new();
    let mut state = MachineState::new(0x1000);
    let mut written = Vec::new();
    for addr in [0x1000u32, 0x1004, 0x1008] {
        let instruction = fetch(dol, addr).ok().unwrap();
        let update = state.prepare_update(&mut ctx, addr, &instruction);
        written.extend(state.apply(update));
    }
    bind_leaving(&mut ctx, &state);
    // The steps give what the execution of the whole block gives.
    assert_eq!(db.get_fact::<BasicBlockFact>(0x1000).unwrap().writes(), &written[..]);
    assert_eq!(ctx.inner().len(), whole.inner().len());
    let five = ctx.literal_expr(5);
    let left = leaving(&mut ctx, 0x1000, gpr(3));
    assert_eq!(ctx.get_variable_assignment(left), Some(five));
    assert_eq!(fetch(dol, 0x100c).err(), Some(ExpressionError::Unmapped(0x100c)));
    // 0x1000: addis r3, 0, 1; 0x1004: no instruction
    let image = program(0x1000, &[0x3c600001, 0x00000000]);
    let dol = Reader::new(&image);
    assert_eq!(fetch(dol, 0x1000).err(), Some(ExpressionError::Unsupported(0x1000)));
    assert_eq!(fetch(dol, 0x1004).err(), Some(ExpressionError::NotAnInstruction(0x1004)));
}

#[test]
fn trace_stops_at_the_entry_and_counts_its_steps() {
    // 0x1000: blr
    let traced = |max_steps: usize| {
        let (mut ctx, db, blocks) = executed(&[0x4e800020], 0x1000);
        let found = roots(&mut ctx, &db, &blocks, 0x1000).ok().unwrap();
        let visited = trace(&mut ctx, &db, &found, max_steps);
        (ctx, visited)
    };
    let (mut ctx, visited) = traced(1000);
    let returned = leaving(&mut ctx, 0x1000, gpr(3));
    let argument = entering(&mut ctx, 0x1000, gpr(3));
    let traced_once = visited.ok().unwrap();
    let mut known = traced_once.visited.iter_known();
    known.sort();
    assert_eq!(known, [returned.to_raw(), argument.to_raw()]);
    assert_eq!(traced_once.assigned, [(returned, argument)]);
    assert_eq!(ctx.get_variable_assignment(returned), Some(argument));
    // The block at the entry point has no predecessor: the value of the
    // register on entering it stays as it is.
    assert_eq!(ctx.get_variable_assignment(argument), None);
    // The trace gets to two expressions: two steps do, one does not.
    assert!(traced(2).1.is_ok());
    assert_eq!(traced(1).1.err(), Some(ExpressionError::OutOfSteps));
    assert_eq!(traced(0).1.err(), Some(ExpressionError::OutOfSteps));
}

#[test]
fn the_passes_hand_back_what_they_did() {
    // 0x1000: li r3, 5; 0x1004: stw r3, 8(r1); 0x1008: blr
    let image = program(0x1000, &[0x38600005, 0x90610008, 0x4e800020]);
    let dol = Reader::new(&image);
    let mut db = FactDatabase::new();
    assert!(discover(dol, 0x1000, &mut db).is_ok());
    assert_eq!(build_basic_blocks(&mut db, 0x1000), Ok(()));
    let built = build_expressions(dol, &mut db, 0x1000, 1000).ok().unwrap();
    let mut ctx = built.context;
    let writes = db.get_fact::<BasicBlockFact>(0x1000).unwrap().writes().to_vec();
    assert_eq!(writes.len(), 1);
    assert_eq!(built.executed.len(), 1);
    let block = &built.executed[0];
    assert_eq!((block.addr, block.end), (0x1000, 0x100c));
    assert_eq!(block.steps.len(), 3);
    let five = ctx.literal_expr(5);
    assert_eq!(block.steps[0].addr, 0x1000);
    assert_eq!(block.steps[0].instruction, decode(0x38600005, 0x1000));
    assert_eq!(block.steps[0].registers, [(gpr(3), five)]);
    assert!(block.steps[0].writes.is_empty());
    assert_eq!(block.steps[1].addr, 0x1004);
    assert!(block.steps[1].registers.is_empty());
    assert_eq!(block.steps[1].writes, writes);
    assert_eq!(block.steps[2].addr, 0x1008);
    assert!(block.steps[2].registers.is_empty());
    assert!(block.steps[2].writes.is_empty());
    // Of the registers, r3 was set; r1 was only read.
    assert_eq!(block.leaving, [(gpr(3), five)]);
    let stack = entering(&mut ctx, 0x1000, gpr(1));
    let left = leaving(&mut ctx, 0x1000, gpr(1));
    assert_eq!(ctx.get_variable_assignment(left), None);
    let returned = leaving(&mut ctx, 0x1000, gpr(3));
    assert_eq!(ctx.get_variable_assignment(returned), Some(five));
    assert_eq!(built.roots, [writes[0].addr, writes[0].data, returned]);
    // The trace gets to the stack pointer on entering the function, and no
    // further: it gives no assignment.
    assert_eq!(ctx.get_variable_assignment(stack), None);
    assert!(built.assigned.is_empty());
    assert_eq!(built.resolved.len(), 1);
}
