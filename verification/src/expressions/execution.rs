//! The first pass: symbolic execution of each basic block.

use vstd::prelude::*;

use crate::dol::reader::Reader;
use crate::expressions::ExpressionError;
use crate::expressions::Graph;
use crate::expressions::graph_in;
use crate::expressions::graph_of;
use crate::fact::basic_block::BasicBlockFact;
use crate::fact::basic_block::facts_about;
use crate::fact::BlockView;
use crate::fact::FactsView;
use crate::fact_database::FactDatabase;
use crate::machine::applied;
use crate::machine::executed;
use crate::machine::executes;
use crate::machine::Machine;
use crate::powerpc::instruction::decoded_instruction::DecodedInstruction;
use crate::powerpc::instruction::encoded_instruction::decode;
use crate::powerpc::instruction::encoded_instruction::EncodedInstruction;
use crate::powerpc::register::Register;
use crate::powerpc::register::REGISTER_CODES;
use crate::powerpc_symbolic::Context;
use crate::powerpc_symbolic::lemma_assigned;
use crate::powerpc_symbolic::MachineState;
use crate::powerpc_symbolic::Name;
use crate::powerpc_symbolic::Variable;
use crate::powerpc_symbolic::Write;
use crate::symbolic::context::extends;
use crate::symbolic::context::interned;
use crate::symbolic::context::lemma_interned_stands;
use crate::symbolic::expr::Node;
use crate::symbolic::expr_ref::ExprRef;
use crate::symbolic::numbered::NumberedVariable;

verus! {

/// What symbolic execution of the instructions of a basic block leaves
/// behind.
#[verifier::ext_equal]
pub ghost struct Run {
    /// The machine.
    pub machine: Machine,
    /// The memory writes of the instructions, in order.
    pub writes: Seq<Write>,
}

/// What one instruction of a basic block did: the registers that it set
/// and the memory that it wrote, in order.
#[derive(Debug)]
pub struct Step {
    pub addr: u32,
    pub instruction: DecodedInstruction,
    pub registers: Vec<(Register, ExprRef)>,
    pub writes: Vec<Write>,
}

/// What one instruction of a basic block did, as a value.
#[verifier::ext_equal]
pub ghost struct StepView {
    pub addr: u32,
    pub instruction: DecodedInstruction,
    pub registers: Seq<(Register, ExprRef)>,
    pub writes: Seq<Write>,
}

impl View for Step {
    type V = StepView;

    open spec fn view(&self) -> StepView {
        StepView {
            addr: self.addr,
            instruction: self.instruction,
            registers: self.registers@,
            writes: self.writes@,
        }
    }
}

/// The steps of a list as values.
pub open spec fn step_views(steps: Seq<Step>) -> Seq<StepView> {
    Seq::new(steps.len(), |i: int| steps[i]@)
}

/// What symbolic execution of a basic block did: what each of its
/// instructions did, and the registers that were set in it, each with its
/// value on leaving the block, in the order of the codes of the registers.
#[derive(Debug)]
pub struct ExecutedBlock {
    pub addr: u32,
    pub end: u32,
    pub steps: Vec<Step>,
    pub leaving: Vec<(Register, ExprRef)>,
}

/// What symbolic execution of a basic block did, as a value.
#[verifier::ext_equal]
pub ghost struct ExecutedBlockView {
    pub addr: u32,
    pub end: u32,
    pub steps: Seq<StepView>,
    pub leaving: Seq<(Register, ExprRef)>,
}

impl View for ExecutedBlock {
    type V = ExecutedBlockView;

    open spec fn view(&self) -> ExecutedBlockView {
        ExecutedBlockView {
            addr: self.addr,
            end: self.end,
            steps: step_views(self.steps@),
            leaving: self.leaving@,
        }
    }
}

/// The executed blocks of a list as values.
pub open spec fn executed_views(blocks: Seq<ExecutedBlock>) -> Seq<ExecutedBlockView> {
    Seq::new(blocks.len(), |i: int| blocks[i]@)
}

/// What the instructions from `addr` up to `end` do, one after the other,
/// on a machine: the steps of [`block_run`], as far as it gets.
pub open spec fn block_steps(dol: Reader, machine: Machine, addr: u32, end: u32) -> Seq<StepView>
    decreases u32::MAX - addr,
{
    if addr >= end {
        Seq::empty()
    } else {
        match instruction_at(dol, addr) {
            Err(_) => Seq::empty(),
            Ok(instruction) => {
                let effect = executed(machine, addr, instruction);
                let step = StepView {
                    addr,
                    instruction,
                    registers: effect.registers,
                    writes: effect.writes,
                };
                if addr > u32::MAX - 4 {
                    seq![step]
                } else {
                    seq![step] + block_steps(dol, applied(effect), (addr + 4) as u32, end)
                }
            },
        }
    }
}

/// The registers from `code` on that were set, each with its value, in the
/// order of the codes of the registers.
pub open spec fn set_registers(values: Map<u32, ExprRef>, code: u32) -> Seq<(Register, ExprRef)>
    decreases REGISTER_CODES - code,
{
    if code >= REGISTER_CODES {
        Seq::empty()
    } else if values.contains_key(code) {
        seq![(Register::of_code(code), values[code])] + set_registers(values, (code + 1) as u32)
    } else {
        set_registers(values, (code + 1) as u32)
    }
}

/// What symbolic execution of a basic block does, where it can be
/// executed.
pub open spec fn block_listed(dol: Reader, graph: Graph, db: Map<u32, FactsView>, addr: u32) -> ExecutedBlockView {
    let block = facts_about(db, addr).basic_block->0;
    ExecutedBlockView {
        addr,
        end: block.end,
        steps: block_steps(dol, entering(graph, addr), addr, block.end),
        leaving: set_registers(block_executed(dol, graph, db, addr)->Ok_0.machine.values, 0),
    }
}

/// What symbolic execution of the given basic blocks does, one after the
/// other, as far as it gets.
pub open spec fn blocks_listed(dol: Reader, graph: Graph, db: Map<u32, FactsView>, blocks: Seq<u32>) -> Seq<
    ExecutedBlockView,
>
    decreases blocks.len(),
{
    if blocks.len() == 0 {
        Seq::empty()
    } else {
        match block_executed(dol, graph, db, blocks[0]) {
            Err(_) => Seq::empty(),
            Ok(run) => seq![block_listed(dol, graph, db, blocks[0])] + blocks_listed(
                dol,
                graph_in(run.machine),
                with_writes(db, blocks[0], run.writes),
                blocks.drop_first(),
            ),
        }
    }
}

/// Whether `after` is `before` but for further writes that basic blocks
/// have recorded.
#[verifier::opaque]
pub open spec fn same_besides_writes(before: Map<u32, FactsView>, after: Map<u32, FactsView>) -> bool {
    forall|addr: u32|
        {
            let was = facts_about(before, addr);
            let is = #[trigger] facts_about(after, addr);
            &&& is.branch_target == was.branch_target
            &&& is.subroutine == was.subroutine
            &&& is.subroutine_call == was.subroutine_call
            &&& is.basic_block_end == was.basic_block_end
            &&& is.parse_error == was.parse_error
            &&& match was.basic_block {
                None => is.basic_block is None,
                Some(block) => {
                    &&& is.basic_block is Some
                    &&& is.basic_block->0.end == block.end
                    &&& is.basic_block->0.predecessors == block.predecessors
                    &&& is.basic_block->0.successors == block.successors
                    &&& block.writes.is_prefix_of(is.basic_block->0.writes)
                },
            }
        }
}

/// A database is what it was.
pub proof fn lemma_same_besides_writes(db: Map<u32, FactsView>)
    ensures
        same_besides_writes(db, db),
{
    reveal(same_besides_writes);
}

/// Recording further writes of a basic block keeps everything else.
pub proof fn lemma_writes_added(
    before: Map<u32, FactsView>,
    now: Map<u32, FactsView>,
    addr: u32,
    writes: Seq<Write>,
)
    requires
        same_besides_writes(before, now),
        facts_about(now, addr).basic_block is Some,
    ensures
        same_besides_writes(before, with_writes(now, addr, writes)),
{
    reveal(same_besides_writes);
    let after = with_writes(now, addr, writes);
    assert forall|other: u32|
        {
            let was = facts_about(before, other);
            let is = #[trigger] facts_about(after, other);
            &&& is.branch_target == was.branch_target
            &&& is.subroutine == was.subroutine
            &&& is.subroutine_call == was.subroutine_call
            &&& is.basic_block_end == was.basic_block_end
            &&& is.parse_error == was.parse_error
            &&& match was.basic_block {
                None => is.basic_block is None,
                Some(block) => {
                    &&& is.basic_block is Some
                    &&& is.basic_block->0.end == block.end
                    &&& is.basic_block->0.predecessors == block.predecessors
                    &&& is.basic_block->0.successors == block.successors
                    &&& block.writes.is_prefix_of(is.basic_block->0.writes)
                },
            }
        } by {
        let mid = facts_about(now, other);
        if other != addr {
            assert(facts_about(after, other) == mid);
        }
    }
}

/// What symbolic execution of the instructions from `addr` up to `end`
/// leaves behind, on a machine and after the given writes: each instruction
/// is read from the executable and decoded, its effect is worked out, its
/// writes are noted and its registers set. The run fails at the first
/// address that is not mapped, holds no instruction, or holds one that
/// symbolic execution does not know.
pub open spec fn block_run(dol: Reader, machine: Machine, addr: u32, end: u32, writes: Seq<Write>) -> Result<
    Run,
    ExpressionError,
>
    decreases u32::MAX - addr,
{
    if addr >= end {
        Ok(Run { machine, writes })
    } else {
        match instruction_at(dol, addr) {
            Err(error) => Err(error),
            Ok(instruction) => {
                let effect = executed(machine, addr, instruction);
                if addr > u32::MAX - 4 {
                    Ok(Run { machine: applied(effect), writes: writes + effect.writes })
                } else {
                    block_run(dol, applied(effect), (addr + 4) as u32, end, writes + effect.writes)
                }
            },
        }
    }
}

/// The instruction of a basic block at an address.
pub open spec fn instruction_at(dol: Reader, addr: u32) -> Result<DecodedInstruction, ExpressionError> {
    match dol.word_at(addr) {
        None => Err(ExpressionError::Unmapped(addr)),
        Some(word) => match decode(word, addr) {
            Err(_) => Err(ExpressionError::NotAnInstruction(addr)),
            Ok(instruction) => if executes(instruction) {
                Ok(instruction)
            } else {
                Err(ExpressionError::Unsupported(addr))
            },
        },
    }
}

/// The machine after the value of each register from `code` on that was
/// set was assigned to the variable for the value of the register on
/// leaving the block, in the order of the codes of the registers.
pub open spec fn leaving_bound(machine: Machine, code: u32) -> Machine
    decreases REGISTER_CODES - code,
{
    if code >= REGISTER_CODES {
        machine
    } else if machine.values.contains_key(code) {
        let variable = machine.variable(
            Variable::RegisterLeaving {
                basic_block_addr: machine.block,
                register: Register::of_code(code),
            },
        );
        leaving_bound(variable.0.assign(variable.1, machine.values[code]), (code + 1) as u32)
    } else {
        leaving_bound(machine, (code + 1) as u32)
    }
}

/// Reads and decodes the instruction of a basic block at an address.
pub fn fetch(dol: Reader, addr: u32) -> (r: Result<DecodedInstruction, ExpressionError>)
    ensures
        r == instruction_at(dol, addr),
{
    let word = match dol.try_read(addr) {
        Some(word) => word,
        None => {
            return Err(ExpressionError::Unmapped(addr));
        },
    };
    match EncodedInstruction(word).parse(addr) {
        Ok(instruction) => {
            if MachineState::supports(&instruction) {
                Ok(instruction)
            } else {
                Err(ExpressionError::Unsupported(addr))
            }
        },
        Err(_) => Err(ExpressionError::NotAnInstruction(addr)),
    }
}

/// Whether a node is a variable to which symbolic execution gives an
/// assignment: a numbered variable, which stands for what was read from
/// memory, or the value of a register on leaving a basic block.
pub open spec fn assigned_in_execution(node: Node<Name>) -> bool {
    match node {
        Node::Variable(NumberedVariable::Numbered(_)) => true,
        Node::Variable(NumberedVariable::Named(Variable::RegisterLeaving { .. })) => true,
        _ => false,
    }
}

/// Whether every assignment of a graph that is not among `before` is one
/// that symbolic execution gives.
pub open spec fn assigns_as_executed(before: Map<ExprRef, ExprRef>, graph: Graph) -> bool {
    forall|variable: ExprRef| #[trigger]
        graph.assignments.contains_key(variable) && !before.contains_key(variable)
            ==> variable.raw() < graph.nodes.len() && assigned_in_execution(
            graph.nodes[variable.raw() as int],
        )
}

/// Assignments that symbolic execution gave stay such as the graph grows
/// by further ones.
pub proof fn lemma_assigns_on(before: Map<ExprRef, ExprRef>, now: Graph, after: Graph)
    requires
        assigns_as_executed(before, now),
        assigns_as_executed(now.assignments, after),
        extends(now.nodes, after.nodes),
    ensures
        assigns_as_executed(before, after),
{
    assert forall|variable: ExprRef| #[trigger]
        after.assignments.contains_key(variable) && !before.contains_key(variable)
            implies variable.raw() < after.nodes.len() && assigned_in_execution(
        after.nodes[variable.raw() as int],
    ) by {
        if now.assignments.contains_key(variable) {
            assert(after.nodes[variable.raw() as int] == now.nodes[variable.raw() as int]);
        }
    }
}

/// The one assignment that an instruction gives is that of a numbered
/// variable.
proof fn lemma_executed_assigns(machine: Machine, cia: u32, instruction: DecodedInstruction)
    requires
        executed(machine, cia, instruction).machine.nodes.len() <= usize::MAX,
    ensures
        assigns_as_executed(machine.assignments, graph_in(executed(machine, cia, instruction).machine)),
{
    match instruction {
        DecodedInstruction::Lwz { dst, offset, base } => {
            let addr = machine.address(offset, Register::of_gpr_or_zero(base));
            let variable = addr.0.fresh();
            let read = Node::<Name>::Read(addr.1);
            lemma_interned_stands(variable.0.nodes, read);
            let after = interned(variable.0.nodes, read).0;
            assert(after[addr.0.nodes.len() as int] == variable.0.nodes[addr.0.nodes.len() as int]);
        },
        _ => {},
    }
}

/// Executes one instruction symbolically: works out its effect, notes its
/// writes and sets its registers.
fn execute(
    ctx: &mut Context,
    state: &mut MachineState,
    addr: u32,
    instruction: &DecodedInstruction,
    written: &mut Vec<Write>,
) -> (step: Step)
    requires
        executes(*instruction),
        old(ctx).wf(),
        old(state).wf(old(ctx)),
        forall|k: int|
            0 <= k < old(written)@.len() ==> old(ctx).valid((#[trigger] old(written)@[k]).addr)
                && old(ctx).valid(old(written)@[k].data),
    ensures
        final(ctx).wf(),
        final(state).wf(final(ctx)),
        extends(old(ctx).nodes(), final(ctx).nodes()),
        forall|k: int|
            0 <= k < final(written)@.len() ==> final(ctx).valid(
                (#[trigger] final(written)@[k]).addr,
            ) && final(ctx).valid(final(written)@[k].data),
        ({
            let effect = executed(Machine::of(old(ctx), old(state)), addr, *instruction);
            &&& Machine::of(final(ctx), final(state)) == applied(effect)
            &&& final(written)@ == old(written)@ + effect.writes
            &&& step@ == (StepView {
                addr,
                instruction: *instruction,
                registers: effect.registers,
                writes: effect.writes,
            })
        }),
        assigns_as_executed(old(ctx).assignments(), graph_of(final(ctx))),
{
    let ghost before = written@;
    let update = state.prepare_update(ctx, addr, instruction);
    let ghost effect = executed(Machine::of(old(ctx), old(state)), addr, *instruction);
    proof {
        ctx.context().lemma_wf();
        lemma_executed_assigns(Machine::of(old(ctx), old(state)), addr, *instruction);
        assert(graph_of(ctx) =~= graph_in(effect.machine));
    }
    let ghost registers = update.registers@;
    let ghost values = state.values();
    let step = Step {
        addr,
        instruction: *instruction,
        registers: copied(&update.registers),
        writes: copied(&update.writes),
    };
    let mut writes = state.apply(update);
    proof {
        assert forall|code: u32| #[trigger] state.values().contains_key(code) implies 0 < code
            < REGISTER_CODES && ctx.valid(state.values()[code]) by {
            lemma_assigned(values, registers, code);
            if !values.contains_key(code) || values[code] != state.values()[code] {
                let k = choose|k: int|
                    0 <= k < registers.len() && !(registers[k].0 is Zero) && registers[k].0.code()
                        == code && registers[k].1 == state.values()[code];
                assert(ctx.valid(registers[k].1));
            }
        }
        assert(Machine::of(ctx, state) =~= applied(effect));
    }
    let ghost added = writes@;
    written.append(&mut writes);
    proof {
        assert forall|k: int| 0 <= k < written@.len() implies ctx.valid(
            (#[trigger] written@[k]).addr,
        ) && ctx.valid(written@[k].data) by {
            if k < before.len() {
                assert(written@[k] == before[k]);
                assert(old(ctx).valid(before[k].addr));
            } else {
                assert(written@[k] == added[k - before.len()]);
            }
        }
    }
    step
}

/// A copy of a list.
fn copied<T: Copy>(items: &Vec<T>) -> (r: Vec<T>)
    ensures
        r@ == items@,
{
    let mut out: Vec<T> = Vec::new();
    let mut i: usize = 0;
    while i < items.len()
        invariant
            i <= items.len(),
            out@ == items@.take(i as int),
        decreases items.len() - i,
    {
        out.push(items[i]);
        proof {
            assert(items@.take(i + 1) =~= items@.take(i as int).push(items@[i as int]));
        }
        i += 1;
    }
    proof {
        assert(items@.take(items@.len() as int) =~= items@);
    }
    out
}

/// Executes the instructions from `addr` up to `end` symbolically.
fn run_block(
    dol: Reader,
    ctx: &mut Context,
    state: &mut MachineState,
    addr: u32,
    end: u32,
    written: &mut Vec<Write>,
) -> (r: Result<Vec<Step>, ExpressionError>)
    requires
        old(ctx).wf(),
        old(state).wf(old(ctx)),
        forall|k: int|
            0 <= k < old(written)@.len() ==> old(ctx).valid((#[trigger] old(written)@[k]).addr)
                && old(ctx).valid(old(written)@[k].data),
    ensures
        final(ctx).wf(),
        final(state).wf(final(ctx)),
        extends(old(ctx).nodes(), final(ctx).nodes()),
        forall|k: int|
            0 <= k < final(written)@.len() ==> final(ctx).valid(
                (#[trigger] final(written)@[k]).addr,
            ) && final(ctx).valid(final(written)@[k].data),
        match block_run(dol, Machine::of(old(ctx), old(state)), addr, end, old(written)@) {
            Ok(run) => {
                &&& r is Ok
                &&& Machine::of(final(ctx), final(state)) == run.machine
                &&& final(written)@ == run.writes
                &&& step_views(r->Ok_0@) == block_steps(
                    dol,
                    Machine::of(old(ctx), old(state)),
                    addr,
                    end,
                )
            },
            Err(error) => r == Err::<Vec<Step>, ExpressionError>(error),
        },
        assigns_as_executed(old(ctx).assignments(), graph_of(final(ctx))),
{
    let mut cursor = addr;
    let mut steps: Vec<Step> = Vec::new();
    let ghost all = block_steps(dol, Machine::of(old(ctx), old(state)), addr, end);
    proof {
        assert(step_views(steps@) + all =~= all);
    }
    while cursor < end
        invariant
            ctx.wf(),
            state.wf(ctx),
            extends(old(ctx).nodes(), ctx.nodes()),
            forall|k: int|
                0 <= k < written@.len() ==> ctx.valid((#[trigger] written@[k]).addr) && ctx.valid(
                    written@[k].data,
                ),
            block_run(dol, Machine::of(old(ctx), old(state)), addr, end, old(written)@)
                == block_run(dol, Machine::of(ctx, state), cursor, end, written@),
            all == block_steps(dol, Machine::of(old(ctx), old(state)), addr, end),
            all == step_views(steps@) + block_steps(dol, Machine::of(ctx, state), cursor, end),
            assigns_as_executed(old(ctx).assignments(), graph_of(ctx)),
        decreases u32::MAX - cursor,
    {
        let instruction = match fetch(dol, cursor) {
            Ok(instruction) => instruction,
            Err(error) => {
                return Err(error);
            },
        };
        let ghost before = steps@;
        let ghost rest = block_steps(dol, Machine::of(ctx, state), cursor, end);
        let ghost graph_before = graph_of(ctx);
        let step = execute(ctx, state, cursor, &instruction, written);
        steps.push(step);
        proof {
            lemma_assigns_on(old(ctx).assignments(), graph_before, graph_of(ctx));
            assert(step_views(steps@) =~= step_views(before).push(step@));
            if cursor > u32::MAX - 4 {
                assert(step_views(steps@) =~= step_views(before) + rest);
            } else {
                assert(step_views(steps@) + block_steps(
                    dol,
                    Machine::of(ctx, state),
                    (cursor + 4) as u32,
                    end,
                ) =~= step_views(before) + rest);
            }
        }
        if cursor > u32::MAX - 4 {
            return Ok(steps);
        }
        cursor += 4;
    }
    proof {
        assert(step_views(steps@) + Seq::<StepView>::empty() =~= step_views(steps@));
    }
    Ok(steps)
}

/// Assigns the value of each register that was set to the variable for the
/// value of the register on leaving the block.
pub fn bind_leaving(ctx: &mut Context, state: &MachineState) -> (r: Vec<(Register, ExprRef)>)
    requires
        old(ctx).wf(),
        state.wf(old(ctx)),
    ensures
        final(ctx).wf(),
        extends(old(ctx).nodes(), final(ctx).nodes()),
        Machine::of(final(ctx), state) == leaving_bound(Machine::of(old(ctx), state), 0),
        r@ == set_registers(state.values(), 0),
        assigns_as_executed(old(ctx).assignments(), graph_of(final(ctx))),
{
    let mut code: u32 = 0;
    let mut leaving: Vec<(Register, ExprRef)> = Vec::new();
    proof {
        assert(leaving@ + set_registers(state.values(), 0) =~= set_registers(state.values(), 0));
    }
    while code < REGISTER_CODES
        invariant
            code <= REGISTER_CODES,
            ctx.wf(),
            state.wf(ctx),
            extends(old(ctx).nodes(), ctx.nodes()),
            leaving_bound(Machine::of(old(ctx), state), 0) == leaving_bound(
                Machine::of(ctx, state),
                code,
            ),
            set_registers(state.values(), 0) == leaving@ + set_registers(state.values(), code),
            assigns_as_executed(old(ctx).assignments(), graph_of(ctx)),
        decreases REGISTER_CODES - code,
    {
        if let Some(value) = state.value_of(code) {
            let register = Register::from_code(code).unwrap();
            let ghost listed = leaving@;
            leaving.push((register, value));
            proof {
                assert(leaving@ + set_registers(state.values(), (code + 1) as u32) =~= listed
                    + set_registers(state.values(), code));
            }
            let ghost before = Machine::of(ctx, state);
            let ghost graph_before = graph_of(ctx);
            let variable = ctx.variable_expr(
                Variable::RegisterLeaving { basic_block_addr: state.basic_block_addr(), register },
            );
            ctx.assign_variable(variable, value);
            proof {
                ctx.context().lemma_wf();
                lemma_interned_stands(
                    graph_before.nodes,
                    Node::<Name>::Variable(
                        NumberedVariable::Named(
                            Variable::RegisterLeaving { basic_block_addr: state.block(), register },
                        ),
                    ),
                );
                assert(assigns_as_executed(graph_before.assignments, graph_of(ctx)));
                lemma_assigns_on(old(ctx).assignments(), graph_before, graph_of(ctx));
                let named = before.variable(
                    Variable::RegisterLeaving {
                        basic_block_addr: before.block,
                        register: Register::of_code(code),
                    },
                );
                assert(Machine::of(ctx, state) =~= named.0.assign(named.1, before.values[code]));
            }
        }
        code += 1;
    }
    proof {
        assert(Machine::of(ctx, state) =~= leaving_bound(Machine::of(ctx, state), code));
        assert(leaving@ + Seq::<(Register, ExprRef)>::empty() =~= leaving@);
    }
    leaving
}

/// The machine on entering a basic block: no register was set.
pub open spec fn entering(graph: Graph, block: u32) -> Machine {
    Machine {
        nodes: graph.nodes,
        assignments: graph.assignments,
        next: graph.next,
        values: Map::empty(),
        block,
    }
}

/// The database after further writes of the basic block at `addr` were
/// recorded.
pub open spec fn with_writes(db: Map<u32, FactsView>, addr: u32, writes: Seq<Write>) -> Map<
    u32,
    FactsView,
> {
    let facts = facts_about(db, addr);
    let block = facts.basic_block->0;
    db.insert(
        addr,
        FactsView {
            basic_block: Some(
                BlockView {
                    end: block.end,
                    predecessors: block.predecessors,
                    successors: block.successors,
                    writes: block.writes + writes,
                },
            ),
            ..facts
        },
    )
}

/// What symbolic execution of a basic block leaves behind: the machine
/// after the instructions of the block were executed from a state in which
/// no register was set, and after the values of the registers that were set
/// were assigned to the variables for their values on leaving the block;
/// and the writes of the instructions.
pub open spec fn block_executed(dol: Reader, graph: Graph, db: Map<u32, FactsView>, addr: u32) -> Result<
    Run,
    ExpressionError,
> {
    match facts_about(db, addr).basic_block {
        None => Err(ExpressionError::MissingBlock(addr)),
        Some(block) => match block_run(
            dol,
            entering(graph, addr),
            addr,
            block.end,
            Seq::<Write>::empty(),
        ) {
            Err(error) => Err(error),
            Ok(run) => Ok(Run { machine: leaving_bound(run.machine, 0), writes: run.writes }),
        },
    }
}

/// Whether every write that the database records for a basic block is made
/// of expressions of the context.
pub open spec fn writes_valid(db: Map<u32, FactsView>, ctx: &Context) -> bool {
    forall|addr: u32, k: int|
        (#[trigger] facts_about(db, addr)).basic_block is Some && 0 <= k < facts_about(
            db,
            addr,
        ).basic_block->0.writes.len() ==> ctx.valid(
            (#[trigger] facts_about(db, addr).basic_block->0.writes[k]).addr,
        ) && ctx.valid(facts_about(db, addr).basic_block->0.writes[k].data)
}

/// Executes a basic block symbolically and records its writes.
pub fn execute_block(dol: Reader, ctx: &mut Context, db: &mut FactDatabase, addr: u32) -> (r: Result<
    ExecutedBlock,
    ExpressionError,
>)
    requires
        old(ctx).wf(),
        old(db).wf(),
        writes_valid(old(db)@, old(ctx)),
    ensures
        final(ctx).wf(),
        final(db).wf(),
        extends(old(ctx).nodes(), final(ctx).nodes()),
        writes_valid(final(db)@, final(ctx)),
        match block_executed(dol, graph_of(old(ctx)), old(db)@, addr) {
            Ok(run) => {
                &&& r is Ok
                &&& graph_of(final(ctx)) == graph_in(run.machine)
                &&& final(db)@ == with_writes(old(db)@, addr, run.writes)
                &&& r->Ok_0@ == block_listed(dol, graph_of(old(ctx)), old(db)@, addr)
            },
            Err(error) => r == Err::<ExecutedBlock, ExpressionError>(error) && final(db)@ == old(
                db,
            )@,
        },
        assigns_as_executed(old(ctx).assignments(), graph_of(final(ctx))),
{
    let end = match db.get_fact::<BasicBlockFact>(addr) {
        Some(block) => block.end_addr(),
        None => {
            return Err(ExpressionError::MissingBlock(addr));
        },
    };
    let mut state = MachineState::new(addr);
    let mut written: Vec<Write> = Vec::new();
    assert(Machine::of(ctx, &state) =~= entering(graph_of(ctx), addr));
    let steps = match run_block(dol, ctx, &mut state, addr, end, &mut written) {
        Ok(steps) => steps,
        Err(error) => {
            proof {
                lemma_writes_valid_extends(db@, old(ctx), ctx);
            }
            return Err(error);
        },
    };
    let ghost ran = *ctx;
    let leaving = bind_leaving(ctx, &state);
    proof {
        lemma_assigns_on(old(ctx).assignments(), graph_of(&ran), graph_of(ctx));
    }
    let ghost writes = written@;
    match db.get_fact_mut::<BasicBlockFact>(addr) {
        Some(block) => {
            block.record_writes(written);
        },
        None => {
            assert(false);
        },
    }
    proof {
        assert(db@ =~~= with_writes(old(db)@, addr, writes));
        lemma_writes_valid_extends(old(db)@, old(ctx), ctx);
        assert forall|other: u32, k: int|
            (#[trigger] facts_about(db@, other)).basic_block is Some && 0 <= k < facts_about(
                db@,
                other,
            ).basic_block->0.writes.len() implies ctx.valid(
            (#[trigger] facts_about(db@, other).basic_block->0.writes[k]).addr,
        ) && ctx.valid(facts_about(db@, other).basic_block->0.writes[k].data) by {
            if other == addr {
                let before = facts_about(old(db)@, addr).basic_block->0.writes;
                if k < before.len() {
                    assert(facts_about(db@, other).basic_block->0.writes[k] == before[k]);
                } else {
                    assert(facts_about(db@, other).basic_block->0.writes[k] == writes[k
                        - before.len()]);
                    assert(ran.valid(writes[k - before.len()].addr));
                }
            } else {
                assert(facts_about(db@, other) == facts_about(old(db)@, other));
            }
        }
    }
    Ok(ExecutedBlock { addr, end, steps, leaving })
}

/// Writes that are made of expressions of a context are made of
/// expressions of every context that it grows to.
pub proof fn lemma_writes_valid_extends(db: Map<u32, FactsView>, before: &Context, after: &Context)
    requires
        writes_valid(db, before),
        extends(before.nodes(), after.nodes()),
    ensures
        writes_valid(db, after),
{
    assert forall|addr: u32, k: int|
        (#[trigger] facts_about(db, addr)).basic_block is Some && 0 <= k < facts_about(
            db,
            addr,
        ).basic_block->0.writes.len() implies after.valid(
        (#[trigger] facts_about(db, addr).basic_block->0.writes[k]).addr,
    ) && after.valid(facts_about(db, addr).basic_block->0.writes[k].data) by {
        assert(before.valid(facts_about(db, addr).basic_block->0.writes[k].addr));
    }
}

/// What symbolic execution of the given basic blocks, one after the other,
/// leaves behind: the graph and the database.
pub open spec fn blocks_executed(
    dol: Reader,
    graph: Graph,
    db: Map<u32, FactsView>,
    blocks: Seq<u32>,
) -> Result<(Graph, Map<u32, FactsView>), ExpressionError>
    decreases blocks.len(),
{
    if blocks.len() == 0 {
        Ok((graph, db))
    } else {
        match block_executed(dol, graph, db, blocks[0]) {
            Err(error) => Err(error),
            Ok(run) => blocks_executed(
                dol,
                graph_in(run.machine),
                with_writes(db, blocks[0], run.writes),
                blocks.drop_first(),
            ),
        }
    }
}

/// The first pass takes no basic block out of the database.
pub proof fn lemma_blocks_kept(dol: Reader, graph: Graph, db: Map<u32, FactsView>, blocks: Seq<u32>)
    requires
        blocks_executed(dol, graph, db, blocks) is Ok,
    ensures
        forall|addr: u32|
            (#[trigger] facts_about(db, addr)).basic_block is Some ==> facts_about(
                blocks_executed(dol, graph, db, blocks)->Ok_0.1,
                addr,
            ).basic_block is Some,
    decreases blocks.len(),
{
    if blocks.len() > 0 {
        let run = block_executed(dol, graph, db, blocks[0])->Ok_0;
        let next = with_writes(db, blocks[0], run.writes);
        lemma_blocks_kept(dol, graph_in(run.machine), next, blocks.drop_first());
        assert forall|addr: u32|
            (#[trigger] facts_about(db, addr)).basic_block is Some implies facts_about(
            blocks_executed(dol, graph, db, blocks)->Ok_0.1,
            addr,
        ).basic_block is Some by {
            assert(facts_about(next, addr).basic_block is Some);
        }
    }
}

/// A list that ends with an item, followed by further items, is the list
/// before, followed by the item and the further items.
proof fn lemma_listed_step<T>(before: Seq<T>, item: T, further: Seq<T>, now: Seq<T>, rest: Seq<T>)
    requires
        now =~= before.push(item),
        rest == seq![item] + further,
    ensures
        now + further == before + rest,
{
    assert(now + further =~= before + rest);
}

/// The first pass: executes each of the basic blocks symbolically, in the
/// order given, and records their writes. Hands back what it did in each
/// block.
pub fn execute_blocks(dol: Reader, ctx: &mut Context, db: &mut FactDatabase, blocks: &Vec<u32>) -> (r:
    Result<Vec<ExecutedBlock>, ExpressionError>)
    requires
        old(ctx).wf(),
        old(db).wf(),
        writes_valid(old(db)@, old(ctx)),
    ensures
        final(ctx).wf(),
        final(db).wf(),
        extends(old(ctx).nodes(), final(ctx).nodes()),
        writes_valid(final(db)@, final(ctx)),
        same_besides_writes(old(db)@, final(db)@),
        match blocks_executed(dol, graph_of(old(ctx)), old(db)@, blocks@) {
            Ok(done) => {
                &&& r is Ok
                &&& graph_of(final(ctx)) == done.0
                &&& final(db)@ == done.1
                &&& executed_views(r->Ok_0@) == blocks_listed(
                    dol,
                    graph_of(old(ctx)),
                    old(db)@,
                    blocks@,
                )
            },
            Err(error) => r == Err::<Vec<ExecutedBlock>, ExpressionError>(error),
        },
        assigns_as_executed(old(ctx).assignments(), graph_of(final(ctx))),
{
    let mut i: usize = 0;
    let mut listed: Vec<ExecutedBlock> = Vec::new();
    let ghost all = blocks_listed(dol, graph_of(old(ctx)), old(db)@, blocks@);
    proof {
        assert(blocks@.skip(0) =~= blocks@);
        assert(executed_views(listed@) + all =~= all);
        lemma_same_besides_writes(db@);
    }
    while i < blocks.len()
        invariant
            i <= blocks.len(),
            ctx.wf(),
            db.wf(),
            extends(old(ctx).nodes(), ctx.nodes()),
            writes_valid(db@, ctx),
            same_besides_writes(old(db)@, db@),
            blocks_executed(dol, graph_of(old(ctx)), old(db)@, blocks@) == blocks_executed(
                dol,
                graph_of(ctx),
                db@,
                blocks@.skip(i as int),
            ),
            all == blocks_listed(dol, graph_of(old(ctx)), old(db)@, blocks@),
            assigns_as_executed(old(ctx).assignments(), graph_of(ctx)),
            all == executed_views(listed@) + blocks_listed(
                dol,
                graph_of(ctx),
                db@,
                blocks@.skip(i as int),
            ),
        decreases blocks.len() - i,
    {
        proof {
            assert(blocks@.skip(i as int)[0] == blocks@[i as int]);
            assert(blocks@.skip(i as int).drop_first() =~= blocks@.skip(i + 1));
        }
        let ghost before = listed@;
        let ghost rest = blocks_listed(dol, graph_of(ctx), db@, blocks@.skip(i as int));
        let ghost now = db@;
        let ghost graph_before = graph_of(ctx);
        let executed_block = execute_block(dol, ctx, db, blocks[i]);
        proof {
            lemma_assigns_on(old(ctx).assignments(), graph_before, graph_of(ctx));
        }
        match executed_block {
            Ok(block) => {
                listed.push(block);
                proof {
                    let run = block_executed(dol, graph_before, now, blocks@[i as int])->Ok_0;
                    lemma_writes_added(old(db)@, now, blocks@[i as int], run.writes);
                    lemma_listed_step(
                        executed_views(before),
                        block@,
                        blocks_listed(dol, graph_of(ctx), db@, blocks@.skip(i + 1)),
                        executed_views(listed@),
                        rest,
                    );
                }
            },
            Err(error) => {
                return Err(error);
            },
        }
        i += 1;
    }
    proof {
        assert(executed_views(listed@) + Seq::<ExecutedBlockView>::empty() =~= executed_views(
            listed@,
        ));
    }
    Ok(listed)
}

} // verus!
