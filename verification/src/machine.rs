//! What symbolic execution of one instruction does, as a function on the
//! state of the machine.

use vstd::prelude::*;

use crate::powerpc::condition::condition_bit::ConditionBit;
use crate::powerpc::instruction::decoded_instruction::DecodedInstruction;
use crate::powerpc::register::crf::Crf;
use crate::powerpc::register::gpr::Gpr;
use crate::powerpc::register::Register;
use crate::powerpc::register::spr::Spr;
use crate::powerpc_symbolic::AccessWidth;
use crate::powerpc_symbolic::assigned;
use crate::powerpc_symbolic::Context;
use crate::powerpc_symbolic::MachineState;
use crate::powerpc_symbolic::Name;
use crate::powerpc_symbolic::register_value;
use crate::powerpc_symbolic::Variable;
use crate::powerpc_symbolic::Write;
use crate::symbolic::context::interned;
use crate::symbolic::expr::Node;
use crate::symbolic::expr_ref::ExprRef;
use crate::symbolic::normal::add_normal;
use crate::symbolic::normal::bit_or_normal;
use crate::symbolic::normal::equal_normal;
use crate::symbolic::normal::less_signed_normal;
use crate::symbolic::normal::less_unsigned_normal;
use crate::symbolic::numbered::NumberedVariable;

verus! {

/// The expression graph and the registers of a basic block, as values.
#[verifier::ext_equal]
pub ghost struct Machine {
    /// The table of the expression graph.
    pub nodes: Seq<Node<Name>>,
    /// What has been assigned to which variable.
    pub assignments: Map<ExprRef, ExprRef>,
    /// The number of the next numbered variable.
    pub next: usize,
    /// The registers that were set, each with the value that it was set to
    /// last, by the code of the register.
    pub values: Map<u32, ExprRef>,
    /// The address of the basic block.
    pub block: u32,
}

/// What an instruction does to the registers and to memory.
#[verifier::ext_equal]
pub ghost struct Effect {
    /// The machine after the instruction was looked at.
    pub machine: Machine,
    /// The registers that the instruction sets.
    pub registers: Seq<(Register, ExprRef)>,
    /// The memory that the instruction writes.
    pub writes: Seq<Write>,
}

/// A 16-bit immediate as the 32-bit word with the same value in two's
/// complement.
pub open spec fn sign_extended(immediate: i16) -> u32 {
    if immediate >= 0 {
        immediate as u32
    } else {
        (immediate + 0x1_0000_0000) as u32
    }
}

/// The registers that a call leaves undefined under the C ABI, in the order
/// in which an update names them: `r0`, `r5..=r12`, `lr`, `ctr`, `xer`, and
/// the condition bits `0..=7` and `20..=31`.
pub open spec fn volatile_register(i: int) -> Register {
    if i == 0 {
        Register::GeneralPurpose(Gpr::of_index(0))
    } else if i <= 8 {
        Register::GeneralPurpose(Gpr::of_index((4 + i) as u32))
    } else if i == 9 {
        Register::SpecialPurpose(Spr::Link)
    } else if i == 10 {
        Register::SpecialPurpose(Spr::Count)
    } else if i == 11 {
        Register::SpecialPurpose(Spr::IntegerException)
    } else if i <= 19 {
        Register::ConditionBit(ConditionBit::of_index((i - 12) as u32))
    } else {
        Register::ConditionBit(ConditionBit::of_index(i as u32))
    }
}

/// How many registers a call leaves undefined.
pub const VOLATILE_REGISTERS: usize = 32;

/// The first `n` registers that a call leaves undefined, each set to
/// `garbage`.
pub open spec fn clobbered(n: nat, garbage: ExprRef) -> Seq<(Register, ExprRef)> {
    Seq::new(n, |i: int| (volatile_register(i), garbage))
}

/// The bit of a condition register field that stands for a condition.
pub open spec fn field_bit(crf: Crf, condition: u32) -> Register {
    Register::ConditionBit(ConditionBit::of_index((4 * crf.index() + condition) as u32))
}

impl Machine {
    /// The machine that a context and a state make up.
    pub open spec fn of(ctx: &Context, state: &MachineState) -> Machine {
        Machine {
            nodes: ctx.nodes(),
            assignments: ctx.assignments(),
            next: ctx.next_number(),
            values: state.values(),
            block: state.block(),
        }
    }

    /// The machine with another table.
    pub open spec fn with_nodes(self, nodes: Seq<Node<Name>>) -> Machine {
        Machine {
            nodes,
            assignments: self.assignments,
            next: self.next,
            values: self.values,
            block: self.block,
        }
    }

    /// The machine after a constructor of expressions has run, and the
    /// expression that it gave.
    pub open spec fn after(self, step: (Seq<Node<Name>>, ExprRef)) -> (Machine, ExprRef) {
        (self.with_nodes(step.0), step.1)
    }

    /// Reading a register: the values of the registers stay as they are.
    pub open spec fn register(self, register: Register) -> (Machine, ExprRef) {
        self.after(register_value(self.nodes, self.values, self.block, register))
    }

    /// The expression of a literal.
    pub open spec fn literal(self, value: u32) -> (Machine, ExprRef) {
        self.after(interned(self.nodes, Node::<Name>::Literal(value)))
    }

    /// The expression of a named variable.
    pub open spec fn variable(self, name: Variable) -> (Machine, ExprRef) {
        self.after(interned(self.nodes, Node::Variable(NumberedVariable::Named(name))))
    }

    /// A numbered variable that the table does not hold yet.
    pub open spec fn fresh(self) -> (Machine, ExprRef) {
        (
            Machine {
                nodes: self.nodes.push(Node::Variable(NumberedVariable::Numbered(self.next))),
                assignments: self.assignments,
                next: (self.next + 1) as usize,
                values: self.values,
                block: self.block,
            },
            ExprRef(self.nodes.len() as usize),
        )
    }

    /// The machine after an assignment to a variable.
    pub open spec fn assign(self, variable: ExprRef, value: ExprRef) -> Machine {
        Machine {
            nodes: self.nodes,
            assignments: self.assignments.insert(variable, value),
            next: self.next,
            values: self.values,
            block: self.block,
        }
    }

    /// What the record form of an instruction adds: the bits "less than",
    /// "greater than" and "equal" of `cr0` are set from the signed
    /// comparison of the result with zero.
    pub open spec fn recorded(self, result: ExprRef) -> (Machine, Seq<(Register, ExprRef)>) {
        let zero = self.literal(0);
        let lt = zero.0.after(less_signed_normal(zero.0.nodes, result, zero.1));
        let gt = lt.0.after(less_signed_normal(lt.0.nodes, zero.1, result));
        let eq = gt.0.after(equal_normal(gt.0.nodes, result, zero.1));
        (
            eq.0,
            seq![
                (Register::ConditionBit(ConditionBit::of_index(0)), lt.1),
                (Register::ConditionBit(ConditionBit::of_index(1)), gt.1),
                (Register::ConditionBit(ConditionBit::of_index(2)), eq.1),
            ],
        )
    }

    /// The address `offset(base)` of a load or store: the sum of the offset
    /// and of the value of the base register.
    pub open spec fn address(self, offset: i16, base: Register) -> (Machine, ExprRef) {
        let offset = self.literal(sign_extended(offset));
        let base = offset.0.register(base);
        base.0.after(add_normal(base.0.nodes, seq![offset.1, base.1]))
    }
}

/// The machine after the registers of an effect are set.
pub open spec fn applied(effect: Effect) -> Machine {
    Machine {
        nodes: effect.machine.nodes,
        assignments: effect.machine.assignments,
        next: effect.machine.next,
        values: assigned(effect.machine.values, effect.registers),
        block: effect.machine.block,
    }
}

/// Whether symbolic execution knows what the instruction does.
pub open spec fn executes(instruction: DecodedInstruction) -> bool {
    match instruction {
        DecodedInstruction::Addi { .. }
        | DecodedInstruction::B { .. }
        | DecodedInstruction::Bc { .. }
        | DecodedInstruction::Bclr { .. }
        | DecodedInstruction::Cmpli { .. }
        | DecodedInstruction::Lwz { .. }
        | DecodedInstruction::Mfspr { .. }
        | DecodedInstruction::Mtspr { .. }
        | DecodedInstruction::Or { .. }
        | DecodedInstruction::Stw { .. }
        | DecodedInstruction::Stwu { .. } => true,
        _ => false,
    }
}

/// What the instruction at `cia` does on a machine.
///
/// - `addi` sets its destination to the sum of the source and the
///   sign-extended immediate.
/// - A branch that links is a call: it sets every register that the C ABI
///   lets a call change to the garbage variable, and `r3` to the variable for
///   what the call returns. Any other branch does nothing here.
/// - `cmplwi` sets the bits "less than", "greater than" and "equal" of its
///   condition register field from the unsigned comparison of the source
///   with the immediate.
/// - `lwz` sets its destination to a new numbered variable, to which the
///   read of the address is assigned.
/// - `mfspr` and `mtspr` copy one register to the other.
/// - `or` sets its destination to the bitwise or of its sources; its record
///   form also sets the three bits of `cr0` from the signed comparison of the
///   result with zero.
/// - `stw` writes the source word to the address; `stwu` also sets the base
///   register to the address.
pub open spec fn executed(machine: Machine, cia: u32, instruction: DecodedInstruction) -> Effect {
    let none = Seq::<(Register, ExprRef)>::empty();
    let no_writes = Seq::<Write>::empty();
    match instruction {
        DecodedInstruction::Addi { dst, src, immediate } => {
            let src = machine.register(Register::of_gpr_or_zero(src));
            let immediate = src.0.literal(sign_extended(immediate));
            let sum = immediate.0.after(add_normal(immediate.0.nodes, seq![src.1, immediate.1]));
            Effect {
                machine: sum.0,
                registers: seq![(Register::GeneralPurpose(dst), sum.1)],
                writes: no_writes,
            }
        },
        DecodedInstruction::B { .. }
        | DecodedInstruction::Bc { .. }
        | DecodedInstruction::Bclr { .. } => {
            if instruction.branch_descriptor()->0.link {
                let garbage = machine.variable(Variable::Garbage);
                let returned = garbage.0.variable(Variable::Return { call_addr: cia });
                Effect {
                    machine: returned.0,
                    registers: clobbered(VOLATILE_REGISTERS as nat, garbage.1).push(
                        (Register::GeneralPurpose(Gpr::of_index(3)), returned.1),
                    ),
                    writes: no_writes,
                }
            } else {
                Effect { machine, registers: none, writes: no_writes }
            }
        },
        DecodedInstruction::Cmpli { crf, src, immediate } => {
            let lhs = machine.register(Register::GeneralPurpose(src));
            let rhs = lhs.0.literal(immediate as u32);
            let lt = rhs.0.after(less_unsigned_normal(rhs.0.nodes, lhs.1, rhs.1));
            let gt = lt.0.after(less_unsigned_normal(lt.0.nodes, rhs.1, lhs.1));
            let eq = gt.0.after(equal_normal(gt.0.nodes, lhs.1, rhs.1));
            Effect {
                machine: eq.0,
                registers: seq![
                    (field_bit(crf, 0), lt.1),
                    (field_bit(crf, 1), gt.1),
                    (field_bit(crf, 2), eq.1),
                ],
                writes: no_writes,
            }
        },
        DecodedInstruction::Lwz { dst, offset, base } => {
            let addr = machine.address(offset, Register::of_gpr_or_zero(base));
            let variable = addr.0.fresh();
            let data = variable.0.after(interned(variable.0.nodes, Node::<Name>::Read(addr.1)));
            Effect {
                machine: data.0.assign(variable.1, data.1),
                registers: seq![(Register::GeneralPurpose(dst), variable.1)],
                writes: no_writes,
            }
        },
        DecodedInstruction::Mfspr { spr, dst } => {
            let value = machine.register(Register::SpecialPurpose(spr));
            Effect {
                machine: value.0,
                registers: seq![(Register::GeneralPurpose(dst), value.1)],
                writes: no_writes,
            }
        },
        DecodedInstruction::Mtspr { spr, src } => {
            let value = machine.register(Register::GeneralPurpose(src));
            Effect {
                machine: value.0,
                registers: seq![(Register::SpecialPurpose(spr), value.1)],
                writes: no_writes,
            }
        },
        DecodedInstruction::Or { dst, srcs, record } => {
            let src0 = machine.register(Register::GeneralPurpose(srcs[0]));
            let src1 = src0.0.register(Register::GeneralPurpose(srcs[1]));
            let or = src1.0.after(bit_or_normal(src1.0.nodes, seq![src0.1, src1.1]));
            if record {
                let flags = or.0.recorded(or.1);
                Effect {
                    machine: flags.0,
                    registers: seq![(Register::GeneralPurpose(dst), or.1)] + flags.1,
                    writes: no_writes,
                }
            } else {
                Effect {
                    machine: or.0,
                    registers: seq![(Register::GeneralPurpose(dst), or.1)],
                    writes: no_writes,
                }
            }
        },
        DecodedInstruction::Stw { src, offset, base } => {
            let addr = machine.address(offset, Register::of_gpr_or_zero(base));
            let data = addr.0.register(Register::GeneralPurpose(src));
            Effect {
                machine: data.0,
                registers: none,
                writes: seq![(Write { width: AccessWidth::Word, addr: addr.1, data: data.1 })],
            }
        },
        DecodedInstruction::Stwu { src, offset, base } => {
            let addr = machine.address(offset, Register::GeneralPurpose(base.gpr()));
            let data = addr.0.register(Register::GeneralPurpose(src));
            Effect {
                machine: data.0,
                registers: seq![(Register::GeneralPurpose(base.gpr()), addr.1)],
                writes: seq![(Write { width: AccessWidth::Word, addr: addr.1, data: data.1 })],
            }
        },
        _ => Effect { machine, registers: none, writes: no_writes },
    }
}

} // verus!
