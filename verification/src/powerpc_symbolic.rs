//! Symbolic execution of PowerPC instructions, one basic block at a time.

use std::collections::HashMap;
use vstd::prelude::*;
use vstd::string::*;
use vstd::std_specs::convert::IntoSpec;
use vstd::std_specs::iter::IteratorSpec;

use crate::machine::clobbered;
use crate::machine::executed;
use crate::machine::executes;
use crate::machine::Machine;
use crate::machine::sign_extended;
use crate::powerpc::condition::condition::Condition;
use crate::powerpc::condition::condition_bit::ConditionBit;
use crate::powerpc::cr_constants::cr0eq;
use crate::powerpc::cr_constants::cr0gt;
use crate::powerpc::cr_constants::cr0lt;
use crate::powerpc::gpr_constants::r0;
use crate::powerpc::gpr_constants::r3;
use crate::powerpc::instruction::decoded_instruction::DecodedInstruction;
use crate::powerpc::register::gpr::Gpr;
use crate::powerpc::register::Register;
use crate::powerpc::register::REGISTER_CODES;
use crate::powerpc::register::spr::Spr;
use crate::symbolic::context::extends;
use crate::symbolic::context::interned;
use crate::symbolic::expr::Node;
use crate::symbolic::expr_ref::ExprRef;
use crate::symbolic::fingerprint::mix;
use crate::symbolic::fingerprint::mixed;
use crate::symbolic::numbered::NumberedContext;
use crate::symbolic::numbered::NumberedVariable;
use crate::symbolic::variable::VariableName;
use crate::text::address_text;
use crate::text::push_address;

verus! {

/// The names of the variables that symbolic execution introduces.
#[derive(Clone, Copy, Debug, PartialEq, Eq, Hash, Structural)]
pub enum Variable {
    /// An unknown value. Referencing a garbage value means a program is violating the C ABI.
    Garbage,
    /// The initial value of a register on entering a basic block.
    RegisterEntering { basic_block_addr: u32, register: Register },
    /// The final value of a register on leaving a basic block.
    RegisterLeaving { basic_block_addr: u32, register: Register },
    /// The return value word (`r3`) as specified by the C ABI. If the called function does not
    /// return a value in this word, this is a synonym for `Garbage`.
    Return { call_addr: u32 },
}

impl VariableName for Variable {
    fn same(&self, other: &Self) -> (r: bool) {
        *self == *other
    }

    open spec fn code(&self) -> u64 {
        match self {
            Variable::Garbage => 0,
            Variable::RegisterEntering { basic_block_addr, register } => mixed(
                mixed(1, *basic_block_addr as u64),
                register.code() as u64,
            ),
            Variable::RegisterLeaving { basic_block_addr, register } => mixed(
                mixed(2, *basic_block_addr as u64),
                register.code() as u64,
            ),
            Variable::Return { call_addr } => mixed(3, *call_addr as u64),
        }
    }

    fn to_code(&self) -> (r: u64) {
        match self {
            Variable::Garbage => 0,
            Variable::RegisterEntering { basic_block_addr, register } => mix(
                mix(1, *basic_block_addr as u64),
                register.to_code() as u64,
            ),
            Variable::RegisterLeaving { basic_block_addr, register } => mix(
                mix(2, *basic_block_addr as u64),
                register.to_code() as u64,
            ),
            Variable::Return { call_addr } => mix(3, *call_addr as u64),
        }
    }

    open spec fn text(&self) -> Seq<char> {
        match self {
            Variable::Garbage => "garbage"@,
            Variable::RegisterEntering { basic_block_addr, register } => "entering_"@
                + address_text(*basic_block_addr) + "_"@ + register.text(),
            Variable::RegisterLeaving { basic_block_addr, register } => "leaving_"@ + address_text(
                *basic_block_addr,
            ) + "_"@ + register.text(),
            Variable::Return { call_addr } => "return_"@ + address_text(*call_addr),
        }
    }

    fn to_string(&self) -> (r: String) {
        match self {
            Variable::Garbage => String::from_str("garbage"),
            Variable::RegisterEntering { basic_block_addr, register } => {
                let mut out = String::from_str("entering_");
                push_address(&mut out, *basic_block_addr);
                out.append("_");
                out.append(register.to_string().as_str());
                out
            },
            Variable::RegisterLeaving { basic_block_addr, register } => {
                let mut out = String::from_str("leaving_");
                push_address(&mut out, *basic_block_addr);
                out.append("_");
                out.append(register.to_string().as_str());
                out
            },
            Variable::Return { call_addr } => {
                let mut out = String::from_str("return_");
                push_address(&mut out, *call_addr);
                out
            },
        }
    }
}

impl AccessWidth {
    /// The letter that stands for the width.
    pub open spec fn text(&self) -> Seq<char> {
        match self {
            AccessWidth::Byte => "b"@,
            AccessWidth::Halfword => "h"@,
            AccessWidth::Word => "w"@,
        }
    }

    pub fn to_string(&self) -> (r: String)
        ensures
            r@ == self.text(),
    {
        String::from_str(
            match self {
                AccessWidth::Byte => "b",
                AccessWidth::Halfword => "h",
                AccessWidth::Word => "w",
            },
        )
    }
}

/// The variables of the analysis: those above, and numbered ones.
pub type Name = NumberedVariable<Variable>;

/// The expression graph of the analysis.
pub type Context = NumberedContext<Variable>;

/// The place of a block of memory in a machine state.
#[derive(Clone, Copy, Debug, PartialEq, Eq, Hash, Structural)]
pub struct MemoryBlockRef(pub usize);

/// How many bytes a memory access touches.
#[derive(Clone, Copy, Debug, PartialEq, Eq, Hash, Structural)]
pub enum AccessWidth {
    Byte,
    Halfword,
    Word,
}

/// A memory write: `data` goes to `addr`.
#[derive(Clone, Copy, Debug, PartialEq, Eq, Structural)]
pub struct Write {
    pub width: AccessWidth,
    pub addr: ExprRef,
    pub data: ExprRef,
}

/// What one instruction does: the registers that it sets, a later entry for
/// a register overriding an earlier one, and the memory that it writes, in
/// order.
pub struct Update {
    pub registers: Vec<(Register, ExprRef)>,
    pub writes: Vec<Write>,
}

impl Default for Update {
    /// The update that changes nothing.
    fn default() -> (r: Self)
        ensures
            r.registers@ == Seq::<(Register, ExprRef)>::empty(),
            r.writes@ == Seq::<Write>::empty(),
    {
        Self::new()
    }
}

impl Update {
    pub fn new() -> (r: Self)
        ensures
            r.registers@ == Seq::<(Register, ExprRef)>::empty(),
            r.writes@ == Seq::<Write>::empty(),
    {
        Self { registers: Vec::new(), writes: Vec::new() }
    }

    pub fn set_register<T: Into<Register>>(&mut self, register: T, data: ExprRef)
        requires
            T::obeys_into_spec(),
        ensures
            final(self).registers@ == old(self).registers@.push((register.into_spec(), data)),
            final(self).writes@ == old(self).writes@,
            register.into_spec().wf(),
    {
        self.set(register.into(), data);
    }

    /// Sets a register, as [`Update::set_register`] does.
    pub fn set(&mut self, register: Register, data: ExprRef)
        ensures
            final(self).registers@ == old(self).registers@.push((register, data)),
            final(self).writes@ == old(self).writes@,
            register.wf(),
    {
        register.check();
        self.registers.push((register, data));
    }

    /// Whether the update is made of expressions of the context.
    pub open spec fn valid(&self, ctx: &Context) -> bool {
        &&& forall|k: int| 0 <= k < self.registers@.len() ==> ctx.valid((#[trigger] self.registers@[k]).1)
        &&& forall|k: int|
            0 <= k < self.writes@.len() ==> ctx.valid((#[trigger] self.writes@[k]).addr)
                && ctx.valid(self.writes@[k].data)
    }

    pub fn add_write(&mut self, width: AccessWidth, addr: ExprRef, data: ExprRef)
        ensures
            final(self).registers@ == old(self).registers@,
            final(self).writes@ == old(self).writes@.push((Write { width, addr, data })),
    {
        self.writes.push(Write { width, addr, data });
    }

    pub fn one_register<T: Into<Register>>(register: T, data: ExprRef) -> (r: Self)
        requires
            T::obeys_into_spec(),
        ensures
            r.registers@ == seq![(register.into_spec(), data)],
            r.writes@ == Seq::<Write>::empty(),
            register.into_spec().wf(),
    {
        Self::one(register.into(), data)
    }

    /// The update that sets one register, as [`Update::one_register`]
    /// gives it.
    pub fn one(register: Register, data: ExprRef) -> (r: Self)
        ensures
            r.registers@ == seq![(register, data)],
            r.writes@ == Seq::<Write>::empty(),
            register.wf(),
    {
        let mut registers: Vec<(Register, ExprRef)> = Vec::new();
        register.check();
        registers.push((register, data));
        assert(registers@ =~= seq![(register, data)]);
        Self { registers, writes: Vec::new() }
    }

    pub fn one_write(width: AccessWidth, addr: ExprRef, data: ExprRef) -> (r: Self)
        ensures
            r.registers@ == Seq::<(Register, ExprRef)>::empty(),
            r.writes@ == seq![(Write { width, addr, data })],
    {
        let mut writes: Vec<Write> = Vec::new();
        writes.push(Write { width, addr, data });
        assert(writes@ =~= seq![(Write { width, addr, data })]);
        Self { registers: Vec::new(), writes }
    }
}

/// The registers of a state after the given ones are set, in order: a map
/// from the code of a register to its value. The literal zero is not a
/// register and is never set.
pub open spec fn assigned(
    values: Map<u32, ExprRef>,
    registers: Seq<(Register, ExprRef)>,
) -> Map<u32, ExprRef>
    decreases registers.len(),
{
    if registers.len() == 0 {
        values
    } else {
        let before = assigned(values, registers.drop_last());
        let last = registers.last();
        if last.0 is Zero {
            before
        } else {
            before.insert(last.0.code(), last.1)
        }
    }
}

/// What setting registers can do to the value of a register: it keeps its
/// value, or gets the value of one of the settings.
pub proof fn lemma_assigned(values: Map<u32, ExprRef>, registers: Seq<(Register, ExprRef)>, code: u32)
    requires
        forall|k: int| 0 <= k < registers.len() ==> (#[trigger] registers[k]).0.wf(),
        assigned(values, registers).contains_key(code),
    ensures
        (values.contains_key(code) && values[code] == assigned(values, registers)[code]) || exists|
            k: int,
        |
            0 <= k < registers.len() && !((#[trigger] registers[k]).0 is Zero) && registers[k].0.code()
                == code && registers[k].1 == assigned(values, registers)[code],
    decreases registers.len(),
{
    if registers.len() > 0 {
        let rest = registers.drop_last();
        let last = registers.last();
        if !(last.0 is Zero) && last.0.code() == code {
            assert(registers[registers.len() - 1] == last);
        } else {
            assert forall|k: int| 0 <= k < rest.len() implies (#[trigger] rest[k]).0.wf() by {
                assert(rest[k] == registers[k]);
            }
            lemma_assigned(values, rest, code);
            if !(values.contains_key(code) && values[code] == assigned(values, rest)[code]) {
                let k = choose|k: int|
                    0 <= k < rest.len() && !((#[trigger] rest[k]).0 is Zero) && rest[k].0.code()
                        == code && rest[k].1 == assigned(values, rest)[code];
                assert(registers[k] == rest[k]);
            }
        }
    }
}

/// The values of the registers of one basic block while it is executed
/// symbolically.
pub struct MachineState {
    basic_block: u32,
    registers: HashMap<u32, ExprRef>,
}

impl MachineState {
    /// The address of the basic block.
    pub closed spec fn block(&self) -> u32 {
        self.basic_block
    }

    /// The registers that were set, each with the value that it was set to
    /// last, by the code of the register. A register that was only read is
    /// not among them.
    pub closed spec fn values(&self) -> Map<u32, ExprRef> {
        self.registers@
    }

    /// What was set is a register.
    pub open spec fn codes_ok(&self) -> bool {
        forall|code: u32| #[trigger] self.values().contains_key(code) ==> 0 < code < REGISTER_CODES
    }

    /// Every value is an expression of the context, and what was set is a
    /// register.
    pub open spec fn wf(&self, ctx: &Context) -> bool {
        forall|code: u32| #[trigger]
            self.values().contains_key(code) ==> 0 < code < REGISTER_CODES && ctx.valid(
                self.values()[code],
            )
    }

    pub fn new(basic_block: u32) -> (r: Self)
        ensures
            r.block() == basic_block,
            r.values() == Map::<u32, ExprRef>::empty(),
    {
        Self { basic_block, registers: HashMap::new() }
    }

    /// The value of a register: the literal 0 for the literal zero, the
    /// value that the register was set to last, or else the variable for the
    /// value of the register on entering the block. Reading a register gives
    /// it no value: the state stays as it is.
    pub fn get_register<T: Into<Register>>(&mut self, ctx: &mut Context, register: T) -> (r:
        ExprRef)
        requires
            T::obeys_into_spec(),
            old(ctx).wf(),
            old(self).wf(old(ctx)),
        ensures
            final(ctx).wf(),
            final(self).wf(final(ctx)),
            final(self).block() == old(self).block(),
            final(self).values() == old(self).values(),
            final(ctx).valid(r),
            final(ctx).assignments() == old(ctx).assignments(),
            final(ctx).next_number() == old(ctx).next_number(),
            extends(old(ctx).nodes(), final(ctx).nodes()),
            (final(ctx).nodes(), r) == register_value(
                old(ctx).nodes(),
                old(self).values(),
                old(self).block(),
                register.into_spec(),
            ),
    {
        let register: Register = register.into();
        self.read_register(ctx, register)
    }

    /// The value of a register, as [`MachineState::get_register`] gives it.
    pub fn read_register(&self, ctx: &mut Context, register: Register) -> (r: ExprRef)
        requires
            old(ctx).wf(),
            self.wf(old(ctx)),
        ensures
            final(ctx).wf(),
            self.wf(final(ctx)),
            final(ctx).valid(r),
            final(ctx).assignments() == old(ctx).assignments(),
            final(ctx).next_number() == old(ctx).next_number(),
            extends(old(ctx).nodes(), final(ctx).nodes()),
            (final(ctx).nodes(), r) == register_value(
                old(ctx).nodes(),
                self.values(),
                self.block(),
                register,
            ),
    {
        broadcast use vstd::std_specs::hash::group_hash_axioms;

        let r = match register {
            Register::Zero => ctx.literal_expr(0),
            register => {
                let code = register.to_code();
                let found = match self.registers.get(&code) {
                    Some(expr) => Some(*expr),
                    None => None,
                };
                match found {
                    Some(expr) => expr,
                    None => ctx.variable_expr(
                        Variable::RegisterEntering { basic_block_addr: self.basic_block, register },
                    ),
                }
            },
        };
        proof {
            assert forall|code: u32| #[trigger] self.values().contains_key(code) implies 0 < code
                < REGISTER_CODES && ctx.valid(self.values()[code]) by {
                assert(old(ctx).valid(self.values()[code]));
            }
            if !(register is Zero) && self.values().contains_key(register.code()) {
                assert(old(ctx).valid(self.values()[register.code()]));
            }
        }
        r
    }

    /// The address of the basic block.
    pub fn basic_block_addr(&self) -> (r: u32)
        ensures
            r == self.block(),
    {
        self.basic_block
    }

    /// The value of the register with the given code, if it was set.
    pub fn value_of(&self, code: u32) -> (r: Option<ExprRef>)
        ensures
            r == self.values().get(code),
    {
        broadcast use vstd::std_specs::hash::group_hash_axioms;

        match self.registers.get(&code) {
            Some(expr) => Some(*expr),
            None => None,
        }
    }

    /// The registers that were set, each with its value, in no
    /// particular order.
    pub fn iter_registers(&self) -> (r: Vec<(Register, ExprRef)>)
        requires
            self.codes_ok(),
        ensures
            r@.len() == self.values().dom().len(),
            forall|k: int|
                0 <= k < r@.len() ==> {
                    &&& (#[trigger] r@[k]).0.wf()
                    &&& self.values().contains_key(r@[k].0.code())
                    &&& self.values()[r@[k].0.code()] == r@[k].1
                },
            forall|j: int, k: int| 0 <= j < k < r@.len() ==> r@[j].0 != r@[k].0,
            forall|code: u32|
                self.values().contains_key(code) ==> exists|k: int|
                    0 <= k < r@.len() && (#[trigger] r@[k]).0.code() == code,
    {
        broadcast use vstd::std_specs::hash::group_hash_axioms;

        let ghost rem = self.registers.iter().remaining();
        let mut out: Vec<(Register, ExprRef)> = Vec::new();
        for pair in it: self.registers.iter()
            invariant
                it.seq() == rem,
                rem == self.registers.iter().remaining(),
                rem.no_duplicates(),
                forall|code: u32| #[trigger]
                    self.values().contains_key(code) ==> code < REGISTER_CODES,
                out@.len() == it.index(),
                forall|k: int|
                    0 <= k < out@.len() ==> (#[trigger] out@[k]).0.wf() && out@[k].0.code()
                        == *rem[k].0 && out@[k].1 == *rem[k].1,
        {
            let ghost k = out@.len() as int;
            let (code, expr) = pair;
            proof {
                assert(pair == rem[k]);
                assert(self.registers@.contains_key(*rem[k].0));
                assert(self.values().contains_key(*code));
            }
            match Register::from_code(*code) {
                Some(register) => {
                    out.push((register, *expr));
                },
                None => {
                    assert(false);
                },
            }
        }
        proof {
            assert forall|j: int, k: int| 0 <= j < k < out@.len() implies out@[j].0
                != out@[k].0 by {
                if out@[j].0 == out@[k].0 {
                    assert(*rem[j].0 == *rem[k].0);
                    assert(self.registers@.contains_key(*rem[j].0));
                    assert(*rem[j].1 == *rem[k].1);
                    assert(rem[j] == rem[k]);
                }
            }
            assert forall|code: u32| self.values().contains_key(code) implies exists|k: int|
                0 <= k < out@.len() && (#[trigger] out@[k]).0.code() == code by {
                let value = self.registers@[code];
                assert(rem.contains((&code, &value)));
                let k = choose|k: int| 0 <= k < rem.len() && rem[k] == (&code, &value);
                assert(out@[k].0.code() == code);
            }
        }
        out
    }

    /// Sets the registers of an update and hands its writes to the caller.
    pub fn apply(&mut self, update: Update) -> (writes: Vec<Write>)
        ensures
            writes@ == update.writes@,
            final(self).block() == old(self).block(),
            final(self).values() == assigned(old(self).values(), update.registers@),
            old(self).codes_ok() ==> final(self).codes_ok(),
            forall|ctx: &Context| #[trigger]
                old(self).wf(ctx) && update.valid(ctx) ==> final(self).wf(ctx),
    {
        broadcast use vstd::std_specs::hash::group_hash_axioms;

        let Update { registers, writes } = update;
        let mut i: usize = 0;
        while i < registers.len()
            invariant
                i <= registers.len(),
                self.block() == old(self).block(),
                self.values() == assigned(old(self).values(), registers@.take(i as int)),
                forall|k: int| 0 <= k < i ==> (#[trigger] registers@[k]).0.wf(),
            decreases registers.len() - i,
        {
            proof {
                assert(registers@.take(i + 1).drop_last() =~= registers@.take(i as int));
                assert(registers@.take(i + 1).last() == registers@[i as int]);
            }
            let (register, expr) = registers[i];
            register.check();
            match register {
                Register::Zero => {},
                register => {
                    self.registers.insert(register.to_code(), expr);
                },
            }
            i += 1;
        }
        proof {
            assert(registers@.take(registers@.len() as int) =~= registers@);
            assert forall|code: u32| #[trigger] self.values().contains_key(code) implies (old(
                self,
            ).values().contains_key(code) && old(self).values()[code] == self.values()[code])
                || exists|k: int|
                0 <= k < registers@.len() && 0 < code < REGISTER_CODES && (#[trigger] registers@[k]).1
                    == self.values()[code] by {
                lemma_assigned(old(self).values(), registers@, code);
            }
        }
        writes
    }
}

/// A 16-bit immediate as the 32-bit word with the same value in two's
/// complement.
fn sign_extend(immediate: i16) -> (r: u32)
    ensures
        r == sign_extended(immediate),
{
    if immediate >= 0 {
        immediate as u32
    } else {
        (immediate as i64 + 0x1_0000_0000) as u32
    }
}

/// Whether a context, a state and an update are what an effect says.
pub open spec fn is_effect(
    effect: crate::machine::Effect,
    ctx: &Context,
    state: &MachineState,
    update: &Update,
) -> bool {
    &&& effect.machine.nodes =~= ctx.nodes()
    &&& effect.machine.assignments =~= ctx.assignments()
    &&& effect.machine.next == ctx.next_number()
    &&& effect.machine.values =~= state.values()
    &&& effect.machine.block == state.block()
    &&& effect.registers =~= update.registers@
    &&& effect.writes =~= update.writes@
}

/// Whether a context, a state and an update are what symbolic execution of
/// an instruction makes of an earlier context and state: all are well
/// formed, the context has grown, and the three hold the effect of the
/// instruction, over expressions of the context.
pub open spec fn prepared(
    ctx_before: &Context,
    before: &MachineState,
    cia: u32,
    instruction: DecodedInstruction,
    ctx: &Context,
    state: &MachineState,
    update: &Update,
) -> bool {
    &&& ctx.wf()
    &&& state.wf(ctx)
    &&& extends(ctx_before.nodes(), ctx.nodes())
    &&& is_effect(executed(Machine::of(ctx_before, before), cia, instruction), ctx, state, update)
    &&& forall|k: int|
        0 <= k < update.registers@.len() ==> ctx.valid((#[trigger] update.registers@[k]).1)
            && update.registers@[k].0.wf()
    &&& forall|k: int|
        0 <= k < update.writes@.len() ==> ctx.valid((#[trigger] update.writes@[k]).addr)
            && ctx.valid(update.writes@[k].data)
}

impl MachineState {
    /// Whether [`MachineState::prepare_update`] knows what the instruction
    /// does.
    pub fn supports(instruction: &DecodedInstruction) -> (r: bool)
        ensures
            r == executes(*instruction),
    {
        match instruction {
            DecodedInstruction::Addi { .. }
            | DecodedInstruction::B { .. }
            | DecodedInstruction::Bc { .. }
            | DecodedInstruction::Bclr { .. }
            | DecodedInstruction::Cmpli { .. }
            | DecodedInstruction::Lwz { .. }
            | DecodedInstruction::Mfspr { .. }
            | DecodedInstruction::Mtspr { .. }
            | DecodedInstruction::Or { .. }
            | DecodedInstruction::Stw { .. }
            | DecodedInstruction::Stwu { .. } => true,
            _ => false,
        }
    }

    /// Adds what the record form of an instruction does to an update.
    fn record(&self, ctx: &mut Context, result: ExprRef, update: &mut Update)
        requires
            old(ctx).wf(),
            self.wf(old(ctx)),
            old(ctx).valid(result),
            forall|k: int|
                0 <= k < old(update).registers@.len() ==> old(ctx).valid(
                    (#[trigger] old(update).registers@[k]).1,
                ) && old(update).registers@[k].0.wf(),
        ensures
            final(ctx).wf(),
            self.wf(final(ctx)),
            extends(old(ctx).nodes(), final(ctx).nodes()),
            final(ctx).assignments() == old(ctx).assignments(),
            final(ctx).next_number() == old(ctx).next_number(),
            Machine::of(old(ctx), self).recorded(result).0.nodes == final(ctx).nodes(),
            final(update).registers@ == old(update).registers@ + Machine::of(
                old(ctx),
                self,
            ).recorded(result).1,
            final(update).writes@ == old(update).writes@,
            forall|k: int|
                0 <= k < final(update).registers@.len() ==> final(ctx).valid(
                    (#[trigger] final(update).registers@[k]).1,
                ) && final(update).registers@[k].0.wf(),
    {
        let zero = ctx.literal_expr(0);
        let lt_expr = ctx.less_signed_expr(result, zero);
        let gt_expr = ctx.less_signed_expr(zero, result);
        let eq_expr = ctx.equal_expr(result, zero);
        let ghost before = update.registers@;
        update.set_register(cr0lt(), lt_expr);
        update.set_register(cr0gt(), gt_expr);
        update.set_register(cr0eq(), eq_expr);
        proof {
            assert(update.registers@ =~= before + Machine::of(old(ctx), self).recorded(result).1);
            assert forall|k: int| 0 <= k < update.registers@.len() implies ctx.valid(
                (#[trigger] update.registers@[k]).1,
            ) && update.registers@[k].0.wf() by {
                if k < before.len() {
                    assert(update.registers@[k] == before[k]);
                }
            }
        }
    }

    /// The address `offset(base)` of a load or store.
    fn address<T: Into<Register>>(&mut self, ctx: &mut Context, offset: i16, base: T) -> (r:
        ExprRef)
        requires
            T::obeys_into_spec(),
            old(ctx).wf(),
            old(self).wf(old(ctx)),
        ensures
            final(ctx).wf(),
            final(self).wf(final(ctx)),
            final(ctx).valid(r),
            extends(old(ctx).nodes(), final(ctx).nodes()),
            final(ctx).assignments() == old(ctx).assignments(),
            final(ctx).next_number() == old(ctx).next_number(),
            Machine::of(old(ctx), old(self)).address(offset, base.into_spec()) == (
                Machine::of(final(ctx), final(self)),
                r,
            ),
    {
        let offset_expr = ctx.literal_expr(sign_extend(offset));
        let base_expr = self.get_register(ctx, base);
        ctx.add_expr(vec![offset_expr, base_expr])
    }

    /// What `addi` does.
    fn execute_addi(&mut self, ctx: &mut Context, cia: u32, instruction: &DecodedInstruction) -> (update:
        Update)
        requires
            *instruction is Addi,
            old(ctx).wf(),
            old(self).wf(old(ctx)),
        ensures
            prepared(old(ctx), old(self), cia, *instruction, final(ctx), final(self), &update),
    {
        match instruction {
            DecodedInstruction::Addi { dst, src, immediate } => {
                let src_expr = self.get_register(ctx, *src);
                let immediate_expr = ctx.literal_expr(sign_extend(*immediate));
                let add_expr = ctx.add_expr(vec![src_expr, immediate_expr]);
                Update::one_register(*dst, add_expr)
            },
            _ => vstd::pervasive::unreached(),
        }
    }

    /// What a branch that links does: it leaves the volatile registers undefined
    /// and sets `r3` to what the call returns.
    fn execute_call(&mut self, ctx: &mut Context, cia: u32, instruction: &DecodedInstruction) -> (update:
        Update)
        requires
            instruction.branch_descriptor() is Some && instruction.branch_descriptor()->0.link,
            old(ctx).wf(),
            old(self).wf(old(ctx)),
        ensures
            prepared(old(ctx), old(self), cia, *instruction, final(ctx), final(self), &update),
    {
        let mut update = Update::new();
        // Function call. Clear all volatile registers.
        let garbage = ctx.variable_expr(Variable::Garbage);
        update.set_register(r0(), garbage);
        assert(update.registers@ =~= clobbered(1, garbage));
        let mut gpr: u32 = 5;
        while gpr <= 12
            invariant
                5 <= gpr <= 13,
                update.registers@ == clobbered((gpr - 4) as nat, garbage),
                update.writes@ == Seq::<Write>::empty(),
            decreases 13 - gpr,
        {
            update.set_register(Gpr::new(gpr).unwrap(), garbage);
            gpr += 1;
            assert(update.registers@ =~= clobbered((gpr - 4) as nat, garbage));
        }
        update.set_register(Spr::Link, garbage);
        update.set_register(Spr::Count, garbage);
        update.set_register(Spr::IntegerException, garbage);
        assert(update.registers@ =~= clobbered(12, garbage));
        let mut bit: u32 = 0;
        while bit < 8
            invariant
                bit <= 8,
                update.registers@ == clobbered((12 + bit) as nat, garbage),
                update.writes@ == Seq::<Write>::empty(),
            decreases 8 - bit,
        {
            update.set_register(ConditionBit::new(bit).unwrap(), garbage);
            bit += 1;
            assert(update.registers@ =~= clobbered((12 + bit) as nat, garbage));
        }
        let mut bit: u32 = 20;
        while bit < 32
            invariant
                20 <= bit <= 32,
                update.registers@ == clobbered(bit as nat, garbage),
                update.writes@ == Seq::<Write>::empty(),
            decreases 32 - bit,
        {
            update.set_register(ConditionBit::new(bit).unwrap(), garbage);
            bit += 1;
            assert(update.registers@ =~= clobbered(bit as nat, garbage));
        }
        let ghost undefined = update.registers@;
        let return_var = ctx.variable_expr(Variable::Return { call_addr: cia });
        update.set_register(r3(), return_var);
        proof {
            assert forall|k: int| 0 <= k < update.registers@.len() implies ctx.valid(
                (#[trigger] update.registers@[k]).1,
            ) && update.registers@[k].0.wf() by {
                if k < undefined.len() {
                    assert(update.registers@[k] == undefined[k]);
                }
            }
        }
        update
    }

    /// What `cmplwi` does.
    fn execute_compare(&mut self, ctx: &mut Context, cia: u32, instruction: &DecodedInstruction) -> (update:
        Update)
        requires
            *instruction is Cmpli,
            old(ctx).wf(),
            old(self).wf(old(ctx)),
        ensures
            prepared(old(ctx), old(self), cia, *instruction, final(ctx), final(self), &update),
    {
        match instruction {
            DecodedInstruction::Cmpli { crf, src, immediate } => {
                let lhs_expr = self.get_register(ctx, *src);
                let rhs_expr = ctx.literal_expr(*immediate as u32);
                let lt_expr = ctx.less_unsigned_expr(lhs_expr, rhs_expr);
                let gt_expr = ctx.less_unsigned_expr(rhs_expr, lhs_expr);
                let eq_expr = ctx.equal_expr(lhs_expr, rhs_expr);
                let mut update = Update::new();
                update.set_register(
                    ConditionBit::from_crf_and_condition(*crf, Condition::Less),
                    lt_expr,
                );
                update.set_register(
                    ConditionBit::from_crf_and_condition(*crf, Condition::Greater),
                    gt_expr,
                );
                update.set_register(
                    ConditionBit::from_crf_and_condition(*crf, Condition::Equal),
                    eq_expr,
                );
                update
            },
            _ => vstd::pervasive::unreached(),
        }
    }

    /// What `lwz` does.
    fn execute_lwz(&mut self, ctx: &mut Context, cia: u32, instruction: &DecodedInstruction) -> (update:
        Update)
        requires
            *instruction is Lwz,
            old(ctx).wf(),
            old(self).wf(old(ctx)),
        ensures
            prepared(old(ctx), old(self), cia, *instruction, final(ctx), final(self), &update),
    {
        match instruction {
            DecodedInstruction::Lwz { dst, offset, base } => {
                let addr_expr = self.address(ctx, *offset, *base);
                // The read gets a variable of its own, so that reads can be
                // kept in order later.
                let read_variable = ctx.next_numbered_variable_expr();
                let ghost held = ctx.node(read_variable);
                let data_expr = ctx.read_expr(addr_expr);
                assert(ctx.node(read_variable) == held);
                ctx.assign_variable(read_variable, data_expr);
                Update::one_register(*dst, read_variable)
            },
            _ => vstd::pervasive::unreached(),
        }
    }

    /// What `mfspr` and `mtspr` do.
    fn execute_move(&mut self, ctx: &mut Context, cia: u32, instruction: &DecodedInstruction) -> (update:
        Update)
        requires
            *instruction is Mfspr || *instruction is Mtspr,
            old(ctx).wf(),
            old(self).wf(old(ctx)),
        ensures
            prepared(old(ctx), old(self), cia, *instruction, final(ctx), final(self), &update),
    {
        match instruction {
            DecodedInstruction::Mfspr { spr, dst } => {
                let value = self.get_register(ctx, *spr);
                Update::one_register(*dst, value)
            },
            DecodedInstruction::Mtspr { spr, src } => {
                let value = self.get_register(ctx, *src);
                Update::one_register(*spr, value)
            },
            _ => vstd::pervasive::unreached(),
        }
    }

    /// What `or` does in its plain form.
    fn execute_or(&mut self, ctx: &mut Context, cia: u32, instruction: &DecodedInstruction) -> (update:
        Update)
        requires
            *instruction is Or && !instruction->Or_record,
            old(ctx).wf(),
            old(self).wf(old(ctx)),
        ensures
            prepared(old(ctx), old(self), cia, *instruction, final(ctx), final(self), &update),
    {
        match instruction {
            DecodedInstruction::Or { dst, srcs, record } => {
                let src0_expr = self.get_register(ctx, srcs[0]);
                let src1_expr = self.get_register(ctx, srcs[1]);
                let bit_or_expr = ctx.bit_or_expr(vec![src0_expr, src1_expr]);
                Update::one_register(*dst, bit_or_expr)
            },
            _ => vstd::pervasive::unreached(),
        }
    }

    /// What `or.` does: the record form of `or`.
    fn execute_or_record(&mut self, ctx: &mut Context, cia: u32, instruction: &DecodedInstruction) -> (update:
        Update)
        requires
            *instruction is Or && instruction->Or_record,
            old(ctx).wf(),
            old(self).wf(old(ctx)),
        ensures
            prepared(old(ctx), old(self), cia, *instruction, final(ctx), final(self), &update),
    {
        match instruction {
            DecodedInstruction::Or { dst, srcs, record } => {
                let src0_expr = self.get_register(ctx, srcs[0]);
                let src1_expr = self.get_register(ctx, srcs[1]);
                let bit_or_expr = ctx.bit_or_expr(vec![src0_expr, src1_expr]);
                let mut update = Update::new();
                update.set_register(*dst, bit_or_expr);
                self.record(ctx, bit_or_expr, &mut update);
                update
            },
            _ => vstd::pervasive::unreached(),
        }
    }

    /// What `stw` does.
    fn execute_stw(&mut self, ctx: &mut Context, cia: u32, instruction: &DecodedInstruction) -> (update:
        Update)
        requires
            *instruction is Stw,
            old(ctx).wf(),
            old(self).wf(old(ctx)),
        ensures
            prepared(old(ctx), old(self), cia, *instruction, final(ctx), final(self), &update),
    {
        match instruction {
            DecodedInstruction::Stw { src, offset, base } => {
                let addr_expr = self.address(ctx, *offset, *base);
                let data_expr = self.get_register(ctx, *src);
                Update::one_write(AccessWidth::Word, addr_expr, data_expr)
            },
            _ => vstd::pervasive::unreached(),
        }
    }

    /// What `stwu` does.
    fn execute_stwu(&mut self, ctx: &mut Context, cia: u32, instruction: &DecodedInstruction) -> (update:
        Update)
        requires
            *instruction is Stwu,
            old(ctx).wf(),
            old(self).wf(old(ctx)),
        ensures
            prepared(old(ctx), old(self), cia, *instruction, final(ctx), final(self), &update),
    {
        match instruction {
            DecodedInstruction::Stwu { src, offset, base } => {
                let addr_expr = self.address(ctx, *offset, *base);
                let data_expr = self.get_register(ctx, *src);
                let mut update = Update::new();
                update.set_register(*base, addr_expr);
                update.add_write(AccessWidth::Word, addr_expr, data_expr);
                update
            },
            _ => vstd::pervasive::unreached(),
        }
    }

    /// The update that says what the instruction at `cia` does.
    pub fn prepare_update(&mut self, ctx: &mut Context, cia: u32, instruction: &DecodedInstruction) -> (update:
        Update)
        requires
            executes(*instruction),
            old(ctx).wf(),
            old(self).wf(old(ctx)),
        ensures
            prepared(old(ctx), old(self), cia, *instruction, final(ctx), final(self), &update),
    {
        match instruction {
            DecodedInstruction::Addi { .. } => self.execute_addi(ctx, cia, instruction),
            DecodedInstruction::B { .. }
            | DecodedInstruction::Bc { .. }
            | DecodedInstruction::Bclr { .. } => {
                let branch_info = instruction.branch_info().unwrap();
                if branch_info.link {
                    self.execute_call(ctx, cia, instruction)
                } else {
                    // Ignore local branches for now. These end basic blocks and should emit block
                    // linkage conditions.
                    Update::new()
                }
            },
            DecodedInstruction::Cmpli { .. } => self.execute_compare(ctx, cia, instruction),
            DecodedInstruction::Lwz { .. } => self.execute_lwz(ctx, cia, instruction),
            DecodedInstruction::Mfspr { .. } | DecodedInstruction::Mtspr { .. } => {
                self.execute_move(ctx, cia, instruction)
            },
            DecodedInstruction::Or { record, .. } => {
                if *record {
                    self.execute_or_record(ctx, cia, instruction)
                } else {
                    self.execute_or(ctx, cia, instruction)
                }
            },
            DecodedInstruction::Stw { .. } => self.execute_stw(ctx, cia, instruction),
            DecodedInstruction::Stwu { .. } => self.execute_stwu(ctx, cia, instruction),
            _ => vstd::pervasive::unreached(),
        }
    }
}

/// The table, the registers and the reference that reading a register
/// gives: the literal 0 for the literal zero, the value that the register
/// was set to last, or else the variable for the value of the register on
/// entering the block.
pub open spec fn register_value(
    nodes: Seq<Node<Name>>,
    values: Map<u32, ExprRef>,
    block: u32,
    register: Register,
) -> (Seq<Node<Name>>, ExprRef) {
    if register is Zero {
        interned(nodes, Node::<Name>::Literal(0))
    } else if values.contains_key(register.code()) {
        (nodes, values[register.code()])
    } else {
        interned(
            nodes,
            Node::Variable(
                NumberedVariable::Named(
                    Variable::RegisterEntering { basic_block_addr: block, register },
                ),
            ),
        )
    }
}

} // verus!
