use std::collections::BTreeSet;
use vstd::prelude::*;

use crate::address_set::ascending;
use crate::address_set::ascending_items;
use crate::address_set::insert_address;
use crate::fact::basic_block_end::BasicBlockEndFact;
use crate::fact::BlockView;
use crate::fact::branch_target::BranchTargetFact;
use crate::fact::Fact;
use crate::fact::FactKind;
use crate::fact::FactsAt;
use crate::fact::FactsView;
use crate::fact_database::FactDatabase;
use crate::powerpc_symbolic::Write;

verus! {

/// A basic block starts at this address.
#[derive(Debug)]
pub struct BasicBlockFact {
    end_addr: u32,
    predecessors: Vec<u32>,
    successors: Vec<u32>,
    writes: Vec<Write>,
}

impl View for BasicBlockFact {
    type V = BlockView;

    open spec fn view(&self) -> BlockView {
        BlockView {
            end: self.end(),
            predecessors: self.preds(),
            successors: self.succs(),
            writes: self.written(),
        }
    }
}

impl BasicBlockFact {
    /// The address behind the last instruction of the block.
    pub closed spec fn end(&self) -> u32 {
        self.end_addr
    }

    /// The blocks from which control comes here, in ascending order.
    pub closed spec fn preds(&self) -> Seq<u32> {
        self.predecessors@
    }

    /// The blocks to which control goes on, in ascending order.
    pub closed spec fn succs(&self) -> Seq<u32> {
        self.successors@
    }

    /// The memory writes of the block, in the order of its instructions.
    pub closed spec fn written(&self) -> Seq<Write> {
        self.writes@
    }

    /// Predecessors and successors are in ascending order.
    pub open spec fn wf(&self) -> bool {
        &&& ascending(self.preds())
        &&& ascending(self.succs())
    }

    pub fn end_addr(&self) -> (r: u32)
        ensures
            r == self.end(),
    {
        self.end_addr
    }

    pub fn predecessors(&self) -> (r: &[u32])
        ensures
            r@ == self.preds(),
    {
        self.predecessors.as_slice()
    }

    pub fn successors(&self) -> (r: &[u32])
        ensures
            r@ == self.succs(),
    {
        self.successors.as_slice()
    }

    pub fn writes(&self) -> (r: &[Write])
        ensures
            r@ == self.written(),
    {
        self.writes.as_slice()
    }

    /// Records the writes of further instructions of the block.
    pub fn record_writes(&mut self, writes: Vec<Write>)
        ensures
            final(self).written() == old(self).written() + writes@,
            final(self).end() == old(self).end(),
            final(self).preds() == old(self).preds(),
            final(self).succs() == old(self).succs(),
    {
        let mut writes = writes;
        self.writes.append(&mut writes);
    }

    pub fn record_write(&mut self, write: Write)
        ensures
            final(self).written() == old(self).written().push(write),
            final(self).end() == old(self).end(),
            final(self).preds() == old(self).preds(),
            final(self).succs() == old(self).succs(),
    {
        self.writes.push(write);
    }
}

impl Fact for BasicBlockFact {
    open spec fn kind() -> FactKind {
        FactKind::BasicBlock
    }

    open spec fn slot(facts: FactsAt) -> Option<Self> {
        facts.basic_block
    }

    open spec fn with_slot(facts: FactsAt, value: Option<Self>) -> FactsAt {
        FactsAt {
            branch_target: facts.branch_target,
            subroutine: facts.subroutine,
            subroutine_call: facts.subroutine_call,
            basic_block_end: facts.basic_block_end,
            parse_error: facts.parse_error,
            basic_block: value,
        }
    }

    proof fn lemma_slot(facts: FactsAt, value: Option<Self>) {
    }

    fn kind_of() -> (r: FactKind) {
        FactKind::BasicBlock
    }

    fn get(facts: &FactsAt) -> (r: &Option<Self>) {
        &facts.basic_block
    }

    fn get_mut(facts: &mut FactsAt) -> (r: &mut Option<Self>) {
        &mut facts.basic_block
    }
}

/// The facts about an address in a database, which may be none.
pub open spec fn facts_about(db: Map<u32, FactsView>, addr: u32) -> FactsView {
    if db.contains_key(addr) {
        db[addr]
    } else {
        FactsView::nothing()
    }
}

/// Whether a basic block ends with the instruction at `addr`: the end of a
/// basic block is noted there, or the next address is a branch target.
pub open spec fn ends_block(db: Map<u32, FactsView>, addr: u32) -> bool {
    facts_about(db, addr).basic_block_end is Some || facts_about(
        db,
        (addr + 4) as u32,
    ).branch_target is Some
}

/// The address of the last instruction of the basic block that starts at
/// `addr`: the first address from there on, in steps of one instruction,
/// with which a basic block ends. There is none if no such address is found
/// before the 32-bit address space ends.
pub open spec fn block_last(db: Map<u32, FactsView>, addr: u32) -> Option<u32>
    decreases u32::MAX - addr,
{
    if addr > u32::MAX - 4 {
        None
    } else if ends_block(db, addr) {
        Some(addr)
    } else {
        block_last(db, (addr + 4) as u32)
    }
}

/// Where control goes on after the basic block whose last instruction is at
/// `last`: to the successors that are noted there, or else to the next
/// instruction.
pub open spec fn block_successors(db: Map<u32, FactsView>, last: u32) -> Set<u32> {
    match facts_about(db, last).basic_block_end {
        Some(successors) => successors,
        None => set![(last + 4) as u32],
    }
}

/// The extent of a basic block: its end lies behind its start, a whole
/// number of instructions away, and no instruction of the block but the last
/// ends a basic block.
pub proof fn lemma_block_extent(db: Map<u32, FactsView>, start: u32)
    requires
        block_last(db, start) is Some,
    ensures
        ({
            let last = block_last(db, start)->0;
            let end = last + 4;
            &&& end > start
            &&& end <= u32::MAX
            &&& (end - start) % 4 == 0
            &&& ends_block(db, last)
            &&& forall|addr: u32|
                start <= addr < last && (addr - start) % 4 == 0 ==> !#[trigger] ends_block(
                    db,
                    addr,
                )
        }),
    decreases u32::MAX - start,
{
    if !ends_block(db, start) {
        let next = (start + 4) as u32;
        lemma_block_extent(db, next);
        let last = block_last(db, start)->0;
        assert forall|addr: u32| start <= addr < last && (addr - start) % 4 == 0 implies !#[trigger] ends_block(
            db,
            addr,
        ) by {
            if addr != start {
                assert((addr - next) % 4 == 0);
            }
        }
    }
}

/// A basic block of which the predecessors are still being collected.
#[derive(Debug)]
pub struct BasicBlockFactBuilder {
    end_addr: u32,
    predecessors: BTreeSet<u32>,
    successors: Vec<u32>,
}

impl BasicBlockFactBuilder {
    /// The address behind the last instruction of the block.
    pub closed spec fn end(&self) -> u32 {
        self.end_addr
    }

    /// The blocks from which control comes here, as far as they are known.
    pub closed spec fn preds(&self) -> Set<u32> {
        self.predecessors@
    }

    /// The blocks to which control goes on, in ascending order.
    pub closed spec fn succs(&self) -> Seq<u32> {
        self.successors@
    }

    /// Scans a basic block, relying on previously inserted [`BasicBlockEndFact`]s and
    /// [`BranchTargetFact`]s.
    pub fn new(db: &FactDatabase, next_addr: u32) -> (r: Self)
        requires
            block_last(db@, next_addr) is Some,
        ensures
            r.end() == block_last(db@, next_addr)->0 + 4,
            ascending(r.succs()),
            r.succs().to_set() == block_successors(db@, block_last(db@, next_addr)->0),
            r.preds() == Set::<u32>::empty(),
    {
        BasicBlockFactBuilder::try_new(db, next_addr).unwrap()
    }

    /// Scans a basic block as [`new`](BasicBlockFactBuilder::new) does.
    /// Gives nothing if the block has no end in the 32-bit address space.
    pub fn try_new(db: &FactDatabase, next_addr: u32) -> (r: Option<Self>)
        ensures
            match block_last(db@, next_addr) {
                Some(last) => {
                    &&& r is Some
                    &&& r->0.end() == last + 4
                    &&& ascending(r->0.succs())
                    &&& r->0.succs().to_set() == block_successors(db@, last)
                    &&& r->0.preds() == Set::<u32>::empty()
                },
                None => r is None,
            },
    {
        let mut addr = next_addr;
        loop
            invariant
                block_last(db@, next_addr) == block_last(db@, addr),
            decreases u32::MAX - addr,
        {
            if addr > u32::MAX - 4 {
                return None;
            }
            let next = addr + 4;
            // End the basic block where a relevant branch was noted.
            if let Some(end_fact) = db.get_fact::<BasicBlockEndFact>(addr) {
                // Record the outgoing edges.
                let successors = end_fact.successors();
                return Some(Self { end_addr: next, predecessors: BTreeSet::new(), successors });
            }
            // End the basic block if the next instruction is a branch target, and thus the start of
            // its own basic block.

            if db.get_fact::<BranchTargetFact>(next).is_some() {
                let mut successors: Vec<u32> = Vec::new();
                successors.push(next);
                proof {
                    let empty = Seq::<u32>::empty();
                    empty.lemma_push_to_set_commute(next);
                    assert(empty.to_set() =~= Set::<u32>::empty());
                    assert(successors@ =~= empty.push(next));
                    assert(Set::<u32>::empty().insert(next) =~= set![next]);
                }
                return Some(Self { end_addr: next, predecessors: BTreeSet::new(), successors });
            }
            addr = next;
        }
    }

    pub fn insert_predecessor(&mut self, predecessor: u32)
        ensures
            final(self).preds() == old(self).preds().insert(predecessor),
            final(self).end() == old(self).end(),
            final(self).succs() == old(self).succs(),
    {
        insert_address(&mut self.predecessors, predecessor);
    }

    pub fn successors(&self) -> (r: &[u32])
        ensures
            r@ == self.succs(),
    {
        self.successors.as_slice()
    }

    /// The block, with the predecessors in ascending order and no writes.
    pub fn build(self) -> (r: BasicBlockFact)
        ensures
            r.end() == self.end(),
            r.succs() == self.succs(),
            ascending(r.preds()),
            r.preds().to_set() == self.preds(),
            r.written() == Seq::<Write>::empty(),
    {
        let predecessors = ascending_items(&self.predecessors);
        BasicBlockFact {
            end_addr: self.end_addr,
            predecessors,
            successors: self.successors,
            writes: Vec::new(),
        }
    }
}

} // verus!
