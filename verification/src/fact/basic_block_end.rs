use std::collections::BTreeSet;
use vstd::prelude::*;

use crate::address_set::ascending;
use crate::address_set::ascending_items;
use crate::address_set::insert_address;
use crate::fact::DefaultFact;
use crate::fact::Fact;
use crate::fact::FactKind;
use crate::fact::FactsAt;

verus! {

/// The instruction at this address ends a basic block: control goes on at
/// one of the successors, or returns if there is none.
#[derive(Debug)]
pub struct BasicBlockEndFact {
    successors: BTreeSet<u32>,
}

impl BasicBlockEndFact {
    /// The addresses at which control may go on.
    pub closed spec fn targets(&self) -> Set<u32> {
        self.successors@
    }

    pub fn record_successor(&mut self, successor: u32)
        ensures
            final(self).targets() == old(self).targets().insert(successor),
    {
        insert_address(&mut self.successors, successor);
    }

    /// The addresses at which control may go on, in ascending order.
    pub fn successors(&self) -> (r: Vec<u32>)
        ensures
            ascending(r@),
            r@.to_set() == self.targets(),
    {
        ascending_items(&self.successors)
    }
}

impl Fact for BasicBlockEndFact {
    open spec fn kind() -> FactKind {
        FactKind::BasicBlockEnd
    }

    open spec fn slot(facts: FactsAt) -> Option<Self> {
        facts.basic_block_end
    }

    open spec fn with_slot(facts: FactsAt, value: Option<Self>) -> FactsAt {
        FactsAt {
            branch_target: facts.branch_target,
            subroutine: facts.subroutine,
            subroutine_call: facts.subroutine_call,
            basic_block_end: value,
            parse_error: facts.parse_error,
            basic_block: facts.basic_block,
        }
    }

    proof fn lemma_slot(facts: FactsAt, value: Option<Self>) {
    }

    fn kind_of() -> (r: FactKind) {
        FactKind::BasicBlockEnd
    }

    fn get(facts: &FactsAt) -> (r: &Option<Self>) {
        &facts.basic_block_end
    }

    fn get_mut(facts: &mut FactsAt) -> (r: &mut Option<Self>) {
        &mut facts.basic_block_end
    }
}

impl Default for BasicBlockEndFact {
    /// The fact without a successor.
    fn default() -> (r: Self)
        ensures
            r.targets() == Set::<u32>::empty(),
    {
        Self { successors: BTreeSet::new() }
    }
}

impl DefaultFact for BasicBlockEndFact {
    open spec fn is_blank(&self) -> bool {
        self.targets() == Set::<u32>::empty()
    }

    fn blank() -> (r: Self) {
        Self { successors: BTreeSet::new() }
    }
}

} // verus!
