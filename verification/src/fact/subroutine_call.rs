use vstd::prelude::*;

use crate::fact::Fact;
use crate::fact::FactKind;
use crate::fact::FactsAt;

verus! {

/// The instruction at this address calls the subroutine at a known address.
#[derive(Clone, Copy, Debug, PartialEq, Eq, Structural)]
pub struct SubroutineCallFact {
    target: u32,
}

impl SubroutineCallFact {
    /// The address of the subroutine that is called.
    pub closed spec fn callee(&self) -> u32 {
        self.target
    }

    pub fn new(target: u32) -> (r: Self)
        ensures
            r.callee() == target,
    {
        Self { target }
    }

    /// The address of the subroutine that is called.
    pub fn target(&self) -> (r: u32)
        ensures
            r == self.callee(),
    {
        self.target
    }
}

impl Fact for SubroutineCallFact {
    open spec fn kind() -> FactKind {
        FactKind::SubroutineCall
    }

    open spec fn slot(facts: FactsAt) -> Option<Self> {
        facts.subroutine_call
    }

    open spec fn with_slot(facts: FactsAt, value: Option<Self>) -> FactsAt {
        FactsAt {
            branch_target: facts.branch_target,
            subroutine: facts.subroutine,
            subroutine_call: value,
            basic_block_end: facts.basic_block_end,
            parse_error: facts.parse_error,
            basic_block: facts.basic_block,
        }
    }

    proof fn lemma_slot(facts: FactsAt, value: Option<Self>) {
    }

    fn kind_of() -> (r: FactKind) {
        FactKind::SubroutineCall
    }

    fn get(facts: &FactsAt) -> (r: &Option<Self>) {
        &facts.subroutine_call
    }

    fn get_mut(facts: &mut FactsAt) -> (r: &mut Option<Self>) {
        &mut facts.subroutine_call
    }
}

impl Default for SubroutineCallFact {
    /// A call of the subroutine at address zero.
    fn default() -> (r: Self)
        ensures
            r.callee() == 0,
    {
        Self { target: 0 }
    }
}

} // verus!
