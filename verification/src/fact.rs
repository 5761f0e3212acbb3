//! What the analysis notes down about an address.

use vstd::prelude::*;

use crate::fact::basic_block::BasicBlockFact;
use crate::fact::basic_block_end::BasicBlockEndFact;
use crate::fact::branch_target::BranchTargetFact;
use crate::fact::parse_error::ParseErrorFact;
use crate::fact::subroutine::SubroutineFact;
use crate::fact::subroutine_call::SubroutineCallFact;
use crate::powerpc::instruction::encoded_instruction::ParseError;
use crate::powerpc_symbolic::Write;

pub mod basic_block;
pub mod basic_block_end;
pub mod branch_target;
pub mod parse_error;
pub mod subroutine;
pub mod subroutine_call;

verus! {

/// The kinds of fact.
#[derive(Clone, Copy, Debug, PartialEq, Eq, Hash, Structural)]
pub enum FactKind {
    BranchTarget,
    Subroutine,
    SubroutineCall,
    BasicBlockEnd,
    ParseError,
    BasicBlock,
}

/// How many kinds of fact there are.
pub const KINDS: usize = 6;

impl FactKind {
    /// The position of the kind in the declaration above.
    pub open spec fn ordinal(self) -> usize {
        match self {
            FactKind::BranchTarget => 0,
            FactKind::Subroutine => 1,
            FactKind::SubroutineCall => 2,
            FactKind::BasicBlockEnd => 3,
            FactKind::ParseError => 4,
            FactKind::BasicBlock => 5,
        }
    }

    /// The kind at a position; the inverse of [`FactKind::ordinal`].
    pub open spec fn of_ordinal(ordinal: usize) -> FactKind {
        if ordinal == 0 {
            FactKind::BranchTarget
        } else if ordinal == 1 {
            FactKind::Subroutine
        } else if ordinal == 2 {
            FactKind::SubroutineCall
        } else if ordinal == 3 {
            FactKind::BasicBlockEnd
        } else if ordinal == 4 {
            FactKind::ParseError
        } else {
            FactKind::BasicBlock
        }
    }

    /// Computes [`FactKind::ordinal`].
    pub fn to_ordinal(self) -> (r: usize)
        ensures
            r == self.ordinal(),
            r < KINDS,
            FactKind::of_ordinal(r) == self,
    {
        match self {
            FactKind::BranchTarget => 0,
            FactKind::Subroutine => 1,
            FactKind::SubroutineCall => 2,
            FactKind::BasicBlockEnd => 3,
            FactKind::ParseError => 4,
            FactKind::BasicBlock => 5,
        }
    }
}

/// The facts about one address: at most one of each kind.
pub struct FactsAt {
    pub branch_target: Option<BranchTargetFact>,
    pub subroutine: Option<SubroutineFact>,
    pub subroutine_call: Option<SubroutineCallFact>,
    pub basic_block_end: Option<BasicBlockEndFact>,
    pub parse_error: Option<ParseErrorFact>,
    pub basic_block: Option<BasicBlockFact>,
}

/// A basic block as a value.
#[verifier::ext_equal]
pub ghost struct BlockView {
    /// The address behind the last instruction of the block.
    pub end: u32,
    /// The blocks from which control comes here, in ascending order.
    pub predecessors: Seq<u32>,
    /// The blocks to which control goes on, in ascending order.
    pub successors: Seq<u32>,
    /// The memory writes of the block, in the order of its instructions.
    pub writes: Seq<Write>,
}

/// The facts about one address as values.
#[verifier::ext_equal]
pub ghost struct FactsView {
    /// The addresses of the branches that go here, if there are any.
    pub branch_target: Option<Set<u32>>,
    /// Whether the address is called as a subroutine.
    pub subroutine: bool,
    /// The subroutine that the instruction here calls, if it is a call.
    pub subroutine_call: Option<u32>,
    /// Where control goes on after the instruction here, if it ends a
    /// basic block.
    pub basic_block_end: Option<Set<u32>>,
    /// Why the word here is no instruction, if it is none.
    pub parse_error: Option<ParseError>,
    /// The basic block that starts here, if one does.
    pub basic_block: Option<BlockView>,
}

impl FactsView {
    /// No fact of any kind.
    pub open spec fn nothing() -> FactsView {
        FactsView {
            branch_target: None,
            subroutine: false,
            subroutine_call: None,
            basic_block_end: None,
            parse_error: None,
            basic_block: None,
        }
    }
}

impl View for FactsAt {
    type V = FactsView;

    open spec fn view(&self) -> FactsView {
        FactsView {
            branch_target: match self.branch_target {
                Some(fact) => Some(fact.sources()),
                None => None,
            },
            subroutine: self.subroutine is Some,
            subroutine_call: match self.subroutine_call {
                Some(fact) => Some(fact.callee()),
                None => None,
            },
            basic_block_end: match self.basic_block_end {
                Some(fact) => Some(fact.targets()),
                None => None,
            },
            parse_error: match self.parse_error {
                Some(fact) => Some(fact.error()),
                None => None,
            },
            basic_block: match self.basic_block {
                Some(fact) => Some(fact@),
                None => None,
            },
        }
    }
}

impl FactsAt {
    /// No fact of any kind.
    pub open spec fn nothing() -> FactsAt {
        FactsAt {
            branch_target: None,
            subroutine: None,
            subroutine_call: None,
            basic_block_end: None,
            parse_error: None,
            basic_block: None,
        }
    }

    /// Whether there is a fact of the given kind.
    pub open spec fn has(self, kind: FactKind) -> bool {
        match kind {
            FactKind::BranchTarget => self.branch_target is Some,
            FactKind::Subroutine => self.subroutine is Some,
            FactKind::SubroutineCall => self.subroutine_call is Some,
            FactKind::BasicBlockEnd => self.basic_block_end is Some,
            FactKind::ParseError => self.parse_error is Some,
            FactKind::BasicBlock => self.basic_block is Some,
        }
    }

    pub fn new() -> (r: FactsAt)
        ensures
            r == FactsAt::nothing(),
    {
        FactsAt {
            branch_target: None,
            subroutine: None,
            subroutine_call: None,
            basic_block_end: None,
            parse_error: None,
            basic_block: None,
        }
    }
}

/// A kind of fact: a type of which [`FactsAt`] has one slot.
pub trait Fact: Sized {
    /// The kind of the facts of this type.
    spec fn kind() -> FactKind;

    /// The slot of this type.
    spec fn slot(facts: FactsAt) -> Option<Self>;

    /// The same facts but for the slot of this type, which holds `value`.
    spec fn with_slot(facts: FactsAt, value: Option<Self>) -> FactsAt;

    /// The slot is that of the kind, and writing it changes no other.
    proof fn lemma_slot(facts: FactsAt, value: Option<Self>)
        ensures
            Self::slot(Self::with_slot(facts, value)) == value,
            Self::with_slot(facts, Self::slot(facts)) == facts,
            facts.has(Self::kind()) == (Self::slot(facts) is Some),
            forall|kind: FactKind|
                kind != Self::kind() ==> #[trigger] Self::with_slot(facts, value).has(kind)
                    == facts.has(kind),
    ;

    /// Computes [`Fact::kind`].
    fn kind_of() -> (r: FactKind)
        ensures
            r == Self::kind(),
    ;

    /// The slot of this type, to read.
    fn get(facts: &FactsAt) -> (r: &Option<Self>)
        ensures
            *r == Self::slot(*facts),
    ;

    /// The slot of this type, to write.
    fn get_mut(facts: &mut FactsAt) -> (r: &mut Option<Self>)
        ensures
            *r == Self::slot(*old(facts)),
            *final(facts) == Self::with_slot(*old(facts), *final(r)),
    ;
}

/// A kind of fact that can be made from nothing, to be filled in later.
pub trait DefaultFact: Fact {
    /// Whether the fact says nothing yet.
    spec fn is_blank(&self) -> bool;

    /// Makes the fact that says nothing yet.
    fn blank() -> (r: Self)
        ensures
            r.is_blank(),
    ;
}

/// A kind of fact that is made from arguments of its own.
pub trait ConstructibleFact: Fact {
    type Args;

    fn new(args: Self::Args) -> Self;
}

} // verus!
