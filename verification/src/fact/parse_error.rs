use vstd::prelude::*;

use crate::fact::Fact;
use crate::fact::FactKind;
use crate::fact::FactsAt;
use crate::powerpc::instruction::encoded_instruction::ParseError;

verus! {

/// The word at this address is no instruction that the decoder knows.
#[derive(Clone, Copy, Debug, PartialEq, Eq, Structural)]
pub struct ParseErrorFact(ParseError);

impl ParseErrorFact {
    /// Why the word could not be decoded.
    pub closed spec fn error(&self) -> ParseError {
        self.0
    }

    pub fn new(err: ParseError) -> (r: Self)
        ensures
            r.error() == err,
    {
        Self(err)
    }

    pub fn parse_error(&self) -> (r: &ParseError)
        ensures
            *r == self.error(),
    {
        &self.0
    }
}

impl Fact for ParseErrorFact {
    open spec fn kind() -> FactKind {
        FactKind::ParseError
    }

    open spec fn slot(facts: FactsAt) -> Option<Self> {
        facts.parse_error
    }

    open spec fn with_slot(facts: FactsAt, value: Option<Self>) -> FactsAt {
        FactsAt {
            branch_target: facts.branch_target,
            subroutine: facts.subroutine,
            subroutine_call: facts.subroutine_call,
            basic_block_end: facts.basic_block_end,
            parse_error: value,
            basic_block: facts.basic_block,
        }
    }

    proof fn lemma_slot(facts: FactsAt, value: Option<Self>) {
    }

    fn kind_of() -> (r: FactKind) {
        FactKind::ParseError
    }

    fn get(facts: &FactsAt) -> (r: &Option<Self>) {
        &facts.parse_error
    }

    fn get_mut(facts: &mut FactsAt) -> (r: &mut Option<Self>) {
        &mut facts.parse_error
    }
}

} // verus!
