use vstd::prelude::*;
use vstd::string::*;

use crate::fact::Fact;
use crate::fact::FactKind;
use crate::fact::FactsAt;

verus! {

/// This address is called as a subroutine. It might be a good candidate for a C function.
#[derive(Clone, Copy, Debug, PartialEq, Eq, Structural)]
pub struct SubroutineFact;

impl SubroutineFact {
    /// The fact as an annotation of a listing.
    pub open spec fn text(&self) -> Seq<char> {
        "#[subroutine]"@
    }

    pub fn to_string(&self) -> (r: String)
        ensures
            r@ == self.text(),
    {
        String::from_str("#[subroutine]")
    }
}

impl Fact for SubroutineFact {
    open spec fn kind() -> FactKind {
        FactKind::Subroutine
    }

    open spec fn slot(facts: FactsAt) -> Option<Self> {
        facts.subroutine
    }

    open spec fn with_slot(facts: FactsAt, value: Option<Self>) -> FactsAt {
        FactsAt {
            branch_target: facts.branch_target,
            subroutine: value,
            subroutine_call: facts.subroutine_call,
            basic_block_end: facts.basic_block_end,
            parse_error: facts.parse_error,
            basic_block: facts.basic_block,
        }
    }

    proof fn lemma_slot(facts: FactsAt, value: Option<Self>) {
    }

    fn kind_of() -> (r: FactKind) {
        FactKind::Subroutine
    }

    fn get(facts: &FactsAt) -> (r: &Option<Self>) {
        &facts.subroutine
    }

    fn get_mut(facts: &mut FactsAt) -> (r: &mut Option<Self>) {
        &mut facts.subroutine
    }
}

impl Default for SubroutineFact {
    fn default() -> (r: Self)
        ensures
            r == SubroutineFact,
    {
        SubroutineFact
    }
}

} // verus!
