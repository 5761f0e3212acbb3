use std::collections::BTreeSet;
use vstd::prelude::*;
use vstd::string::*;

use crate::address_set::ascending;
use crate::address_set::ascending_items;
use crate::address_set::insert_address;
use crate::fact::DefaultFact;
use crate::fact::Fact;
use crate::fact::FactKind;
use crate::fact::FactsAt;
use crate::text::address_text;
use crate::text::push_address;

verus! {

/// A list of addresses as text: each as `0x` and eight digits, with `, `
/// between them.
pub open spec fn listed(addrs: Seq<u32>) -> Seq<char>
    decreases addrs.len(),
{
    if addrs.len() == 0 {
        Seq::empty()
    } else {
        listed(addrs.drop_last()) + (if addrs.len() > 1 {
            ", "@
        } else {
            Seq::empty()
        }) + address_text(addrs.last())
    }
}

/// This address is the target of one or more branch instructions.
///
/// Note that the instruction immediately following a branch instruction is considered a branch
/// target.
#[derive(Debug)]
pub struct BranchTargetFact {
    sources: BTreeSet<u32>,
}

impl BranchTargetFact {
    /// The addresses of the branches that go here.
    pub closed spec fn sources(&self) -> Set<u32> {
        self.sources@
    }

    pub fn record_source(&mut self, source: u32)
        ensures
            final(self).sources() == old(self).sources().insert(source),
    {
        insert_address(&mut self.sources, source);
    }

    /// The fact as an annotation of a listing, for sources in the given
    /// order.
    pub open spec fn text(sources: Seq<u32>) -> Seq<char> {
        "#[branch_target(sources = ["@ + listed(sources) + "])]"@
    }

    /// The fact as an annotation of a listing, with its sources in
    /// ascending order.
    pub fn to_string(&self) -> (r: String)
        ensures
            exists|sources: Seq<u32>|
                ascending(sources) && sources.to_set() == self.sources() && r@
                    == #[trigger] BranchTargetFact::text(sources),
    {
        let sources = self.iter_sources();
        let mut out = String::from_str("#[branch_target(sources = [");
        let mut list = String::new();
        let mut i: usize = 0;
        while i < sources.len()
            invariant
                i <= sources.len(),
                list@ == listed(sources@.take(i as int)),
            decreases sources.len() - i,
        {
            proof {
                assert(sources@.take(i + 1).drop_last() =~= sources@.take(i as int));
                assert(sources@.take(i + 1).last() == sources@[i as int]);
            }
            let ghost before = list@;
            if i > 0 {
                list.append(", ");
            } else {
                proof {
                    assert(before + Seq::<char>::empty() =~= before);
                }
            }
            push_address(&mut list, sources[i]);
            i += 1;
        }
        proof {
            assert(sources@.take(sources@.len() as int) =~= sources@);
        }
        out.append(list.as_str());
        out.append("])]");
        proof {
            assert(out@ == BranchTargetFact::text(sources@));
        }
        out
    }

    /// The addresses of the branches that go here, in ascending order.
    pub fn iter_sources(&self) -> (r: Vec<u32>)
        ensures
            ascending(r@),
            r@.to_set() == self.sources(),
    {
        ascending_items(&self.sources)
    }
}

impl Fact for BranchTargetFact {
    open spec fn kind() -> FactKind {
        FactKind::BranchTarget
    }

    open spec fn slot(facts: FactsAt) -> Option<Self> {
        facts.branch_target
    }

    open spec fn with_slot(facts: FactsAt, value: Option<Self>) -> FactsAt {
        FactsAt {
            branch_target: value,
            subroutine: facts.subroutine,
            subroutine_call: facts.subroutine_call,
            basic_block_end: facts.basic_block_end,
            parse_error: facts.parse_error,
            basic_block: facts.basic_block,
        }
    }

    proof fn lemma_slot(facts: FactsAt, value: Option<Self>) {
    }

    fn kind_of() -> (r: FactKind) {
        FactKind::BranchTarget
    }

    fn get(facts: &FactsAt) -> (r: &Option<Self>) {
        &facts.branch_target
    }

    fn get_mut(facts: &mut FactsAt) -> (r: &mut Option<Self>) {
        &mut facts.branch_target
    }
}

impl Default for BranchTargetFact {
    /// The fact without a source.
    fn default() -> (r: Self)
        ensures
            r.sources() == Set::<u32>::empty(),
    {
        Self { sources: BTreeSet::new() }
    }
}

impl DefaultFact for BranchTargetFact {
    open spec fn is_blank(&self) -> bool {
        self.sources() == Set::<u32>::empty()
    }

    fn blank() -> (r: Self) {
        Self { sources: BTreeSet::new() }
    }
}

} // verus!
