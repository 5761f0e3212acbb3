use vstd::prelude::*;

verus! {

/// Branch instruction behavior for the count register.
#[derive(Clone, Copy, Debug, PartialEq, Eq, Structural)]
pub enum CtrBehavior {
    DecrementBranchNonzero,
    DecrementBranchZero,
    /// The branch neither decrements nor tests the count register.
    Untouched,
}

} // verus!
