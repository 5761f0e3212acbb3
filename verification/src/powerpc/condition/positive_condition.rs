use vstd::prelude::*;

use crate::powerpc::condition::condition::Condition;

verus! {

/// A condition as it is written in the mnemonic of a branch that is taken
/// when the bit is set.
#[derive(Clone, Copy, Debug)]
pub struct PositiveCondition(pub Condition);

} // verus!
