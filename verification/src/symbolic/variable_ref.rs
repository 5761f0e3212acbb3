use vstd::prelude::*;

verus! {

/// The place of a variable in a list of variables.
#[derive(Clone, Copy, Debug, PartialEq, Eq, Hash, Structural)]
pub struct VariableRef(pub usize);

impl VariableRef {
    /// The index that the reference holds.
    pub open spec fn raw(self) -> usize {
        self.0
    }

    pub fn from_raw(raw: usize) -> (r: Self)
        ensures
            r.raw() == raw,
    {
        Self(raw)
    }

    pub fn to_raw(self) -> (r: usize)
        ensures
            r == self.raw(),
    {
        self.0
    }
}

} // verus!
