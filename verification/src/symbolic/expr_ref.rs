use vstd::prelude::*;

verus! {

/// The place of an expression in the table of its [`Context`](crate::symbolic::context::Context).
#[derive(Clone, Copy, Debug, PartialEq, Eq, Hash, Structural)]
pub struct ExprRef(pub usize);

impl ExprRef {
    /// The index that the reference holds.
    pub open spec fn raw(self) -> usize {
        self.0
    }

    pub fn from_raw(raw: usize) -> (r: Self)
        ensures
            r.raw() == raw,
    {
        Self(raw)
    }

    pub fn to_raw(self) -> (r: usize)
        ensures
            r == self.raw(),
    {
        self.0
    }
}

} // verus!
