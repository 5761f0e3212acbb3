use vstd::prelude::*;

verus! {

/// One of the eight condition register fields, `cr0..=cr7`.
#[derive(Clone, Copy, Debug, PartialEq, Eq, PartialOrd, Ord, Hash, Structural)]
pub struct Crf(pub(crate) u32);

impl Crf {
    #[verifier::type_invariant]
    pub open(crate) spec fn in_range(self) -> bool {
        self.0 < 8
    }

    /// The field's number.
    pub open(crate) spec fn index(self) -> u32 {
        self.0
    }

    /// The field with the given number.
    pub open(crate) spec fn of_index(x: u32) -> Crf {
        Crf(x)
    }

    pub fn new(x: u32) -> (r: Option<Crf>)
        ensures
            r is Some <==> x < 8,
            r is Some ==> r->0 == Crf::of_index(x) && r->0.index() == x,
    {
        if x < 8 {
            Some(Crf(x))
        } else {
            None
        }
    }

    pub fn get(self) -> (r: u32)
        ensures
            r == self.index(),
            r < 8,
    {
        proof {
            use_type_invariant(&self);
        }
        self.0
    }

    /// The field itself unless it is `cr0`.
    pub fn nonzero(self) -> (r: Option<Crf>)
        ensures
            r == (if self.index() > 0 {
                Some(self)
            } else {
                None
            }),
    {
        if self.0 > 0 {
            Some(self)
        } else {
            None
        }
    }
}

} // verus!
