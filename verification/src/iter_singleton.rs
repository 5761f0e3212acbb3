//! The only item of a list.

use vstd::prelude::*;

verus! {

/// Lists that can say whether they hold precisely one item.
pub trait IteratorExt {
    /// What the list holds.
    type Item;

    /// The items of the list.
    spec fn items(&self) -> Seq<Self::Item>;

    /// Consumes the list, returning an element if there is precisely one, or `None` otherwise.
    fn singleton(self) -> (r: Option<Self::Item>)
        ensures
            r == (if self.items().len() == 1 {
                Some(self.items()[0])
            } else {
                None
            }),
    ;
}

impl<T: Copy> IteratorExt for Vec<T> {
    type Item = T;

    open spec fn items(&self) -> Seq<T> {
        self@
    }

    fn singleton(self) -> (r: Option<T>) {
        if self.len() == 1 {
            Some(self[0])
        } else {
            None
        }
    }
}

} // verus!
