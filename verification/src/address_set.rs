//! Sets of addresses that are walked in ascending order.

use std::collections::BTreeSet;
use vstd::prelude::*;
use vstd::std_specs::cmp::OrdSpec;
use vstd::std_specs::iter::IteratorSpec;

verus! {

/// Whether each item is smaller than the next.
pub open spec fn ascending(s: Seq<u32>) -> bool {
    forall|i: int, j: int| 0 <= i < j < s.len() ==> s[i] < s[j]
}

/// Puts an address into a set, and says whether it was new.
pub fn insert_address(set: &mut BTreeSet<u32>, address: u32) -> (r: bool)
    ensures
        final(set)@ == old(set)@.insert(address),
        r == !old(set)@.contains(address),
{
    broadcast use vstd::std_specs::btree::group_btree_axioms;
    broadcast use vstd::laws_cmp::group_laws_cmp;

    set.insert(address)
}

/// Whether `a` comes before `b` in the order of their type.
spec fn precedes<K: Ord>(a: K, b: K) -> bool {
    a.cmp_spec(&b) is Less
}

/// The items of a set, smallest first.
pub fn ascending_items(set: &BTreeSet<u32>) -> (r: Vec<u32>)
    ensures
        ascending(r@),
        r@.to_set() == set@,
        r@.len() == set@.len(),
{
    broadcast use vstd::std_specs::btree::group_btree_axioms;
    broadcast use vstd::laws_cmp::group_laws_cmp;

    let ghost rem = set.iter().remaining();
    let mut items: Vec<u32> = Vec::new();
    for x in it: set.iter()
        invariant
            it.seq() == rem,
            items@.len() == it.index(),
            forall|i: int| 0 <= i < items@.len() ==> items@[i] == *rem[i],
    {
        items.push(*x);
    }
    proof {
        assert(items@.len() == rem.len());
        assert(vstd::std_specs::btree::increasing_seq(rem));
        assert(vstd::laws_cmp::obeys_cmp::<&u32>());
        vstd::std_specs::btree::axiom_increasing_seq_meaning::<&u32>(rem);
        assert forall|i: int, j: int| 0 <= i < j < rem.len() implies *rem[i] < *rem[j] by {
            assert(precedes::<&u32>(rem[i], rem[j]));
        }
        assert(items@ =~= rem.unref());
    }
    items
}

} // verus!
