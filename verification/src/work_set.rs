//! A set of work items, each unknown, open or closed.

use std::collections::HashSet;
use std::hash::Hash;
use vstd::prelude::*;
use vstd::std_specs::hash::obeys_key_model;
use vstd::std_specs::iter::IteratorSpec;

verus! {

/// A finite set of addresses holds at most 2^32 of them.
pub proof fn lemma_address_set_bound(s: Set<u32>)
    requires
        s.finite(),
    ensures
        s.len() <= 0x1_0000_0000,
{
    let f = |a: u32| a as int;
    let ints = s.map(f);
    assert(vstd::relations::injective_on(f, s));
    vstd::set_lib::lemma_map_size(s, ints, f);
    vstd::set_lib::lemma_int_range(0, 0x1_0000_0000);
    assert(ints.subset_of(vstd::set_lib::set_int_range(0, 0x1_0000_0000))) by {
        assert forall|i: int| ints.contains(i) implies vstd::set_lib::set_int_range(
            0,
            0x1_0000_0000,
        ).contains(i) by {
            let a = choose|a: u32| s.contains(a) && f(a) == i;
            assert(0 <= i < 0x1_0000_0000);
        }
    }
    vstd::set_lib::lemma_len_subset(ints, vstd::set_lib::set_int_range(0, 0x1_0000_0000));
}

/// A finite set that holds all of another set and one item more is larger.
pub proof fn lemma_grown<T>(before: Set<T>, after: Set<T>, item: T)
    requires
        after.finite(),
        before.subset_of(after),
        !before.contains(item),
        after.contains(item),
    ensures
        before.finite(),
        before.len() < after.len(),
{
    vstd::set_lib::lemma_len_subset(before, after);
    vstd::set_lib::lemma_len_subset(before.insert(item), after);
}

/// Tracks the states of a set of work items.
///
/// # Item states
///
/// Items are in one of three states:
///
/// - *unknown*, the initial state
/// - *open*
/// - *closed*, the final state
///
/// All items in the universe of `T` begin in the *unknown* state. They may be moved from *unknown*
/// to *open* with [`insert`](WorkSet::insert), from *open* to *closed* with [`pop`](WorkSet::pop),
/// or to *closed* from any state with [`close`](WorkSet::close).
///
/// Finally, [`peek`](WorkSet::peek) returns a reference to an arbitrary *open* item.
pub struct WorkSet<T> {
    known: HashSet<T>,
    open: HashSet<T>,
}

impl<T: Copy + Eq + Hash> WorkSet<T> {
    /// The items that are open or closed.
    pub closed spec fn known(&self) -> Set<T> {
        self.known@
    }

    /// The items that are open.
    pub closed spec fn open(&self) -> Set<T> {
        self.open@
    }

    /// The items that are closed: known and no longer open.
    pub open spec fn closed(&self) -> Set<T> {
        self.known().difference(self.open())
    }

    /// Every open item is known, there are finitely many of them, and `T`
    /// is a type whose hash and equality agree.
    pub closed spec fn wf(&self) -> bool {
        &&& obeys_key_model::<T>()
        &&& self.open@.subset_of(self.known@)
        &&& self.known@.finite()
        &&& self.open@.finite()
    }

    /// What the predicate `wf` says of the sets.
    pub proof fn lemma_wf(&self)
        requires
            self.wf(),
        ensures
            self.open().subset_of(self.known()),
            self.known().finite(),
            self.open().finite(),
            self.closed().finite(),
    {
    }

    pub fn new() -> (r: Self)
        requires
            obeys_key_model::<T>(),
        ensures
            r.wf(),
            r.known() == Set::<T>::empty(),
            r.open() == Set::<T>::empty(),
    {
        Self { known: HashSet::new(), open: HashSet::new() }
    }

    /// Moves the given item from the *unknown* state to the *open* state, if possible.
    ///
    /// If the item is already *open* or *closed*, this method has no effect.
    pub fn insert(&mut self, item: T)
        requires
            old(self).wf(),
        ensures
            final(self).wf(),
            final(self).known() == old(self).known().insert(item),
            final(self).open() == if old(self).known().contains(item) {
                old(self).open()
            } else {
                old(self).open().insert(item)
            },
    {
        broadcast use vstd::std_specs::hash::group_hash_axioms;

        if !self.known.contains(&item) {
            self.known.insert(item);
            self.open.insert(item);
        } else {
            assert(self.known@.insert(item) =~= self.known@);
        }
    }

    /// Returns an arbitrary *open* item, if there are any such items.
    pub fn peek(&self) -> (r: Option<&T>)
        requires
            self.wf(),
        ensures
            match r {
                Some(item) => self.open().contains(*item),
                None => self.open() == Set::<T>::empty(),
            },
    {
        broadcast use vstd::std_specs::hash::group_hash_axioms;

        let ghost rem = self.open.iter().remaining();
        for item in it: self.open.iter()
            invariant
                it.seq() == rem,
                it.index() == 0,
        {
            assert(rem.unref().to_set().contains(*rem[0])) by {
                assert(rem.unref()[0] == *rem[0]);
            }
            return Some(item);
        }
        proof {
            assert(rem.len() == 0);
            assert(self.open@ =~= Set::<T>::empty()) by {
                assert(rem.unref() =~= Seq::<T>::empty());
            }
        }
        None
    }

    /// Finds an arbitrary *open* item, if there are any, moves it to the *closed* state, and
    /// returns it.
    pub fn pop(&mut self) -> (r: Option<T>)
        requires
            old(self).wf(),
        ensures
            final(self).wf(),
            final(self).known() == old(self).known(),
            match r {
                Some(item) => old(self).open().contains(item) && final(self).open() == old(
                    self,
                ).open().remove(item),
                None => old(self).open() == Set::<T>::empty() && final(self).open() == old(
                    self,
                ).open(),
            },
    {
        broadcast use vstd::std_specs::hash::group_hash_axioms;

        let found: Option<T> = match self.peek() {
            Some(item) => Some(*item),
            None => None,
        };
        match found {
            Some(item) => {
                self.open.remove(&item);
                Some(item)
            },
            None => None,
        }
    }

    /// Moves the given item from the *unknown* or *open* state to the *closed* state, if possible,
    /// and reports whether it did.
    ///
    /// If the item is already *closed*, this method has no effect and returns `false`.
    pub fn close(&mut self, item: T) -> (r: bool)
        requires
            old(self).wf(),
        ensures
            final(self).wf(),
            r == !old(self).closed().contains(item),
            final(self).known() == old(self).known().insert(item),
            final(self).open() == old(self).open().remove(item),
            final(self).closed() == old(self).closed().insert(item),
    {
        broadcast use vstd::std_specs::hash::group_hash_axioms;

        let was_open = self.open.remove(&item);
        let r = if was_open {
            assert(self.known@.insert(item) =~= self.known@);
            true
        } else {
            assert(self.open@ =~= old(self).open@);
            self.known.insert(item)
        };
        assert(self.known@.difference(self.open@) =~= old(self).known@.difference(
            old(self).open@,
        ).insert(item));
        r
    }

    /// Opens each of the given items that is unknown.
    pub fn extend(&mut self, items: &[T])
        requires
            old(self).wf(),
        ensures
            final(self).wf(),
            final(self).known() == old(self).known().union(items@.to_set()),
            final(self).open() == old(self).open().union(
                items@.to_set().difference(old(self).known()),
            ),
            final(self).closed() == old(self).closed(),
    {
        let mut i: usize = 0;
        while i < items.len()
            invariant
                i <= items.len(),
                self.wf(),
                self.known() == old(self).known().union(items@.take(i as int).to_set()),
                self.open() == old(self).open().union(
                    items@.take(i as int).to_set().difference(old(self).known()),
                ),
            decreases items.len() - i,
        {
            let ghost before = items@.take(i as int).to_set();
            self.insert(items[i]);
            i += 1;
            proof {
                let after = items@.take(i as int).to_set();
                assert(items@.take(i as int) =~= items@.take(i - 1).push(items@[i - 1]));
                assert(after =~= before.insert(items@[i - 1])) by {
                    items@.take(i - 1).lemma_push_to_set_commute(items@[i - 1]);
                }
                assert(self.known() =~= old(self).known().union(after));
                assert(self.open() =~= old(self).open().union(
                    after.difference(old(self).known()),
                ));
            }
        }
        proof {
            assert(items@.take(items@.len() as int) =~= items@);
            assert(self.closed() =~= old(self).closed());
        }
    }

    /// Returns all *open* and *closed* items, in no particular order.
    pub fn iter_known(&self) -> (r: Vec<T>)
        requires
            self.wf(),
        ensures
            r@.to_set() == self.known(),
            r@.no_duplicates(),
            r@.len() == self.known().len(),
    {
        broadcast use vstd::std_specs::hash::group_hash_axioms;

        let ghost rem = self.known.iter().remaining();
        let mut items: Vec<T> = Vec::new();
        for item in it: self.known.iter()
            invariant
                it.seq() == rem,
                items@.len() == it.index(),
                forall|i: int| 0 <= i < items@.len() ==> items@[i] == *rem[i],
        {
            items.push(*item);
        }
        proof {
            assert(items@ =~= rem.unref());
        }
        items
    }
}

impl<T: Copy + Eq + Hash> Default for WorkSet<T> {
    /// A work set in which every item is unknown.
    fn default() -> (r: Self)
        ensures
            obeys_key_model::<T>() ==> r.wf(),
            r.known() == Set::<T>::empty(),
            r.open() == Set::<T>::empty(),
    {
        Self { known: HashSet::new(), open: HashSet::new() }
    }
}

} // verus!
