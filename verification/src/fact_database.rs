//! The store of facts, by address and by kind.

use std::collections::BTreeSet;
use std::collections::HashMap;
use vstd::prelude::*;

use crate::address_set::ascending;
use crate::address_set::ascending_items;
use crate::address_set::insert_address;
use crate::fact::DefaultFact;
use crate::fact::Fact;
use crate::fact::FactKind;
use crate::fact::FactsAt;
use crate::fact::FactsView;
use crate::fact::KINDS;

verus! {

/// The facts about an address in a map, which may be none.
pub open spec fn facts_in(facts: Map<u32, FactsAt>, addr: u32) -> FactsAt {
    if facts.contains_key(addr) {
        facts[addr]
    } else {
        FactsAt::nothing()
    }
}

/// Whether the sets, one for each kind, list the addresses about which the
/// map has a fact of the kind.
pub open spec fn indexed(sets: Seq<BTreeSet<u32>>, facts: Map<u32, FactsAt>) -> bool {
    forall|kind: FactKind, addr: u32| #[trigger]
        sets[kind.ordinal() as int]@.contains(addr) <==> facts_in(facts, addr).has(kind)
}

/// Sets that list the facts of a map but for a fact of type `T` about
/// `addr` list the facts of the map with any such fact.
proof fn lemma_indexed<T: Fact>(
    before: Seq<BTreeSet<u32>>,
    after: Seq<BTreeSet<u32>>,
    facts: Map<u32, FactsAt>,
    addr: u32,
)
    requires
        before.len() == KINDS,
        after.len() == KINDS,
        indexed(before, facts),
        after[T::kind().ordinal() as int]@ == before[T::kind().ordinal() as int]@.insert(addr),
        forall|kind: FactKind|
            kind != T::kind() ==> (#[trigger] after[kind.ordinal() as int])@
                == before[kind.ordinal() as int]@,
    ensures
        forall|value: T|
            indexed(
                after,
                #[trigger] facts.insert(addr, T::with_slot(facts_in(facts, addr), Some(value))),
            ),
{
    assert forall|value: T|
        indexed(
            after,
            #[trigger] facts.insert(addr, T::with_slot(facts_in(facts, addr), Some(value))),
        ) by {
        let here = facts_in(facts, addr);
        let changed = facts.insert(addr, T::with_slot(here, Some(value)));
        T::lemma_slot(here, Some(value));
        T::lemma_slot(T::with_slot(here, Some(value)), None);
        assert forall|kind: FactKind, other: u32| #[trigger]
            after[kind.ordinal() as int]@.contains(other) <==> facts_in(changed, other).has(
                kind,
            ) by {
            assert(before[kind.ordinal() as int]@.contains(other) <==> facts_in(facts, other).has(
                kind,
            ));
            if kind != T::kind() {
                assert(after[kind.ordinal() as int]@ == before[kind.ordinal() as int]@);
                assert(T::with_slot(here, Some(value)).has(kind) == here.has(kind));
            }
        }
    }
}

/// Facts may only be inserted, though they may carry mutable state.
pub struct FactDatabase {
    facts_by_addr: HashMap<u32, FactsAt>,
    addrs: BTreeSet<u32>,
    addrs_by_kind: Vec<BTreeSet<u32>>,
}

impl FactDatabase {
    /// The facts about each address that has any.
    pub closed spec fn facts(&self) -> Map<u32, FactsAt> {
        self.facts_by_addr@
    }

    /// The index by kind: the addresses that are listed as having a fact of
    /// the kind.
    pub closed spec fn index(&self, kind: FactKind) -> Set<u32> {
        self.addrs_by_kind@[kind.ordinal() as int]@
    }

    /// The facts about each address that has any, as values.
    pub open spec fn view(&self) -> Map<u32, FactsView> {
        self.facts().map_values(|facts: FactsAt| facts@)
    }

    /// The facts about an address, which may be none.
    pub open spec fn facts_at(&self, addr: u32) -> FactsAt {
        facts_in(self.facts(), addr)
    }

    /// The fact of type `T` about an address, if there is one.
    pub open spec fn fact<T: Fact>(&self, addr: u32) -> Option<T> {
        T::slot(self.facts_at(addr))
    }

    /// Whether there is a fact of the kind about the address.
    pub open spec fn has(&self, kind: FactKind, addr: u32) -> bool {
        self.facts_at(addr).has(kind)
    }

    /// The index by kind and the list of addresses agree with the facts.
    pub closed spec fn wf(&self) -> bool {
        &&& self.addrs_by_kind@.len() == KINDS
        &&& self.addrs@ =~= self.facts_by_addr@.dom()
        &&& indexed(self.addrs_by_kind@, self.facts_by_addr@)
    }

    /// The index by kind lists an address exactly if there is a fact of the
    /// kind about it.
    pub proof fn lemma_index_agrees(&self, kind: FactKind, addr: u32)
        requires
            self.wf(),
        ensures
            self.index(kind).contains(addr) <==> self.has(kind, addr),
    {
    }

    pub fn new() -> (r: FactDatabase)
        ensures
            r.wf(),
            r.facts() == Map::<u32, FactsAt>::empty(),
    {
        let mut addrs_by_kind: Vec<BTreeSet<u32>> = Vec::new();
        let mut i: usize = 0;
        while i < KINDS
            invariant
                i <= KINDS,
                addrs_by_kind@.len() == i,
                forall|k: int| 0 <= k < i ==> (#[trigger] addrs_by_kind@[k])@ == Set::<u32>::empty(),
            decreases KINDS - i,
        {
            addrs_by_kind.push(BTreeSet::new());
            i += 1;
        }
        let r = FactDatabase { facts_by_addr: HashMap::new(), addrs: BTreeSet::new(), addrs_by_kind };
        proof {
            assert(r.addrs@ =~= r.facts_by_addr@.dom());
            assert forall|kind: FactKind, addr: u32| #[trigger]
                r.addrs_by_kind@[kind.ordinal() as int]@.contains(addr) <==> facts_in(
                    r.facts_by_addr@,
                    addr,
                ).has(kind) by {
                assert(r.addrs_by_kind@[kind.ordinal() as int]@ == Set::<u32>::empty());
            }
        }
        r
    }

    pub fn get_fact<T: Fact>(&self, addr: u32) -> (r: Option<&T>)
        ensures
            r is Some <==> self.fact::<T>(addr) is Some,
            r is Some ==> *r->0 == self.fact::<T>(addr)->0,
    {
        broadcast use vstd::std_specs::hash::group_hash_axioms;

        match self.facts_by_addr.get(&addr) {
            Some(facts) => T::get(facts).as_ref(),
            None => {
                proof {
                    T::lemma_slot(FactsAt::nothing(), None);
                    assert(!FactsAt::nothing().has(T::kind()));
                }
                None
            },
        }
    }

    /// Lists `addr` as an address with a fact of the given kind.
    fn list(&mut self, kind: FactKind, addr: u32)
        requires
            old(self).addrs_by_kind@.len() == KINDS,
        ensures
            final(self).facts_by_addr == old(self).facts_by_addr,
            final(self).addrs@ == old(self).addrs@.insert(addr),
            final(self).addrs_by_kind@.len() == KINDS,
            final(self).index(kind) == old(self).index(kind).insert(addr),
            forall|other: FactKind| other != kind ==> final(self).index(other) == old(self).index(other),
    {
        let ordinal = kind.to_ordinal();
        let set = &mut self.addrs_by_kind[ordinal];
        insert_address(set, addr);
        insert_address(&mut self.addrs, addr);
        proof {
            assert forall|other: FactKind| other != kind implies self.index(other) == old(
                self,
            ).index(other) by {
                assert(other.ordinal() != kind.ordinal());
            }
        }
    }

    /// The fact of type `T` about an address, to change it, if there is one.
    pub fn get_fact_mut<T: Fact>(&mut self, addr: u32) -> (r: Option<&mut T>)
        requires
            old(self).wf(),
        ensures
            final(self).wf(),
            match r {
                Some(fact) => {
                    &&& old(self).fact::<T>(addr) == Some(*fact)
                    &&& final(self).facts() == old(self).facts().insert(
                        addr,
                        T::with_slot(old(self).facts_at(addr), Some(*final(fact))),
                    )
                },
                None => old(self).fact::<T>(addr) is None && final(self).facts() == old(
                    self,
                ).facts(),
            },
    {
        broadcast use vstd::std_specs::hash::group_hash_axioms;

        let present = match self.get_fact::<T>(addr) {
            Some(_) => true,
            None => false,
        };
        if !present {
            return None;
        }
        proof {
            T::lemma_slot(FactsAt::nothing(), None);
            assert(self.facts().contains_key(addr));
        }
        let ghost before = self.facts()[addr];
        let facts = self.facts_by_addr.entry(addr).or_insert(FactsAt::new());
        let slot = T::get_mut(facts);
        let r = slot.as_mut();
        proof {
            T::lemma_slot(before, None);
            let sets = self.addrs_by_kind@;
            assert(sets[T::kind().ordinal() as int]@.contains(addr));
            assert(sets[T::kind().ordinal() as int]@ =~= sets[T::kind().ordinal() as int]@.insert(
                addr,
            ));
            lemma_indexed::<T>(sets, sets, old(self).facts(), addr);
        }
        r
    }

    /// The fact of type `T` about an address, to change it; where there is
    /// none yet, the fact that says nothing is put there first.
    pub fn fact_or_default<T: DefaultFact>(&mut self, addr: u32) -> (r: &mut T)
        requires
            old(self).wf(),
        ensures
            final(self).wf(),
            match old(self).fact::<T>(addr) {
                Some(fact) => *r == fact,
                None => r.is_blank(),
            },
            final(self).facts() == old(self).facts().insert(
                addr,
                T::with_slot(old(self).facts_at(addr), Some(*final(r))),
            ),
    {
        broadcast use vstd::std_specs::hash::group_hash_axioms;

        self.list(T::kind_of(), addr);
        proof {
            assert forall|kind: FactKind| kind != T::kind() implies (
            #[trigger] self.addrs_by_kind@[kind.ordinal() as int])@ == old(
                self,
            ).addrs_by_kind@[kind.ordinal() as int]@ by {
                assert(self.index(kind) == old(self).index(kind));
            }
            assert(self.index(T::kind()) == old(self).index(T::kind()).insert(addr));
            lemma_indexed::<T>(
                old(self).addrs_by_kind@,
                self.addrs_by_kind@,
                old(self).facts(),
                addr,
            );
        }
        let facts = self.facts_by_addr.entry(addr).or_insert(FactsAt::new());
        let slot = T::get_mut(facts);
        if slot.is_none() {
            *slot = Some(T::blank());
        }
        match slot {
            Some(fact) => fact,
            None => vstd::pervasive::unreached(),
        }
    }

    /// Puts the fact that `f` makes about an address, unless there is a fact
    /// of type `T` about it already: a fact is never overwritten.
    pub fn insert_fact_with<T: Fact, F: FnOnce() -> T>(&mut self, addr: u32, f: F)
        requires
            old(self).wf(),
            f.requires(()),
        ensures
            final(self).wf(),
            match old(self).fact::<T>(addr) {
                Some(_) => final(self).facts() == old(self).facts(),
                None => exists|value: T|
                    f.ensures((), value) && final(self).facts() == #[trigger] old(
                        self,
                    ).facts().insert(addr, T::with_slot(old(self).facts_at(addr), Some(value))),
            },
    {
        broadcast use vstd::std_specs::hash::group_hash_axioms;

        let ghost before = self.facts_at(addr);
        self.list(T::kind_of(), addr);
        proof {
            assert forall|kind: FactKind| kind != T::kind() implies (
            #[trigger] self.addrs_by_kind@[kind.ordinal() as int])@ == old(
                self,
            ).addrs_by_kind@[kind.ordinal() as int]@ by {
                assert(self.index(kind) == old(self).index(kind));
            }
            assert(self.index(T::kind()) == old(self).index(T::kind()).insert(addr));
            lemma_indexed::<T>(
                old(self).addrs_by_kind@,
                self.addrs_by_kind@,
                old(self).facts(),
                addr,
            );
            T::lemma_slot(before, None);
        }
        let facts = self.facts_by_addr.entry(addr).or_insert(FactsAt::new());
        let slot = T::get_mut(facts);
        if slot.is_none() {
            *slot = Some(f());
        }
        proof {
            if before.has(T::kind()) {
                assert(old(self).facts().contains_key(addr));
                assert(self.facts_by_addr@ =~= old(self).facts());
            }
        }
    }

    /// Puts a fact about an address, unless there is a fact of type `T`
    /// about it already: a fact is never overwritten.
    pub fn insert_fact<T: Fact>(&mut self, addr: u32, fact: T)
        requires
            old(self).wf(),
        ensures
            final(self).wf(),
            match old(self).fact::<T>(addr) {
                Some(_) => final(self).facts() == old(self).facts(),
                None => final(self).facts() == old(self).facts().insert(
                    addr,
                    T::with_slot(old(self).facts_at(addr), Some(fact)),
                ),
            },
    {
        broadcast use vstd::std_specs::hash::group_hash_axioms;

        let ghost before = self.facts_at(addr);
        self.list(T::kind_of(), addr);
        proof {
            assert forall|kind: FactKind| kind != T::kind() implies (
            #[trigger] self.addrs_by_kind@[kind.ordinal() as int])@ == old(
                self,
            ).addrs_by_kind@[kind.ordinal() as int]@ by {
                assert(self.index(kind) == old(self).index(kind));
            }
            assert(self.index(T::kind()) == old(self).index(T::kind()).insert(addr));
            lemma_indexed::<T>(
                old(self).addrs_by_kind@,
                self.addrs_by_kind@,
                old(self).facts(),
                addr,
            );
            T::lemma_slot(before, None);
        }
        let facts = self.facts_by_addr.entry(addr).or_insert(FactsAt::new());
        let slot = T::get_mut(facts);
        if slot.is_none() {
            *slot = Some(fact);
        }
        proof {
            if before.has(T::kind()) {
                assert(old(self).facts().contains_key(addr));
                assert(self.facts_by_addr@ =~= old(self).facts());
            }
        }
    }

    /// The addresses about which there is a fact of type `T`, in ascending
    /// order.
    pub fn iter_facts_with_type<T: Fact>(&self) -> (r: Vec<u32>)
        requires
            self.wf(),
        ensures
            ascending(r@),
            forall|addr: u32| r@.contains(addr) <==> self.fact::<T>(addr) is Some,
    {
        let kind = T::kind_of();
        let r = ascending_items(&self.addrs_by_kind[kind.to_ordinal()]);
        proof {
            assert forall|addr: u32| r@.contains(addr) <==> self.fact::<T>(addr) is Some by {
                assert(r@.contains(addr) <==> r@.to_set().contains(addr));
                assert(self.index(kind).contains(addr) <==> self.has(kind, addr));
                T::lemma_slot(self.facts_at(addr), None);
            }
        }
        r
    }

    /// Every address about which there is a fact, in ascending order, with
    /// the facts about it.
    pub fn iter_facts(&self) -> (r: Vec<(u32, &FactsAt)>)
        requires
            self.wf(),
        ensures
            r@.len() == self.facts().dom().len(),
            forall|i: int, j: int| 0 <= i < j < r@.len() ==> r@[i].0 < r@[j].0,
            forall|i: int|
                0 <= i < r@.len() ==> self.facts().contains_key((#[trigger] r@[i]).0)
                    && *r@[i].1 == self.facts()[r@[i].0],
            forall|addr: u32|
                self.facts().contains_key(addr) ==> exists|i: int|
                    0 <= i < r@.len() && (#[trigger] r@[i]).0 == addr,
    {
        broadcast use vstd::std_specs::hash::group_hash_axioms;

        let addrs = ascending_items(&self.addrs);
        let mut out: Vec<(u32, &FactsAt)> = Vec::new();
        let mut i: usize = 0;
        while i < addrs.len()
            invariant
                i <= addrs.len(),
                ascending(addrs@),
                addrs@.to_set() == self.facts().dom(),
                out@.len() == i,
                forall|k: int|
                    0 <= k < i ==> (#[trigger] out@[k]).0 == addrs@[k] && self.facts().contains_key(
                        out@[k].0,
                    ) && *out@[k].1 == self.facts()[out@[k].0],
            decreases addrs.len() - i,
        {
            let addr = addrs[i];
            assert(addrs@.to_set().contains(addr));
            match self.facts_by_addr.get(&addr) {
                Some(facts) => {
                    out.push((addr, facts));
                },
                None => {
                    assert(false);
                },
            }
            i += 1;
        }
        proof {
            assert forall|addr: u32| self.facts().contains_key(addr) implies exists|i: int|
                0 <= i < out@.len() && (#[trigger] out@[i]).0 == addr by {
                assert(addrs@.to_set().contains(addr));
                let k = choose|k: int| 0 <= k < addrs@.len() && addrs@[k] == addr;
                assert(out@[k].0 == addr);
            }
        }
        out
    }
}

} // verus!
