//! The constructors of the expressions with any number of operands.

use vstd::prelude::*;

use crate::symbolic::context::Context;
use crate::symbolic::context::extends_without_variables;
use crate::symbolic::context::literal_at;
use crate::symbolic::context::node_ok;
use crate::symbolic::context::ordered;
use crate::symbolic::context::table_wf;
use crate::symbolic::expr::Expr;
use crate::symbolic::expr::Node;
use crate::symbolic::expr_ref::ExprRef;
use crate::symbolic::normal::add_normal;
use crate::symbolic::normal::add_parts;
use crate::symbolic::normal::bit_and_normal;
use crate::symbolic::normal::bit_or_normal;
use crate::symbolic::normal::dedup;
use crate::symbolic::normal::flatten;
use crate::symbolic::normal::lemma_dedup;
use crate::symbolic::normal::lemma_sorted;
use crate::symbolic::normal::lemma_sorted_is;
use crate::symbolic::normal::literal_product;
use crate::symbolic::normal::literal_total;
use crate::symbolic::normal::mul_normal;
use crate::symbolic::normal::mul_parts;
use crate::symbolic::normal::non_literals;
use crate::symbolic::normal::not_literal;
use crate::symbolic::normal::phi_normal;
use crate::symbolic::normal::phi_parts;
use crate::symbolic::normal::sorted;
use crate::symbolic::normal::wrap;
use crate::symbolic::variable::VariableName;

verus! {

/// The references in ascending order of their indices.
pub fn sort_refs(refs: &Vec<ExprRef>) -> (r: Vec<ExprRef>)
    ensures
        r@ == sorted(refs@),
{
    broadcast use vstd::seq_lib::group_to_multiset_ensures;

    let mut out: Vec<ExprRef> = Vec::new();
    let mut i: usize = 0;
    while i < refs.len()
        invariant
            i <= refs.len(),
            ordered(out@),
            out@.to_multiset() == refs@.take(i as int).to_multiset(),
        decreases refs.len() - i,
    {
        let x = refs[i];
        let mut pos: usize = 0;
        while pos < out.len() && out[pos].0 <= x.0
            invariant
                pos <= out.len(),
                forall|k: int| 0 <= k < pos ==> out@[k].raw() <= x.raw(),
            decreases out.len() - pos,
        {
            pos += 1;
        }
        let ghost before = out@;
        out.insert(pos, x);
        proof {
            assert forall|a: int, b: int| 0 <= a < b < out@.len() implies out@[a].raw()
                <= out@[b].raw() by {
                if b < pos {
                    assert(out@[a] == before[a] && out@[b] == before[b]);
                } else if b == pos {
                    assert(out@[a] == before[a]);
                } else if a < pos {
                    assert(out@[a] == before[a] && out@[b] == before[b - 1]);
                } else if a == pos {
                    assert(out@[b] == before[b - 1]);
                    assert(before[pos as int].raw() <= before[b - 1].raw());
                } else {
                    assert(out@[a] == before[a - 1] && out@[b] == before[b - 1]);
                }
            }
            assert(refs@.take(i + 1) =~= refs@.take(i as int).push(x));
            vstd::seq_lib::to_multiset_insert(before, pos as int, x);
            vstd::seq_lib::to_multiset_build(refs@.take(i as int), x);
            assert(out@ == before.insert(pos as int, x));
        }
        i += 1;
    }
    proof {
        assert(refs@.take(refs@.len() as int) =~= refs@);
        lemma_sorted_is(refs@, out@);
    }
    out
}

/// A list without the items that repeat the one before them.
pub fn dedup_refs(refs: &Vec<ExprRef>) -> (r: Vec<ExprRef>)
    ensures
        r@ == dedup(refs@),
{
    let mut out: Vec<ExprRef> = Vec::new();
    let mut i: usize = 0;
    while i < refs.len()
        invariant
            i <= refs.len(),
            out@ == dedup(refs@.take(i as int)),
        decreases refs.len() - i,
    {
        let ghost next = refs@.take(i + 1);
        proof {
            assert(next.drop_last() =~= refs@.take(i as int));
            assert(next.last() == refs@[i as int]);
            if i > 0 {
                assert(next[next.len() - 2] == refs@[i - 1]);
            }
        }
        if i == 0 || refs[i - 1] != refs[i] {
            out.push(refs[i]);
            proof {
                if i == 0 {
                    assert(out@ =~= next);
                }
            }
        }
        i += 1;
    }
    proof {
        assert(refs@.take(refs@.len() as int) =~= refs@);
    }
    out
}

/// `after` holds `before` and no further variables, and so does every
/// table that `after` is extended to in the same way.
pub proof fn lemma_extends_twice<V>(a: Seq<Node<V>>, b: Seq<Node<V>>, c: Seq<Node<V>>)
    requires
        extends_without_variables(a, b),
        extends_without_variables(b, c),
    ensures
        extends_without_variables(a, c),
{
    assert forall|i: int| a.len() <= i < c.len() implies !(#[trigger] c[i] is Variable) by {
        if i < b.len() {
            assert(c[i] == b[i]);
        }
    }
}

/// A reference that stands at two places of a sequence occurs in it twice.
proof fn lemma_twice(s: Seq<ExprRef>, j: int, k: int)
    requires
        0 <= j < k < s.len(),
        s[j] == s[k],
    ensures
        s.to_multiset().count(s[j]) >= 2,
{
    broadcast use vstd::seq_lib::group_to_multiset_ensures;

    let x = s[j];
    let rest = s.remove(j);
    assert(rest[k - 1] == x);
    assert(rest.contains(x));
    assert(rest.to_multiset().count(x) > 0);
    assert(rest.to_multiset() == s.to_multiset().remove(x));
}

/// Of the terms that are no literals and at most one literal, put in order:
/// each comes from the terms or is the literal, and no two are literals.
proof fn lemma_sorted_operands<V>(nodes: Seq<Node<V>>, terms: Seq<ExprRef>, all: Seq<ExprRef>)
    requires
        forall|k: int| 0 <= k < terms.len() ==> literal_at(nodes, #[trigger] terms[k]) is None,
        all == terms || (exists|l: ExprRef| all == terms.push(l)),
    ensures
        forall|k: int| 0 <= k < sorted(all).len() ==> all.contains(#[trigger] sorted(all)[k]),
        forall|j: int, k: int|
            0 <= j < k < sorted(all).len() ==> !(literal_at(nodes, #[trigger] sorted(all)[j])
                is Some && literal_at(nodes, #[trigger] sorted(all)[k]) is Some),
{
    broadcast use vstd::seq_lib::group_to_multiset_ensures;

    let s = sorted(all);
    lemma_sorted(all);
    assert forall|k: int| 0 <= k < s.len() implies all.contains(#[trigger] s[k]) by {
        assert(s.contains(s[k]));
    }
    assert forall|j: int, k: int| 0 <= j < k < s.len() implies !(literal_at(nodes, #[trigger] s[j])
        is Some && literal_at(nodes, #[trigger] s[k]) is Some) by {
        if literal_at(nodes, s[j]) is Some && literal_at(nodes, s[k]) is Some {
            assert(s.contains(s[j]) && s.contains(s[k]));
            assert(all.contains(s[j]) && all.contains(s[k]));
            let a = choose|a: int| 0 <= a < all.len() && all[a] == s[j];
            let b = choose|b: int| 0 <= b < all.len() && all[b] == s[k];
            if a < terms.len() {
                assert(all[a] == terms[a]);
            }
            if b < terms.len() {
                assert(all[b] == terms[b]);
            }
            assert(all != terms);
            let l = choose|l: ExprRef| all == terms.push(l);
            assert(a == terms.len() && b == terms.len());
            assert(s[j] == l && s[k] == l);
            lemma_twice(s, j, k);
            assert(!terms.contains(l)) by {
                if terms.contains(l) {
                    let t = choose|t: int| 0 <= t < terms.len() && terms[t] == l;
                    assert(literal_at(nodes, terms[t]) is None);
                }
            }
            assert(terms.to_multiset().count(l) == 0);
            assert(all.to_multiset() == terms.to_multiset().insert(l));
        }
    }
}

impl<V: VariableName> Context<V> {
    /// Takes the next part of a sum: a literal goes to the running sum, any
    /// other part to the terms.
    fn take_summand(
        &self,
        part: ExprRef,
        terms: &mut Vec<ExprRef>,
        sum: &mut u32,
        Ghost(done): Ghost<Seq<ExprRef>>,
    )
        requires
            self.valid(part),
            old(terms)@ == non_literals(self.nodes(), done),
            *old(sum) == wrap(literal_total(self.nodes(), done)),
        ensures
            final(terms)@ == non_literals(self.nodes(), done.push(part)),
            *final(sum) == wrap(literal_total(self.nodes(), done.push(part))),
            final(terms)@ == old(terms)@ || (final(terms)@ == old(terms)@.push(part) && literal_at(
                self.nodes(),
                part,
            ) is None),
    {
        proof {
            assert(done.push(part).drop_last() =~= done);
            assert(done.push(part).last() == part);
            done.lemma_filter_push(part, not_literal(self.nodes()));
        }
        match self.literal_value(part) {
            Some(literal) => {
                proof {
                    let total = literal_total(self.nodes(), done);
                    vstd::arithmetic::div_mod::lemma_add_mod_noop(
                        total,
                        literal as int,
                        0x1_0000_0000,
                    );
                    vstd::arithmetic::div_mod::lemma_small_mod(literal as nat, 0x1_0000_0000);
                }
                *sum = sum.wrapping_add(literal);
            },
            None => {
                terms.push(part);
            },
        }
    }

    /// Takes the next part of a product: a literal goes to the running
    /// product, any other part to the terms.
    fn take_factor(
        &self,
        part: ExprRef,
        terms: &mut Vec<ExprRef>,
        product: &mut u32,
        Ghost(done): Ghost<Seq<ExprRef>>,
    )
        requires
            self.valid(part),
            old(terms)@ == non_literals(self.nodes(), done),
            *old(product) == wrap(literal_product(self.nodes(), done)),
        ensures
            final(terms)@ == non_literals(self.nodes(), done.push(part)),
            *final(product) == wrap(literal_product(self.nodes(), done.push(part))),
            final(terms)@ == old(terms)@ || (final(terms)@ == old(terms)@.push(part) && literal_at(
                self.nodes(),
                part,
            ) is None),
    {
        proof {
            assert(done.push(part).drop_last() =~= done);
            assert(done.push(part).last() == part);
            done.lemma_filter_push(part, not_literal(self.nodes()));
        }
        match self.literal_value(part) {
            Some(literal) => {
                proof {
                    let before = literal_product(self.nodes(), done);
                    vstd::arithmetic::div_mod::lemma_mul_mod_noop(
                        before,
                        literal as int,
                        0x1_0000_0000,
                    );
                    vstd::arithmetic::div_mod::lemma_small_mod(literal as nat, 0x1_0000_0000);
                    assert(before % 0x1_0000_0000 >= 0);
                }
                *product = product.wrapping_mul(literal);
            },
            None => {
                terms.push(part);
            },
        }
    }
}


impl<V: VariableName> Context<V> {
    pub fn add_expr(&mut self, exprs: Vec<ExprRef>) -> (r: ExprRef)
        requires
            old(self).wf(),
            forall|k: int| 0 <= k < exprs@.len() ==> old(self).valid(#[trigger] exprs@[k]),
        ensures
            final(self).wf(),
            (final(self).nodes(), r) == add_normal(old(self).nodes(), exprs@),
            final(self).assignments() == old(self).assignments(),
            final(self).valid(r),
            extends_without_variables(old(self).nodes(), final(self).nodes()),
    {
        let ghost nodes = self.nodes();
        let mut terms: Vec<ExprRef> = Vec::new();
        let mut sum: u32 = 0;
        let ghost mut done: Seq<ExprRef> = Seq::empty();
        let mut i: usize = 0;
        proof {
            self.lemma_wf();
            reveal(Seq::filter);
            assert(non_literals(nodes, done) =~= Seq::<ExprRef>::empty());
        }
        while i < exprs.len()
            invariant
                *self == *old(self),
                self.wf(),
                nodes == self.nodes(),
                table_wf(nodes),
                i <= exprs.len(),
                forall|k: int| 0 <= k < exprs@.len() ==> self.valid(#[trigger] exprs@[k]),
                done == flatten(exprs@.take(i as int), add_parts(nodes)),
                terms@ == non_literals(nodes, done),
                sum == wrap(literal_total(nodes, done)),
                forall|k: int|
                    0 <= k < terms@.len() ==> (#[trigger] terms@[k]).raw() < nodes.len() && !(
                    nodes[terms@[k].raw() as int] is Add) && literal_at(nodes, terms@[k]) is None,
            decreases exprs.len() - i,
        {
            let e = exprs[i];
            let ghost parts = add_parts(nodes)(e);
            let ghost base = done;
            proof {
                assert(exprs@.take(i + 1).drop_last() =~= exprs@.take(i as int));
                assert(exprs@.take(i + 1).last() == e);
                assert(node_ok(nodes, nodes[e.raw() as int], e.raw() as int));
            }
            match self.get_expr(e) {
                Expr::Add(params) => {
                    let mut j: usize = 0;
                    proof {
                        assert(base + parts.take(0) =~= base);
                        assert forall|k: int| 0 <= k < params@.len() implies (
                        #[trigger] params@[k]).raw() < nodes.len() && !(nodes[params@[k].raw() as int] is Add) by {
                            assert(nodes[e.raw() as int].operands()[k] == params@[k]);
                        }
                    }
                    while j < params.len()
                        invariant
                            j <= params.len(),
                            params@ == parts,
                            nodes == self.nodes(),
                            forall|k: int|
                                0 <= k < params@.len() ==> (#[trigger] params@[k]).raw()
                                    < nodes.len() && !(nodes[params@[k].raw() as int] is Add),
                            done == base + parts.take(j as int),
                            terms@ == non_literals(nodes, done),
                            sum == wrap(literal_total(nodes, done)),
                            forall|k: int|
                                0 <= k < terms@.len() ==> (#[trigger] terms@[k]).raw()
                                    < nodes.len() && !(nodes[terms@[k].raw() as int] is Add)
                                    && literal_at(nodes, terms@[k]) is None,
                        decreases params.len() - j,
                    {
                        let part = params[j];
                        self.take_summand(part, &mut terms, &mut sum, Ghost(done));
                        proof {
                            done = done.push(part);
                            assert(base + parts.take(j + 1) =~= (base + parts.take(j as int)).push(
                                part,
                            ));
                        }
                        j += 1;
                    }
                    proof {
                        assert(parts.take(parts.len() as int) =~= parts);
                    }
                },
                _ => {
                    self.take_summand(e, &mut terms, &mut sum, Ghost(done));
                    proof {
                        done = done.push(e);
                        assert(base + parts =~= base.push(e));
                    }
                },
            }
            i += 1;
        }
        proof {
            assert(exprs@.take(exprs@.len() as int) =~= exprs@);
        }
        let ghost terms0 = terms@;
        if sum != 0 {
            let literal = self.literal_expr(sum);
            terms.push(literal);
        }
        let ghost table = self.nodes();
        let ghost all = terms@;
        proof {
            self.lemma_wf();
            assert forall|k: int| 0 <= k < terms0.len() implies literal_at(
                table,
                #[trigger] terms0[k],
            ) is None && table[terms0[k].raw() as int] == nodes[terms0[k].raw() as int] by {
                assert(terms0[k].raw() < nodes.len());
            }
            assert forall|k: int| 0 <= k < all.len() implies (#[trigger] all[k]).raw() < table.len()
                && !(table[all[k].raw() as int] is Add) && literal_at(table, all[k]) != Some(
                0u32,
            ) by {
                if k < terms0.len() {
                    assert(all[k] == terms0[k]);
                }
            }
        }
        if terms.len() == 0 {
            let r = self.literal_expr(0);
            proof {
                lemma_extends_twice(nodes, table, self.nodes());
            }
            r
        } else if terms.len() == 1 {
            terms[0]
        } else {
            let operands = sort_refs(&terms);
            proof {
                lemma_sorted(all);
                lemma_sorted_operands(table, terms0, all);
                let s = operands@;
                let node = Node::<V>::Add(s);
                assert forall|k: int| 0 <= k < s.len() implies (#[trigger] s[k]).raw() < table.len()
                    && !(table[s[k].raw() as int] is Add) && literal_at(table, s[k]) != Some(
                    0u32,
                ) by {
                    assert(all.contains(s[k]));
                    let a = choose|a: int| 0 <= a < all.len() && all[a] == s[k];
                    assert(all[a].raw() < table.len());
                }
                assert(node.operands() == s);
                assert(node_ok(table, node, table.len() as int));
            }
            let r = self.intern_expr(Expr::Add(operands));
            proof {
                lemma_extends_twice(nodes, table, self.nodes());
            }
            r
        }
    }

    pub fn mul_expr(&mut self, exprs: Vec<ExprRef>) -> (r: ExprRef)
        requires
            old(self).wf(),
            forall|k: int| 0 <= k < exprs@.len() ==> old(self).valid(#[trigger] exprs@[k]),
        ensures
            final(self).wf(),
            (final(self).nodes(), r) == mul_normal(old(self).nodes(), exprs@),
            final(self).assignments() == old(self).assignments(),
            final(self).valid(r),
            extends_without_variables(old(self).nodes(), final(self).nodes()),
    {
        let ghost nodes = self.nodes();
        let mut terms: Vec<ExprRef> = Vec::new();
        let mut product: u32 = 1;
        let ghost mut done: Seq<ExprRef> = Seq::empty();
        let mut i: usize = 0;
        proof {
            self.lemma_wf();
            reveal(Seq::filter);
            assert(non_literals(nodes, done) =~= Seq::<ExprRef>::empty());
        }
        while i < exprs.len()
            invariant
                *self == *old(self),
                self.wf(),
                nodes == self.nodes(),
                table_wf(nodes),
                i <= exprs.len(),
                forall|k: int| 0 <= k < exprs@.len() ==> self.valid(#[trigger] exprs@[k]),
                done == flatten(exprs@.take(i as int), mul_parts(nodes)),
                terms@ == non_literals(nodes, done),
                product == wrap(literal_product(nodes, done)),
                forall|k: int|
                    0 <= k < terms@.len() ==> (#[trigger] terms@[k]).raw() < nodes.len() && !(
                    nodes[terms@[k].raw() as int] is Mul) && literal_at(nodes, terms@[k]) is None,
            decreases exprs.len() - i,
        {
            let e = exprs[i];
            let ghost parts = mul_parts(nodes)(e);
            let ghost base = done;
            proof {
                assert(exprs@.take(i + 1).drop_last() =~= exprs@.take(i as int));
                assert(exprs@.take(i + 1).last() == e);
                assert(node_ok(nodes, nodes[e.raw() as int], e.raw() as int));
            }
            match self.get_expr(e) {
                Expr::Mul(params) => {
                    let mut j: usize = 0;
                    proof {
                        assert(base + parts.take(0) =~= base);
                        assert forall|k: int| 0 <= k < params@.len() implies (
                        #[trigger] params@[k]).raw() < nodes.len() && !(nodes[params@[k].raw() as int] is Mul) by {
                            assert(nodes[e.raw() as int].operands()[k] == params@[k]);
                        }
                    }
                    while j < params.len()
                        invariant
                            j <= params.len(),
                            params@ == parts,
                            nodes == self.nodes(),
                            forall|k: int|
                                0 <= k < params@.len() ==> (#[trigger] params@[k]).raw()
                                    < nodes.len() && !(nodes[params@[k].raw() as int] is Mul),
                            done == base + parts.take(j as int),
                            terms@ == non_literals(nodes, done),
                            product == wrap(literal_product(nodes, done)),
                            forall|k: int|
                                0 <= k < terms@.len() ==> (#[trigger] terms@[k]).raw()
                                    < nodes.len() && !(nodes[terms@[k].raw() as int] is Mul)
                                    && literal_at(nodes, terms@[k]) is None,
                        decreases params.len() - j,
                    {
                        let part = params[j];
                        self.take_factor(part, &mut terms, &mut product, Ghost(done));
                        proof {
                            done = done.push(part);
                            assert(base + parts.take(j + 1) =~= (base + parts.take(j as int)).push(
                                part,
                            ));
                        }
                        j += 1;
                    }
                    proof {
                        assert(parts.take(parts.len() as int) =~= parts);
                    }
                },
                _ => {
                    self.take_factor(e, &mut terms, &mut product, Ghost(done));
                    proof {
                        done = done.push(e);
                        assert(base + parts =~= base.push(e));
                    }
                },
            }
            i += 1;
        }
        proof {
            assert(exprs@.take(exprs@.len() as int) =~= exprs@);
        }
        let ghost terms0 = terms@;
        if product == 0 {
            return self.literal_expr(0);
        }
        if product != 1 {
            let literal = self.literal_expr(product);
            terms.push(literal);
        }
        let ghost table = self.nodes();
        let ghost all = terms@;
        proof {
            self.lemma_wf();
            assert forall|k: int| 0 <= k < terms0.len() implies literal_at(
                table,
                #[trigger] terms0[k],
            ) is None && table[terms0[k].raw() as int] == nodes[terms0[k].raw() as int] by {
                assert(terms0[k].raw() < nodes.len());
            }
            assert forall|k: int| 0 <= k < all.len() implies (#[trigger] all[k]).raw() < table.len()
                && !(table[all[k].raw() as int] is Mul) && literal_at(table, all[k]) != Some(
                0u32,
            ) && literal_at(table, all[k]) != Some(1u32) by {
                if k < terms0.len() {
                    assert(all[k] == terms0[k]);
                }
            }
        }
        if terms.len() == 0 {
            let r = self.literal_expr(1);
            proof {
                lemma_extends_twice(nodes, table, self.nodes());
            }
            r
        } else if terms.len() == 1 {
            terms[0]
        } else {
            let operands = sort_refs(&terms);
            proof {
                lemma_sorted(all);
                lemma_sorted_operands(table, terms0, all);
                let s = operands@;
                let node = Node::<V>::Mul(s);
                assert forall|k: int| 0 <= k < s.len() implies (#[trigger] s[k]).raw() < table.len()
                    && !(table[s[k].raw() as int] is Mul) && literal_at(table, s[k]) != Some(
                    0u32,
                ) && literal_at(table, s[k]) != Some(1u32) by {
                    assert(all.contains(s[k]));
                    let a = choose|a: int| 0 <= a < all.len() && all[a] == s[k];
                    assert(all[a].raw() < table.len());
                }
                assert(node.operands() == s);
                assert(node_ok(table, node, table.len() as int));
            }
            let r = self.intern_expr(Expr::Mul(operands));
            proof {
                lemma_extends_twice(nodes, table, self.nodes());
            }
            r
        }
    }

    pub fn phi_expr(&mut self, variables: Vec<ExprRef>) -> (r: ExprRef)
        requires
            old(self).wf(),
            forall|k: int| 0 <= k < variables@.len() ==> old(self).valid(#[trigger] variables@[k]),
        ensures
            final(self).wf(),
            (final(self).nodes(), r) == phi_normal(old(self).nodes(), variables@),
            final(self).assignments() == old(self).assignments(),
            final(self).valid(r),
            final(self).node(r) is Phi,
            extends_without_variables(old(self).nodes(), final(self).nodes()),
    {
        let ghost nodes = self.nodes();
        let mut flat: Vec<ExprRef> = Vec::new();
        let mut i: usize = 0;
        proof {
            self.lemma_wf();
        }
        while i < variables.len()
            invariant
                *self == *old(self),
                self.wf(),
                nodes == self.nodes(),
                table_wf(nodes),
                i <= variables.len(),
                forall|k: int| 0 <= k < variables@.len() ==> self.valid(#[trigger] variables@[k]),
                flat@ == flatten(variables@.take(i as int), phi_parts(nodes)),
                forall|k: int|
                    0 <= k < flat@.len() ==> (#[trigger] flat@[k]).raw() < nodes.len() && !(
                    nodes[flat@[k].raw() as int] is Phi),
            decreases variables.len() - i,
        {
            let e = variables[i];
            let ghost parts = phi_parts(nodes)(e);
            let ghost base = flat@;
            proof {
                assert(variables@.take(i + 1).drop_last() =~= variables@.take(i as int));
                assert(variables@.take(i + 1).last() == e);
                assert(node_ok(nodes, nodes[e.raw() as int], e.raw() as int));
            }
            match self.get_expr(e) {
                Expr::Phi(params) => {
                    let mut j: usize = 0;
                    proof {
                        assert(base + parts.take(0) =~= base);
                        assert forall|k: int| 0 <= k < params@.len() implies (
                        #[trigger] params@[k]).raw() < nodes.len() && !(nodes[params@[k].raw() as int] is Phi) by {
                            assert(nodes[e.raw() as int].operands()[k] == params@[k]);
                        }
                    }
                    while j < params.len()
                        invariant
                            j <= params.len(),
                            params@ == parts,
                            forall|k: int|
                                0 <= k < params@.len() ==> (#[trigger] params@[k]).raw()
                                    < nodes.len() && !(nodes[params@[k].raw() as int] is Phi),
                            flat@ == base + parts.take(j as int),
                            forall|k: int|
                                0 <= k < flat@.len() ==> (#[trigger] flat@[k]).raw() < nodes.len()
                                    && !(nodes[flat@[k].raw() as int] is Phi),
                        decreases params.len() - j,
                    {
                        flat.push(params[j]);
                        proof {
                            assert(base + parts.take(j + 1) =~= (base + parts.take(j as int)).push(
                                params@[j as int],
                            ));
                        }
                        j += 1;
                    }
                    proof {
                        assert(parts.take(parts.len() as int) =~= parts);
                    }
                },
                _ => {
                    flat.push(e);
                    proof {
                        assert(base + parts =~= base.push(e));
                    }
                },
            }
            i += 1;
        }
        proof {
            assert(variables@.take(variables@.len() as int) =~= variables@);
        }
        let operands = sort_refs(&flat);
        proof {
            lemma_sorted(flat@);
            let s = operands@;
            let node = Node::<V>::Phi(s);
            assert forall|k: int| 0 <= k < s.len() implies (#[trigger] s[k]).raw() < nodes.len()
                && !(nodes[s[k].raw() as int] is Phi) by {
                assert(s.contains(s[k]));
                assert(flat@.contains(s[k]));
                let a = choose|a: int| 0 <= a < flat@.len() && flat@[a] == s[k];
                assert(flat@[a].raw() < nodes.len());
            }
            assert(node.operands() == s);
            assert(node_ok(nodes, node, nodes.len() as int));
        }
        self.intern_expr(Expr::Phi(operands))
    }

    /// The operands of a bitwise operation in normal form: in order, each
    /// once.
    fn distinct_operands(&self, exprs: &Vec<ExprRef>) -> (r: Vec<ExprRef>)
        requires
            exprs@.len() > 0,
            forall|k: int| 0 <= k < exprs@.len() ==> self.valid(#[trigger] exprs@[k]),
        ensures
            r@ == dedup(sorted(exprs@)),
            r@.len() > 0,
            crate::symbolic::context::strictly_ordered(r@),
            forall|k: int| 0 <= k < r@.len() ==> self.valid(#[trigger] r@[k]),
    {
        let in_order = sort_refs(exprs);
        let operands = dedup_refs(&in_order);
        proof {
            lemma_sorted(exprs@);
            lemma_dedup(in_order@);
            assert forall|k: int| 0 <= k < operands@.len() implies self.valid(
                #[trigger] operands@[k],
            ) by {
                assert(operands@.contains(operands@[k]));
                assert(in_order@.contains(operands@[k]));
                assert(exprs@.contains(operands@[k]));
                let a = choose|a: int| 0 <= a < exprs@.len() && exprs@[a] == operands@[k];
                assert(self.valid(exprs@[a]));
            }
        }
        operands
    }

    pub fn bit_or_expr(&mut self, exprs: Vec<ExprRef>) -> (r: ExprRef)
        requires
            old(self).wf(),
            exprs@.len() > 0,
            forall|k: int| 0 <= k < exprs@.len() ==> old(self).valid(#[trigger] exprs@[k]),
        ensures
            final(self).wf(),
            (final(self).nodes(), r) == bit_or_normal(old(self).nodes(), exprs@),
            final(self).assignments() == old(self).assignments(),
            final(self).valid(r),
            extends_without_variables(old(self).nodes(), final(self).nodes()),
    {
        // Eliminate duplicates.
        let operands = self.distinct_operands(&exprs);
        if operands.len() == 1 {
            // A singleton bit-or is just the given term.
            proof {
                assert(extends_without_variables(self.nodes(), self.nodes()));
            }
            operands[0]
        } else {
            proof {
                assert(Node::<V>::BitOr(operands@).operands() == operands@);
            }
            self.intern_expr(Expr::BitOr(operands))
        }
    }

    pub fn bit_and_expr(&mut self, exprs: Vec<ExprRef>) -> (r: ExprRef)
        requires
            old(self).wf(),
            exprs@.len() > 0,
            forall|k: int| 0 <= k < exprs@.len() ==> old(self).valid(#[trigger] exprs@[k]),
        ensures
            final(self).wf(),
            (final(self).nodes(), r) == bit_and_normal(old(self).nodes(), exprs@),
            final(self).assignments() == old(self).assignments(),
            final(self).valid(r),
            extends_without_variables(old(self).nodes(), final(self).nodes()),
    {
        // Eliminate duplicates.
        let operands = self.distinct_operands(&exprs);
        if operands.len() == 1 {
            // A singleton bit-and is just the given term.
            proof {
                assert(extends_without_variables(self.nodes(), self.nodes()));
            }
            operands[0]
        } else {
            proof {
                assert(Node::<V>::BitAnd(operands@).operands() == operands@);
            }
            self.intern_expr(Expr::BitAnd(operands))
        }
    }
}

} // verus!
