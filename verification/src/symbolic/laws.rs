//! What holds of the normal forms of every well-formed table.

use vstd::prelude::*;

use crate::symbolic::context::interned;
use crate::symbolic::context::lemma_interned_present;
use crate::symbolic::context::lemma_place_unique;
use crate::symbolic::context::literal_at;
use crate::symbolic::context::node_ok;
use crate::symbolic::context::table_wf;
use crate::symbolic::expr::Node;
use crate::symbolic::expr_ref::ExprRef;
use crate::symbolic::normal::add_normal;
use crate::symbolic::normal::add_parts;
use crate::symbolic::normal::equal_normal;
use crate::symbolic::normal::flatten;
use crate::symbolic::normal::lemma_sorted_is;
use crate::symbolic::normal::lemma_sorted_of_permutation;
use crate::symbolic::normal::literal_product;
use crate::symbolic::normal::literal_total;
use crate::symbolic::normal::mul_normal;
use crate::symbolic::normal::mul_parts;
use crate::symbolic::normal::non_literals;
use crate::symbolic::normal::not_literal;
use crate::symbolic::normal::not_normal;
use crate::symbolic::normal::wrap;

verus! {

/// Interning: two references of a well-formed table that stand for equal
/// nodes are equal, and a node that is interned a second time gets the
/// reference that it got the first time, in an unchanged table.
pub proof fn lemma_interning<V>(nodes: Seq<Node<V>>, a: ExprRef, b: ExprRef, node: Node<V>)
    requires
        table_wf(nodes),
    ensures
        a.raw() < nodes.len() && b.raw() < nodes.len() && nodes[a.raw() as int] == nodes[b.raw() as int]
            ==> a == b,
        node_ok(nodes, node, nodes.len() as int) && nodes.len() < usize::MAX ==> interned(
            interned(nodes, node).0,
            node,
        ) == interned(nodes, node),
{
    reveal(interned);
    if a.raw() < nodes.len() && b.raw() < nodes.len() && nodes[a.raw() as int] == nodes[b.raw() as int] {
        lemma_place_unique(nodes, a, b);
    }
    if node_ok(nodes, node, nodes.len() as int) && nodes.len() < usize::MAX {
        let first = interned(nodes, node);
        if nodes.contains(node) {
        } else {
            crate::symbolic::context::lemma_interned(nodes, node);
            assert(first.0[first.1.raw() as int] == node);
            lemma_interned_present(first.0, first.1);
        }
    }
}

/// The parts of two references are those of the first, then those of the
/// second.
proof fn lemma_flatten_pair(x: ExprRef, y: ExprRef, parts: spec_fn(ExprRef) -> Seq<ExprRef>)
    ensures
        flatten(seq![x, y], parts) == parts(x) + parts(y),
{
    let both = seq![x, y];
    assert(both.drop_last() =~= seq![x]);
    assert(seq![x].drop_last() =~= Seq::<ExprRef>::empty());
    assert(flatten(seq![x].drop_last(), parts) == Seq::<ExprRef>::empty());
    assert(flatten(seq![x], parts) =~= parts(x));
    assert(both.last() == y);
}

/// The literals of two sequences add up to the sum of what each adds up to,
/// and multiply likewise.
proof fn lemma_literals_of_concat<V>(nodes: Seq<Node<V>>, a: Seq<ExprRef>, b: Seq<ExprRef>)
    ensures
        literal_total(nodes, a + b) == literal_total(nodes, a) + literal_total(nodes, b),
        literal_product(nodes, a + b) == literal_product(nodes, a) * literal_product(nodes, b),
        non_literals(nodes, a + b) == non_literals(nodes, a) + non_literals(nodes, b),
    decreases b.len(),
{
    Seq::filter_distributes_over_add(a, b, not_literal(nodes));
    if b.len() == 0 {
        assert(a + b =~= a);
    } else {
        assert((a + b).drop_last() =~= a + b.drop_last());
        assert((a + b).last() == b.last());
        lemma_literals_of_concat(nodes, a, b.drop_last());
        let factor: int = match literal_at(nodes, b.last()) {
            Some(literal) => literal as int,
            None => 1,
        };
        assert(literal_product(nodes, a + b) == literal_product(nodes, a) * literal_product(
            nodes,
            b.drop_last(),
        ) * factor);
        assert(literal_product(nodes, a) * literal_product(nodes, b.drop_last()) * factor
            == literal_product(nodes, a) * (literal_product(nodes, b.drop_last()) * factor))
            by (nonlinear_arith);
    }
}

/// Two sequences of one item each with the same items hold the same item.
proof fn lemma_single(a: Seq<ExprRef>, b: Seq<ExprRef>)
    requires
        a.len() == 1,
        a.to_multiset() == b.to_multiset(),
    ensures
        b.len() == 1,
        a[0] == b[0],
{
    broadcast use vstd::seq_lib::group_to_multiset_ensures;

    vstd::seq_lib::to_multiset_len(a);
    vstd::seq_lib::to_multiset_len(b);
    assert(a.contains(a[0]));
    assert(b.to_multiset().count(a[0]) > 0);
    assert(b.contains(a[0]));
}

/// A sum does not depend on the order of its two operands.
pub proof fn lemma_add_commutes<V>(nodes: Seq<Node<V>>, x: ExprRef, y: ExprRef)
    ensures
        add_normal(nodes, seq![x, y]) == add_normal(nodes, seq![y, x]),
{
    broadcast use vstd::seq_lib::group_to_multiset_ensures;

    let parts = add_parts(nodes);
    lemma_flatten_pair(x, y, parts);
    lemma_flatten_pair(y, x, parts);
    let a = parts(x);
    let b = parts(y);
    lemma_literals_of_concat(nodes, a, b);
    lemma_literals_of_concat(nodes, b, a);
    let sum = wrap(literal_total(nodes, a + b));
    let terms1 = non_literals(nodes, a + b);
    let terms2 = non_literals(nodes, b + a);
    vstd::seq_lib::lemma_multiset_commutative(non_literals(nodes, a), non_literals(nodes, b));
    vstd::seq_lib::lemma_multiset_commutative(non_literals(nodes, b), non_literals(nodes, a));
    assert(terms1.to_multiset() =~= terms2.to_multiset());
    let literal = interned(nodes, Node::<V>::Literal(sum));
    let all1 = if sum != 0 {
        terms1.push(literal.1)
    } else {
        terms1
    };
    let all2 = if sum != 0 {
        terms2.push(literal.1)
    } else {
        terms2
    };
    assert(all1.to_multiset() =~= all2.to_multiset());
    vstd::seq_lib::to_multiset_len(all1);
    vstd::seq_lib::to_multiset_len(all2);
    if all1.len() == 1 {
        lemma_single(all1, all2);
    } else if all1.len() >= 2 {
        lemma_sorted_of_permutation(all1, all2);
    }
}

/// A product does not depend on the order of its two operands.
pub proof fn lemma_mul_commutes<V>(nodes: Seq<Node<V>>, x: ExprRef, y: ExprRef)
    ensures
        mul_normal(nodes, seq![x, y]) == mul_normal(nodes, seq![y, x]),
{
    broadcast use vstd::seq_lib::group_to_multiset_ensures;

    let parts = mul_parts(nodes);
    lemma_flatten_pair(x, y, parts);
    lemma_flatten_pair(y, x, parts);
    let a = parts(x);
    let b = parts(y);
    lemma_literals_of_concat(nodes, a, b);
    lemma_literals_of_concat(nodes, b, a);
    assert(literal_product(nodes, a) * literal_product(nodes, b) == literal_product(nodes, b)
        * literal_product(nodes, a)) by (nonlinear_arith);
    let product = wrap(literal_product(nodes, a + b));
    let terms1 = non_literals(nodes, a + b);
    let terms2 = non_literals(nodes, b + a);
    vstd::seq_lib::lemma_multiset_commutative(non_literals(nodes, a), non_literals(nodes, b));
    vstd::seq_lib::lemma_multiset_commutative(non_literals(nodes, b), non_literals(nodes, a));
    assert(terms1.to_multiset() =~= terms2.to_multiset());
    let literal = interned(nodes, Node::<V>::Literal(product));
    let all1 = if product != 1 {
        terms1.push(literal.1)
    } else {
        terms1
    };
    let all2 = if product != 1 {
        terms2.push(literal.1)
    } else {
        terms2
    };
    assert(all1.to_multiset() =~= all2.to_multiset());
    vstd::seq_lib::to_multiset_len(all1);
    vstd::seq_lib::to_multiset_len(all2);
    if all1.len() == 1 {
        lemma_single(all1, all2);
    } else if all1.len() >= 2 {
        lemma_sorted_of_permutation(all1, all2);
    }
}

/// Of no references at all, none is left when the literals are taken out.
proof fn lemma_none<V>(nodes: Seq<Node<V>>)
    ensures
        non_literals(nodes, Seq::<ExprRef>::empty()) == Seq::<ExprRef>::empty(),
{
    reveal(Seq::filter);
    assert(non_literals(nodes, Seq::<ExprRef>::empty()) =~= Seq::<ExprRef>::empty());
}

/// Of a single reference: what its literal adds and multiplies up to, and
/// whether it is left when the literals are taken out.
proof fn lemma_one<V>(nodes: Seq<Node<V>>, x: ExprRef)
    ensures
        literal_total(nodes, seq![x]) == match literal_at(nodes, x) {
            Some(literal) => literal as int,
            None => 0,
        },
        literal_product(nodes, seq![x]) == match literal_at(nodes, x) {
            Some(literal) => literal as int,
            None => 1,
        },
        non_literals(nodes, seq![x]) == if literal_at(nodes, x) is None {
            seq![x]
        } else {
            Seq::<ExprRef>::empty()
        },
{
    let empty = Seq::<ExprRef>::empty();
    lemma_none(nodes);
    assert(seq![x].drop_last() =~= empty);
    assert(seq![x].last() == x);
    assert(literal_total(nodes, seq![x].drop_last()) == 0);
    assert(literal_product(nodes, seq![x].drop_last()) == 1);
    empty.lemma_filter_push(x, not_literal(nodes));
    assert(empty.push(x) =~= seq![x]);
}

/// Of references none of which stands for a literal: the literals add up to
/// zero and multiply up to one, and all are left when the literals are taken
/// out.
proof fn lemma_no_literal<V>(nodes: Seq<Node<V>>, s: Seq<ExprRef>)
    requires
        forall|k: int| 0 <= k < s.len() ==> literal_at(nodes, #[trigger] s[k]) is None,
    ensures
        literal_total(nodes, s) == 0,
        literal_product(nodes, s) == 1,
        non_literals(nodes, s) == s,
    decreases s.len(),
{
    if s.len() == 0 {
        lemma_none(nodes);
        assert(s =~= Seq::<ExprRef>::empty());
    } else {
        let rest = s.drop_last();
        let last = s.last();
        assert(s =~= rest.push(last));
        assert forall|k: int| 0 <= k < rest.len() implies literal_at(
            nodes,
            #[trigger] rest[k],
        ) is None by {
            assert(rest[k] == s[k]);
        }
        lemma_no_literal(nodes, rest);
        rest.lemma_filter_push(last, not_literal(nodes));
        assert(literal_at(nodes, s[s.len() - 1]) is None);
    }
}

/// Of references of which the one at `m` alone stands for a literal: the
/// literals add up and multiply up to that literal, and the others are left
/// when the literals are taken out.
proof fn lemma_one_literal<V>(nodes: Seq<Node<V>>, s: Seq<ExprRef>, m: int)
    requires
        0 <= m < s.len(),
        literal_at(nodes, s[m]) is Some,
        forall|k: int| 0 <= k < s.len() && k != m ==> literal_at(nodes, #[trigger] s[k]) is None,
    ensures
        literal_total(nodes, s) == literal_at(nodes, s[m])->0,
        literal_product(nodes, s) == literal_at(nodes, s[m])->0,
        non_literals(nodes, s) == s.remove(m),
{
    let before = s.take(m);
    let after = s.skip(m + 1);
    let x = s[m];
    assert(s =~= (before + seq![x]) + after);
    assert forall|k: int| 0 <= k < before.len() implies literal_at(
        nodes,
        #[trigger] before[k],
    ) is None by {
        assert(before[k] == s[k]);
    }
    assert forall|k: int| 0 <= k < after.len() implies literal_at(
        nodes,
        #[trigger] after[k],
    ) is None by {
        assert(after[k] == s[k + m + 1]);
    }
    lemma_no_literal(nodes, before);
    lemma_no_literal(nodes, after);
    lemma_one(nodes, x);
    lemma_literals_of_concat(nodes, before, seq![x]);
    lemma_literals_of_concat(nodes, before + seq![x], after);
    assert(s.remove(m) =~= before + after);
    assert(before + Seq::<ExprRef>::empty() + after =~= before + after);
}

/// A sum with the literal 0 is the other operand.
pub proof fn lemma_add_zero<V>(nodes: Seq<Node<V>>, x: ExprRef, zero: ExprRef)
    requires
        table_wf(nodes),
        x.raw() < nodes.len(),
        literal_at(nodes, zero) == Some(0u32),
    ensures
        add_normal(nodes, seq![x, zero]) == (nodes, x),
        add_normal(nodes, seq![zero, x]) == (nodes, x),
{
    reveal(interned);
    let parts = add_parts(nodes);
    lemma_add_commutes(nodes, x, zero);
    lemma_flatten_pair(x, zero, parts);
    let a = parts(x);
    assert(parts(zero) == seq![zero]);
    lemma_literals_of_concat(nodes, a, seq![zero]);
    lemma_one(nodes, zero);
    lemma_one(nodes, x);
    let flat = a + seq![zero];
    let terms = non_literals(nodes, flat);
    assert(terms =~= non_literals(nodes, a));
    assert(literal_total(nodes, flat) == literal_total(nodes, a));
    assert(node_ok(nodes, nodes[x.raw() as int], x.raw() as int));
    lemma_interned_present(nodes, x);
    lemma_interned_present(nodes, zero);
    match nodes[x.raw() as int] {
        Node::Literal(literal) => {
            assert(a == seq![x]);
            if literal == 0 {
                lemma_place_unique(nodes, x, zero);
            }
        },
        Node::Add(params) => {
            assert(a == params);
            assert forall|k: int| 0 <= k < params.len() implies (#[trigger] params[k]).raw()
                < nodes.len() by {
                assert(nodes[x.raw() as int].operands()[k] == params[k]);
            }
            if forall|k: int|
                0 <= k < params.len() ==> literal_at(nodes, #[trigger] params[k]) is None {
                lemma_no_literal(nodes, params);
                lemma_sorted_is(params, params);
            } else {
                let m = choose|m: int|
                    0 <= m < params.len() && !(literal_at(nodes, #[trigger] params[m]) is None);
                assert forall|k: int| 0 <= k < params.len() && k != m implies literal_at(
                    nodes,
                    #[trigger] params[k],
                ) is None by {
                    if k < m {
                        assert(!(literal_at(nodes, params[k]) is Some && literal_at(
                            nodes,
                            params[m],
                        ) is Some));
                    } else {
                        assert(!(literal_at(nodes, params[m]) is Some && literal_at(
                            nodes,
                            params[k],
                        ) is Some));
                    }
                }
                lemma_one_literal(nodes, params, m);
                let value = literal_at(nodes, params[m])->0;
                assert(value != 0);
                assert(wrap(value as int) == value);
                lemma_interned_present(nodes, params[m]);
                let all = params.remove(m).push(params[m]);
                lemma_removed_and_pushed(params, m);
                lemma_sorted_is(all, params);
            }
        },
        _ => {
            assert(a == seq![x]);
        },
    }
}

/// Taking an item out of a sequence and putting it at the end leaves the
/// same items.
proof fn lemma_removed_and_pushed(s: Seq<ExprRef>, m: int)
    requires
        0 <= m < s.len(),
    ensures
        s.remove(m).push(s[m]).to_multiset() == s.to_multiset(),
{
    broadcast use vstd::seq_lib::group_to_multiset_ensures;

    assert(s.contains(s[m]));
    assert(s.remove(m).push(s[m]).to_multiset() =~= s.to_multiset());
}

/// A product with the literal 0 is the literal 0.
pub proof fn lemma_mul_zero<V>(nodes: Seq<Node<V>>, x: ExprRef, zero: ExprRef)
    requires
        table_wf(nodes),
        literal_at(nodes, zero) == Some(0u32),
    ensures
        mul_normal(nodes, seq![x, zero]) == (nodes, zero),
        mul_normal(nodes, seq![zero, x]) == (nodes, zero),
{
    let parts = mul_parts(nodes);
    lemma_mul_commutes(nodes, x, zero);
    lemma_flatten_pair(x, zero, parts);
    let a = parts(x);
    assert(parts(zero) == seq![zero]);
    lemma_literals_of_concat(nodes, a, seq![zero]);
    lemma_one(nodes, zero);
    assert(literal_product(nodes, a) * 0 == 0) by (nonlinear_arith);
    lemma_interned_present(nodes, zero);
}

/// A product with the literal 1 is the other operand.
pub proof fn lemma_mul_one<V>(nodes: Seq<Node<V>>, x: ExprRef, one: ExprRef)
    requires
        table_wf(nodes),
        x.raw() < nodes.len(),
        literal_at(nodes, one) == Some(1u32),
    ensures
        mul_normal(nodes, seq![x, one]) == (nodes, x),
        mul_normal(nodes, seq![one, x]) == (nodes, x),
{
    reveal(interned);
    let parts = mul_parts(nodes);
    lemma_mul_commutes(nodes, x, one);
    lemma_flatten_pair(x, one, parts);
    let a = parts(x);
    assert(parts(one) == seq![one]);
    lemma_literals_of_concat(nodes, a, seq![one]);
    lemma_one(nodes, one);
    lemma_one(nodes, x);
    let flat = a + seq![one];
    let terms = non_literals(nodes, flat);
    assert(terms =~= non_literals(nodes, a));
    assert(literal_product(nodes, flat) == literal_product(nodes, a)) by {
        assert(literal_product(nodes, a) * 1 == literal_product(nodes, a)) by (nonlinear_arith);
    }
    assert(node_ok(nodes, nodes[x.raw() as int], x.raw() as int));
    lemma_interned_present(nodes, x);
    lemma_interned_present(nodes, one);
    match nodes[x.raw() as int] {
        Node::Literal(literal) => {
            assert(a == seq![x]);
            assert(wrap(literal as int) == literal);
            if literal == 1 {
                lemma_place_unique(nodes, x, one);
            }
        },
        Node::Mul(params) => {
            assert(a == params);
            assert forall|k: int| 0 <= k < params.len() implies (#[trigger] params[k]).raw()
                < nodes.len() by {
                assert(nodes[x.raw() as int].operands()[k] == params[k]);
            }
            if forall|k: int|
                0 <= k < params.len() ==> literal_at(nodes, #[trigger] params[k]) is None {
                lemma_no_literal(nodes, params);
                lemma_sorted_is(params, params);
            } else {
                let m = choose|m: int|
                    0 <= m < params.len() && !(literal_at(nodes, #[trigger] params[m]) is None);
                assert forall|k: int| 0 <= k < params.len() && k != m implies literal_at(
                    nodes,
                    #[trigger] params[k],
                ) is None by {
                    if k < m {
                        assert(!(literal_at(nodes, params[k]) is Some && literal_at(
                            nodes,
                            params[m],
                        ) is Some));
                    } else {
                        assert(!(literal_at(nodes, params[m]) is Some && literal_at(
                            nodes,
                            params[k],
                        ) is Some));
                    }
                }
                lemma_one_literal(nodes, params, m);
                let value = literal_at(nodes, params[m])->0;
                assert(value != 0 && value != 1);
                assert(wrap(value as int) == value);
                lemma_interned_present(nodes, params[m]);
                let all = params.remove(m).push(params[m]);
                lemma_removed_and_pushed(params, m);
                lemma_sorted_is(all, params);
            }
        },
        _ => {
            assert(a == seq![x]);
        },
    }
}

/// The complement of the complement of an expression is the expression.
pub proof fn lemma_not_not<V>(nodes: Seq<Node<V>>, x: ExprRef)
    requires
        table_wf(nodes),
        x.raw() < nodes.len(),
        nodes.len() < usize::MAX,
    ensures
        not_normal(not_normal(nodes, x).0, not_normal(nodes, x).1).1 == x,
        not_normal(not_normal(nodes, x).0, not_normal(nodes, x).1).0 == not_normal(nodes, x).0,
{
    reveal(interned);
    let once = not_normal(nodes, x);
    assert(node_ok(nodes, nodes[x.raw() as int], x.raw() as int));
    match nodes[x.raw() as int] {
        Node::Literal(literal) => {
            let flipped = Node::<V>::Literal(!literal);
            if !nodes.contains(flipped) {
                crate::symbolic::context::lemma_interned(nodes, flipped);
            }
            assert(once.0[once.1.raw() as int] == flipped);
            assert(!(!literal) == literal) by (bit_vector);
            assert(once.0[x.raw() as int] == nodes[x.raw() as int]);
            if nodes.contains(flipped) {
                lemma_interned_present(once.0, x);
            } else {
                crate::symbolic::context::lemma_interned(nodes, flipped);
                lemma_interned_present(once.0, x);
            }
        },
        Node::Not(inner) => {
            assert(nodes[x.raw() as int].operands()[0] == inner);
            lemma_interned_present(nodes, x);
        },
        _ => {
            let node = Node::<V>::Not(x);
            assert(node.operands()[0] == x);
            if !nodes.contains(node) {
                crate::symbolic::context::lemma_interned(nodes, node);
            }
        },
    }
}

/// An expression equals itself: the comparison is the literal 1.
pub proof fn lemma_equal_self<V>(nodes: Seq<Node<V>>, x: ExprRef)
    ensures
        equal_normal(nodes, x, x) == interned(nodes, Node::<V>::Literal(1)),
{
}

} // verus!
