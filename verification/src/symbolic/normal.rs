//! The normal forms of the expression graph, as functions on its table.

use vstd::prelude::*;
use vstd::relations::sorted_by;
use vstd::relations::total_ordering;

use crate::symbolic::context::interned;
use crate::symbolic::context::literal_at;
use crate::symbolic::context::ordered;
use crate::symbolic::context::strictly_ordered;
use crate::symbolic::expr::Node;
use crate::symbolic::expr_ref::ExprRef;

verus! {

/// The order of references: that of their indices.
pub open spec fn ref_leq() -> spec_fn(ExprRef, ExprRef) -> bool {
    |a: ExprRef, b: ExprRef| a.raw() <= b.raw()
}

/// The references in ascending order of their indices.
pub open spec fn sorted(refs: Seq<ExprRef>) -> Seq<ExprRef> {
    refs.sort_by(ref_leq())
}

/// A sequence without the items that repeat the one before them.
pub open spec fn dedup(refs: Seq<ExprRef>) -> Seq<ExprRef>
    decreases refs.len(),
{
    if refs.len() == 0 {
        refs
    } else if refs.len() == 1 {
        refs
    } else if refs[refs.len() - 2] == refs.last() {
        dedup(refs.drop_last())
    } else {
        dedup(refs.drop_last()).push(refs.last())
    }
}

/// A number reduced to 32 bits.
pub open spec fn wrap(x: int) -> u32 {
    (x % 0x1_0000_0000) as u32
}

/// A 32-bit word read as a two's complement number.
pub open spec fn signed(x: u32) -> int {
    if x < 0x8000_0000 {
        x as int
    } else {
        x - 0x1_0000_0000
    }
}

/// The parts of each reference, one after the other.
pub open spec fn flatten(refs: Seq<ExprRef>, parts: spec_fn(ExprRef) -> Seq<ExprRef>) -> Seq<ExprRef>
    decreases refs.len(),
{
    if refs.len() == 0 {
        Seq::empty()
    } else {
        flatten(refs.drop_last(), parts) + parts(refs.last())
    }
}

/// The summands of an expression: those of a sum, or the expression itself.
pub open spec fn add_parts<V>(nodes: Seq<Node<V>>) -> spec_fn(ExprRef) -> Seq<ExprRef> {
    |e: ExprRef|
        match nodes[e.raw() as int] {
            Node::Add(params) => params,
            _ => seq![e],
        }
}

/// The factors of an expression: those of a product, or the expression
/// itself.
pub open spec fn mul_parts<V>(nodes: Seq<Node<V>>) -> spec_fn(ExprRef) -> Seq<ExprRef> {
    |e: ExprRef|
        match nodes[e.raw() as int] {
            Node::Mul(params) => params,
            _ => seq![e],
        }
}

/// The alternatives of an expression: those of a φ, or the expression
/// itself.
pub open spec fn phi_parts<V>(nodes: Seq<Node<V>>) -> spec_fn(ExprRef) -> Seq<ExprRef> {
    |e: ExprRef|
        match nodes[e.raw() as int] {
            Node::Phi(params) => params,
            _ => seq![e],
        }
}

/// Whether a reference does not stand for a literal.
pub open spec fn not_literal<V>(nodes: Seq<Node<V>>) -> spec_fn(ExprRef) -> bool {
    |e: ExprRef| literal_at(nodes, e) is None
}

/// The references that do not stand for a literal, in their order.
pub open spec fn non_literals<V>(nodes: Seq<Node<V>>, refs: Seq<ExprRef>) -> Seq<ExprRef> {
    refs.filter(not_literal(nodes))
}

/// The sum of the literals among the references.
pub open spec fn literal_total<V>(nodes: Seq<Node<V>>, refs: Seq<ExprRef>) -> int
    decreases refs.len(),
{
    if refs.len() == 0 {
        0
    } else {
        literal_total(nodes, refs.drop_last()) + match literal_at(nodes, refs.last()) {
            Some(literal) => literal as int,
            None => 0,
        }
    }
}

/// The product of the literals among the references.
pub open spec fn literal_product<V>(nodes: Seq<Node<V>>, refs: Seq<ExprRef>) -> int
    decreases refs.len(),
{
    if refs.len() == 0 {
        1
    } else {
        literal_product(nodes, refs.drop_last()) * match literal_at(nodes, refs.last()) {
            Some(literal) => literal as int,
            None => 1,
        }
    }
}

/// The table and the reference that stand for the sum of `refs`: nested
/// sums are flattened, the literals are added up modulo 2^32 and kept as one
/// literal unless they add up to zero; no term left is the literal 0, one
/// term left is the sum, and more are a sum node with its terms in order.
pub open spec fn add_normal<V>(nodes: Seq<Node<V>>, refs: Seq<ExprRef>) -> (Seq<Node<V>>, ExprRef) {
    let flat = flatten(refs, add_parts(nodes));
    let sum = wrap(literal_total(nodes, flat));
    let terms = non_literals(nodes, flat);
    let literal = interned(nodes, Node::Literal(sum));
    let table = if sum != 0 {
        literal.0
    } else {
        nodes
    };
    let all = if sum != 0 {
        terms.push(literal.1)
    } else {
        terms
    };
    if all.len() == 0 {
        interned(table, Node::Literal(0))
    } else if all.len() == 1 {
        (table, all[0])
    } else {
        interned(table, Node::Add(sorted(all)))
    }
}

/// The table and the reference that stand for the product of `refs`:
/// nested products are flattened and the literals are multiplied modulo
/// 2^32; if that gives zero the product is the literal 0, else it is kept
/// as one literal unless it is one; no factor left is the literal 1, one
/// factor left is the product, and more are a product node with its factors
/// in order.
pub open spec fn mul_normal<V>(nodes: Seq<Node<V>>, refs: Seq<ExprRef>) -> (Seq<Node<V>>, ExprRef) {
    let flat = flatten(refs, mul_parts(nodes));
    let product = wrap(literal_product(nodes, flat));
    let terms = non_literals(nodes, flat);
    let literal = interned(nodes, Node::Literal(product));
    let table = if product != 1 {
        literal.0
    } else {
        nodes
    };
    let all = if product != 1 {
        terms.push(literal.1)
    } else {
        terms
    };
    if product == 0 {
        interned(nodes, Node::Literal(0))
    } else if all.len() == 0 {
        interned(table, Node::Literal(1))
    } else if all.len() == 1 {
        (table, all[0])
    } else {
        interned(table, Node::Mul(sorted(all)))
    }
}

/// The table and the reference that stand for the φ of `refs`: nested φ are
/// flattened and the alternatives put in order.
pub open spec fn phi_normal<V>(nodes: Seq<Node<V>>, refs: Seq<ExprRef>) -> (Seq<Node<V>>, ExprRef) {
    interned(nodes, Node::Phi(sorted(flatten(refs, phi_parts(nodes)))))
}

/// The table and the reference that stand for the bitwise or of `refs`:
/// the operands in order, each once; a single one is the result itself.
pub open spec fn bit_or_normal<V>(nodes: Seq<Node<V>>, refs: Seq<ExprRef>) -> (Seq<Node<V>>, ExprRef) {
    let operands = dedup(sorted(refs));
    if operands.len() == 1 {
        (nodes, operands[0])
    } else {
        interned(nodes, Node::BitOr(operands))
    }
}

/// The table and the reference that stand for the bitwise and of `refs`:
/// the operands in order, each once; a single one is the result itself.
pub open spec fn bit_and_normal<V>(nodes: Seq<Node<V>>, refs: Seq<ExprRef>) -> (Seq<Node<V>>, ExprRef) {
    let operands = dedup(sorted(refs));
    if operands.len() == 1 {
        (nodes, operands[0])
    } else {
        interned(nodes, Node::BitAnd(operands))
    }
}

/// The table and the reference that stand for the complement of `e`: that
/// of a literal is a literal, that of a complement is what was complemented.
pub open spec fn not_normal<V>(nodes: Seq<Node<V>>, e: ExprRef) -> (Seq<Node<V>>, ExprRef) {
    match nodes[e.raw() as int] {
        Node::Literal(literal) => interned(nodes, Node::Literal(!literal)),
        Node::Not(inner) => (nodes, inner),
        _ => interned(nodes, Node::Not(e)),
    }
}

/// The table and the reference that stand for `lhs == rhs`: the literal 1
/// for one expression twice, the literal 0 for two literals, else a node
/// with the smaller reference first.
pub open spec fn equal_normal<V>(nodes: Seq<Node<V>>, lhs: ExprRef, rhs: ExprRef) -> (
    Seq<Node<V>>,
    ExprRef,
) {
    if lhs == rhs {
        interned(nodes, Node::Literal(1))
    } else if literal_at(nodes, lhs) is Some && literal_at(nodes, rhs) is Some {
        interned(nodes, Node::Literal(0))
    } else if lhs.raw() < rhs.raw() {
        interned(nodes, Node::Equal(lhs, rhs))
    } else {
        interned(nodes, Node::Equal(rhs, lhs))
    }
}

/// The table and the reference that stand for `lhs < rhs` on two's
/// complement numbers: the literal 0 for one expression twice, the literal of
/// the comparison for two literals, else a node.
pub open spec fn less_signed_normal<V>(nodes: Seq<Node<V>>, lhs: ExprRef, rhs: ExprRef) -> (
    Seq<Node<V>>,
    ExprRef,
) {
    if lhs == rhs {
        interned(nodes, Node::Literal(0))
    } else if literal_at(nodes, lhs) is Some && literal_at(nodes, rhs) is Some {
        interned(
            nodes,
            Node::Literal(
                if signed(literal_at(nodes, lhs)->0) < signed(literal_at(nodes, rhs)->0) {
                    1
                } else {
                    0
                },
            ),
        )
    } else {
        interned(nodes, Node::LessSigned(lhs, rhs))
    }
}

/// The table and the reference that stand for `lhs < rhs` on unsigned
/// numbers: the literal 0 for one expression twice, the literal of the
/// comparison for two literals, else a node.
pub open spec fn less_unsigned_normal<V>(nodes: Seq<Node<V>>, lhs: ExprRef, rhs: ExprRef) -> (
    Seq<Node<V>>,
    ExprRef,
) {
    if lhs == rhs {
        interned(nodes, Node::Literal(0))
    } else if literal_at(nodes, lhs) is Some && literal_at(nodes, rhs) is Some {
        interned(
            nodes,
            Node::Literal(
                if literal_at(nodes, lhs)->0 < literal_at(nodes, rhs)->0 {
                    1
                } else {
                    0
                },
            ),
        )
    } else {
        interned(nodes, Node::LessUnsigned(lhs, rhs))
    }
}

/// The order of references is a total one.
pub proof fn lemma_ref_order_total()
    ensures
        total_ordering(ref_leq()),
{
    let leq = ref_leq();
    assert forall|a: ExprRef, b: ExprRef| #[trigger] leq(a, b) && #[trigger] leq(b, a) implies a
        == b by {
        assert(a.raw() == b.raw());
    }
}

/// What `sorted` gives: the same references, in order.
pub proof fn lemma_sorted(refs: Seq<ExprRef>)
    ensures
        ordered(sorted(refs)),
        sorted(refs).to_multiset() == refs.to_multiset(),
        sorted(refs).len() == refs.len(),
        forall|e: ExprRef| #[trigger] sorted(refs).contains(e) <==> refs.contains(e),
{
    broadcast use vstd::seq_lib::group_to_multiset_ensures;

    lemma_ref_order_total();
    refs.lemma_sort_by_ensures(ref_leq());
    let s = sorted(refs);
    vstd::seq_lib::to_multiset_len(s);
    vstd::seq_lib::to_multiset_len(refs);
    assert forall|i: int, j: int| 0 <= i < j < s.len() implies s[i].raw() <= s[j].raw() by {
        assert(ref_leq()(s[i], s[j]));
    }
    assert forall|e: ExprRef| #[trigger] s.contains(e) <==> refs.contains(e) by {
        assert(s.to_multiset().count(e) == refs.to_multiset().count(e));
    }
}

/// A sequence in order with the same references as `refs` is `sorted(refs)`.
pub proof fn lemma_sorted_is(refs: Seq<ExprRef>, result: Seq<ExprRef>)
    requires
        ordered(result),
        result.to_multiset() == refs.to_multiset(),
    ensures
        result == sorted(refs),
{
    lemma_ref_order_total();
    lemma_sorted(refs);
    let s = sorted(refs);
    assert(sorted_by(s, ref_leq()));
    assert(sorted_by(result, ref_leq()));
    vstd::seq_lib::lemma_sorted_unique(result, s, ref_leq());
}

/// Two sequences with the same references, in whatever order, are sorted to
/// the same sequence.
pub proof fn lemma_sorted_of_permutation(a: Seq<ExprRef>, b: Seq<ExprRef>)
    requires
        a.to_multiset() == b.to_multiset(),
    ensures
        sorted(a) == sorted(b),
{
    lemma_sorted(a);
    lemma_sorted_is(b, sorted(a));
}

/// What `dedup` gives of a sequence in order: the same references, each
/// once, in strict order.
pub proof fn lemma_dedup(refs: Seq<ExprRef>)
    requires
        ordered(refs),
    ensures
        strictly_ordered(dedup(refs)),
        forall|e: ExprRef| #[trigger] dedup(refs).contains(e) <==> refs.contains(e),
        refs.len() > 0 ==> dedup(refs).len() > 0 && dedup(refs).last() == refs.last(),
        dedup(refs).len() <= refs.len(),
    decreases refs.len(),
{
    if refs.len() <= 1 {
    } else {
        let rest = refs.drop_last();
        assert(ordered(rest)) by {
            assert forall|i: int, j: int| 0 <= i < j < rest.len() implies rest[i].raw()
                <= rest[j].raw() by {
                assert(rest[i] == refs[i] && rest[j] == refs[j]);
            }
        }
        lemma_dedup(rest);
        let d = dedup(refs);
        let dr = dedup(rest);
        let last = refs.last();
        assert(rest.last() == refs[refs.len() - 2]);
        assert(dr.last() == rest.last());
        assert forall|e: ExprRef| rest.contains(e) implies refs.contains(e) && e.raw()
            <= last.raw() by {
            let m = choose|m: int| 0 <= m < rest.len() && rest[m] == e;
            assert(refs[m] == e);
        }
        assert forall|e: ExprRef| refs.contains(e) implies rest.contains(e) || e == last by {
            let m = choose|m: int| 0 <= m < refs.len() && refs[m] == e;
            if m < rest.len() {
                assert(rest[m] == e);
            }
        }
        assert(refs.contains(last)) by {
            assert(refs[refs.len() - 1] == last);
        }
        if refs[refs.len() - 2] == last {
            assert(d == dr);
            assert(rest.contains(last)) by {
                assert(rest[rest.len() - 1] == last);
            }
        } else {
            assert(d == dr.push(last));
            assert forall|e: ExprRef| #[trigger] d.contains(e) <==> refs.contains(e) by {
                if d.contains(e) {
                    let k = choose|k: int| 0 <= k < d.len() && d[k] == e;
                    if k < dr.len() {
                        assert(dr[k] == e);
                        assert(dr.contains(e));
                    }
                }
                if refs.contains(e) {
                    if rest.contains(e) {
                        assert(dr.contains(e));
                        let m = choose|m: int| 0 <= m < dr.len() && dr[m] == e;
                        assert(d[m] == e);
                    } else {
                        assert(d[d.len() - 1] == e);
                    }
                }
            }
            assert forall|i: int, j: int| 0 <= i < j < d.len() implies d[i].raw() < d[j].raw() by {
                if j == d.len() - 1 {
                    assert(d[i] == dr[i]);
                    assert(dr[i].raw() <= dr.last().raw()) by {
                        if i < dr.len() - 1 {
                            assert(dr[i].raw() < dr[dr.len() - 1].raw());
                        }
                    }
                    assert(refs[refs.len() - 2].raw() <= refs[refs.len() - 1].raw());
                    assert(refs[refs.len() - 2].raw() != last.raw());
                } else {
                    assert(dr[i].raw() < dr[j].raw());
                }
            }
        }
    }
}

} // verus!
