//! A number for each node, by which the nodes of a context are filed: equal
//! nodes have equal numbers.

use vstd::prelude::*;
use vstd::wrapping::u64_specs::wrapping_add;
use vstd::wrapping::u64_specs::wrapping_mul;

use crate::symbolic::expr::Expr;
use crate::symbolic::expr::Node;
use crate::symbolic::expr_ref::ExprRef;
use crate::symbolic::variable::VariableName;

verus! {

/// A number made of two.
pub open spec fn mixed(seed: u64, value: u64) -> u64 {
    wrapping_add(wrapping_mul(seed, 0x100_0000_01b3), value)
}

/// The number of a list of references.
pub open spec fn refs_code(refs: Seq<ExprRef>) -> u64
    decreases refs.len(),
{
    if refs.len() == 0 {
        0
    } else {
        mixed(refs_code(refs.drop_last()), refs.last().raw() as u64)
    }
}

/// The number of a node.
pub open spec fn node_code<V: VariableName>(node: Node<V>) -> u64 {
    match node {
        Node::Literal(literal) => mixed(1, literal as u64),
        Node::Variable(variable) => mixed(2, variable.code()),
        Node::Read(addr) => mixed(3, addr.raw() as u64),
        Node::Phi(params) => mixed(4, refs_code(params)),
        Node::Add(params) => mixed(5, refs_code(params)),
        Node::Mul(params) => mixed(6, refs_code(params)),
        Node::BitOr(params) => mixed(7, refs_code(params)),
        Node::BitAnd(params) => mixed(8, refs_code(params)),
        Node::Not(param) => mixed(9, param.raw() as u64),
        Node::Equal(lhs, rhs) => mixed(mixed(10, lhs.raw() as u64), rhs.raw() as u64),
        Node::LessSigned(lhs, rhs) => mixed(mixed(11, lhs.raw() as u64), rhs.raw() as u64),
        Node::LessUnsigned(lhs, rhs) => mixed(mixed(12, lhs.raw() as u64), rhs.raw() as u64),
    }
}

/// A number made of two.
pub fn mix(seed: u64, value: u64) -> (r: u64)
    ensures
        r == mixed(seed, value),
{
    seed.wrapping_mul(0x100_0000_01b3).wrapping_add(value)
}

/// The number of a list of references.
fn code_of_refs(refs: &Vec<ExprRef>) -> (r: u64)
    ensures
        r == refs_code(refs@),
{
    let mut code: u64 = 0;
    let mut i: usize = 0;
    while i < refs.len()
        invariant
            i <= refs.len(),
            code == refs_code(refs@.take(i as int)),
        decreases refs.len() - i,
    {
        proof {
            assert(refs@.take(i + 1).drop_last() =~= refs@.take(i as int));
            assert(refs@.take(i + 1).last() == refs@[i as int]);
        }
        code = mix(code, refs[i].to_raw() as u64);
        i += 1;
    }
    proof {
        assert(refs@.take(refs@.len() as int) =~= refs@);
    }
    code
}

impl<V: VariableName> Expr<V> {
    /// The number by which the node is filed.
    pub fn code(&self) -> (r: u64)
        ensures
            r == node_code(self@),
    {
        match self {
            Expr::Literal(literal) => mix(1, *literal as u64),
            Expr::Variable(variable) => mix(2, variable.to_code()),
            Expr::Read(addr) => mix(3, addr.to_raw() as u64),
            Expr::Phi(params) => mix(4, code_of_refs(params)),
            Expr::Add(params) => mix(5, code_of_refs(params)),
            Expr::Mul(params) => mix(6, code_of_refs(params)),
            Expr::BitOr(params) => mix(7, code_of_refs(params)),
            Expr::BitAnd(params) => mix(8, code_of_refs(params)),
            Expr::Not(param) => mix(9, param.to_raw() as u64),
            Expr::Equal(lhs, rhs) => mix(mix(10, lhs.to_raw() as u64), rhs.to_raw() as u64),
            Expr::LessSigned(lhs, rhs) => mix(mix(11, lhs.to_raw() as u64), rhs.to_raw() as u64),
            Expr::LessUnsigned(lhs, rhs) => mix(
                mix(12, lhs.to_raw() as u64),
                rhs.to_raw() as u64,
            ),
        }
    }
}

} // verus!
