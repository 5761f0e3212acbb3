//! Addresses as a base and an offset.

use vstd::prelude::*;

use crate::iter_singleton::IteratorExt;
use crate::powerpc_symbolic::Context;
use crate::powerpc_symbolic::Name;
use crate::powerpc_symbolic::Variable;
use crate::symbolic::context::interned;
use crate::symbolic::context::literal_at;
use crate::symbolic::expr::Expr;
use crate::symbolic::expr::Node;
use crate::symbolic::expr_ref::ExprRef;
use crate::symbolic::normal::signed;

verus! {

/// An address as a base and an offset, and the table in which the base
/// stands.
pub ghost struct BaseOffset {
    /// The table.
    pub nodes: Seq<Node<Name>>,
    /// The base.
    pub base: ExprRef,
    /// The offset.
    pub offset: int,
}

/// Whether the reference stands for a variable.
pub open spec fn is_variable_at(nodes: Seq<Node<Name>>, e: ExprRef) -> bool {
    e.raw() < nodes.len() && nodes[e.raw() as int] is Variable
}

/// The base and the offset of an address, if it has the form of one: a
/// literal is an offset from the literal 0, a variable is a base with the
/// offset 0, and the sum of one variable and one literal is that base with
/// that offset. The offset is the literal read as a two's complement number.
pub open spec fn base_offset(nodes: Seq<Node<Name>>, addr: ExprRef) -> Option<BaseOffset> {
    match nodes[addr.raw() as int] {
        Node::Literal(literal) => {
            let zero = interned(nodes, Node::<Name>::Literal(0));
            Some(BaseOffset { nodes: zero.0, base: zero.1, offset: signed(literal) })
        },
        Node::Variable(_) => Some(BaseOffset { nodes, base: addr, offset: 0 }),
        Node::Add(exprs) => {
            if exprs.len() != 2 {
                None
            } else if is_variable_at(nodes, exprs[0]) && literal_at(nodes, exprs[1]) is Some {
                Some(
                    BaseOffset {
                        nodes,
                        base: exprs[0],
                        offset: signed(literal_at(nodes, exprs[1])->0),
                    },
                )
            } else if is_variable_at(nodes, exprs[1]) && literal_at(nodes, exprs[0]) is Some {
                Some(
                    BaseOffset {
                        nodes,
                        base: exprs[1],
                        offset: signed(literal_at(nodes, exprs[0])->0),
                    },
                )
            } else {
                None
            }
        },
        _ => None,
    }
}

/// A 32-bit word read as a two's complement number.
fn as_signed(word: u32) -> (r: i32)
    ensures
        r == signed(word),
{
    if word < 0x8000_0000 {
        word as i32
    } else {
        (word as i64 - 0x1_0000_0000) as i32
    }
}

/// Takes an address apart into a base and an offset, if it has the form of
/// one.
pub fn extract_base_offset(ctx: &mut Context, addr: ExprRef) -> (r: Option<(ExprRef, i32)>)
    requires
        old(ctx).wf(),
        old(ctx).valid(addr),
    ensures
        final(ctx).wf(),
        final(ctx).assignments() == old(ctx).assignments(),
        final(ctx).next_number() == old(ctx).next_number(),
        crate::symbolic::context::extends_without_variables(old(ctx).nodes(), final(ctx).nodes()),
        match base_offset(old(ctx).nodes(), addr) {
            Some(parts) => r == Some((parts.base, parts.offset as i32)) && final(ctx).nodes()
                == parts.nodes && final(ctx).valid(parts.base),
            None => r is None && final(ctx).nodes() == old(ctx).nodes(),
        },
{
    proof {
        assert(crate::symbolic::context::extends_without_variables(ctx.nodes(), ctx.nodes()));
        ctx.context().lemma_wf();
        let nodes = ctx.nodes();
        assert(crate::symbolic::context::node_ok(
            nodes,
            nodes[addr.raw() as int],
            addr.raw() as int,
        ));
    }
    let operands = ctx.get_expr_leaves(addr);
    let kind: u8 = match ctx.get_expr(addr) {
        Expr::Literal(_) => 0,
        Expr::Variable(_) => 1,
        Expr::Add(_) => 2,
        _ => 3,
    };
    if kind == 0 {
        // A literal is interpreted as an offset from a special absolute base.
        let literal = ctx.literal_value(addr).unwrap();
        let zero = ctx.literal_expr(0);
        Some((zero, as_signed(literal)))
    } else if kind == 1 {
        // A variable is interpreted as a zero-offset reference from its own base.
        Some((addr, 0))
    } else if kind == 2 {
        // There have to be precisely two expressions added together.
        if operands.len() != 2 {
            return None;
        }
        let first = operands[0];
        let second = operands[1];
        // One of them has to be a variable.
        let mut variables: Vec<ExprRef> = Vec::new();
        if ctx.is_variable(first) {
            variables.push(first);
        }
        if ctx.is_variable(second) {
            variables.push(second);
        }
        let register = match variables.singleton() {
            Some(register) => register,
            None => {
                return None;
            },
        };
        // And one of them has to be a literal.
        let mut literals: Vec<u32> = Vec::new();
        if let Some(literal) = ctx.literal_value(first) {
            literals.push(literal);
        }
        if let Some(literal) = ctx.literal_value(second) {
            literals.push(literal);
        }
        match literals.singleton() {
            Some(literal) => Some((register, as_signed(literal))),
            None => None,
        }
    } else {
        // Anything else has no base-offset interpretation.
        None
    }
}

} // verus!
