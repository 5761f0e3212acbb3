//! What a variable stands for.

use vstd::prelude::*;

use crate::powerpc_symbolic::Context;
use crate::powerpc_symbolic::Variable;
use crate::symbolic::expr::Node;
use crate::symbolic::expr_ref::ExprRef;
use crate::symbolic::rewrite::LeafMap;
use crate::symbolic::variable::VariableName;

verus! {

/// The expression that a variable stands for after at most `steps`
/// assignments were followed: the variable itself if it is no variable, has
/// no assignment or is assigned to itself, and else what its assignment
/// stands for.
pub open spec fn resolved<V>(
    nodes: Seq<Node<V>>,
    assignments: Map<ExprRef, ExprRef>,
    expr: ExprRef,
    steps: nat,
) -> ExprRef
    decreases steps,
{
    if steps > 0 && expr.raw() < nodes.len() && nodes[expr.raw() as int] is Variable
        && assignments.contains_key(expr) && assignments[expr] != expr {
        resolved(nodes, assignments, assignments[expr], (steps - 1) as nat)
    } else {
        expr
    }
}

/// Follows the assignments of variables until an expression is reached
/// that is no variable, or a variable without an assignment, or one that is
/// assigned to itself. No more assignments are followed than the context
/// has nodes: a longer chain would go round in a circle.
pub fn resolve_variables<V: VariableName>(ctx: &crate::symbolic::context::Context<V>, expr: ExprRef) -> (r:
    ExprRef)
    requires
        ctx.wf(),
        ctx.valid(expr),
    ensures
        r == resolved(ctx.nodes(), ctx.assignments(), expr, ctx.nodes().len()),
        ctx.valid(r),
{
    let mut cursor = expr;
    let mut steps = ctx.len();
    while steps > 0
        invariant
            ctx.wf(),
            ctx.valid(cursor),
            resolved(ctx.nodes(), ctx.assignments(), expr, ctx.nodes().len()) == resolved(
                ctx.nodes(),
                ctx.assignments(),
                cursor,
                steps as nat,
            ),
        decreases steps,
    {
        if !ctx.is_variable(cursor) {
            return cursor;
        }
        match ctx.get_variable_assignment(cursor) {
            Some(assignment) => {
                if cursor == assignment {
                    return cursor;
                }
                cursor = assignment;
            },
            None => {
                return cursor;
            },
        }
        steps -= 1;
    }
    cursor
}

/// The leaf map that replaces each variable by what it stands for.
pub struct ResolveVariables;

impl<V: VariableName> LeafMap<V> for ResolveVariables {
    open spec fn image(
        &self,
        nodes: Seq<Node<V>>,
        assignments: Map<ExprRef, ExprRef>,
        leaf: ExprRef,
    ) -> (Seq<Node<V>>, ExprRef) {
        (nodes, resolved(nodes, assignments, leaf, nodes.len()))
    }

    fn apply(&self, ctx: &mut crate::symbolic::context::Context<V>, leaf: ExprRef) -> (r: ExprRef) {
        proof {
            assert(crate::symbolic::context::extends_without_variables(ctx.nodes(), ctx.nodes()));
        }
        resolve_variables(ctx, leaf)
    }
}

} // verus!
