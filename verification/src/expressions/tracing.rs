//! The second pass: the trace from the roots back through the graph of
//! basic blocks.

use vstd::prelude::*;

use crate::expressions::execution::entering;
use crate::expressions::ExpressionError;
use crate::expressions::Graph;
use crate::expressions::graph_of;
use crate::expressions::roots::roots;
use crate::fact::basic_block::BasicBlockFact;
use crate::fact::basic_block::facts_about;
use crate::fact::FactsView;
use crate::fact_database::FactDatabase;
use crate::powerpc::register::Register;
use crate::powerpc_symbolic::Context;
use crate::powerpc_symbolic::Name;
use crate::powerpc_symbolic::Variable;
use crate::symbolic::context::extends;
use crate::symbolic::context::interned;
use crate::symbolic::context::lemma_interned_stands;
use crate::symbolic::expr::Expr;
use crate::symbolic::expr::Node;
use crate::symbolic::expr_ref::ExprRef;
use crate::symbolic::normal::flatten;
use crate::symbolic::normal::phi_normal;
use crate::symbolic::normal::phi_parts;
use crate::symbolic::normal::sorted;
use crate::symbolic::numbered::NumberedVariable;
use crate::work_set::WorkSet;

verus! {

/// The table and the references that stand for the variables for the value
/// of a register on leaving each of the given blocks, in their order.
pub open spec fn leaving_all(nodes: Seq<Node<Name>>, blocks: Seq<u32>, register: Register) -> (
    Seq<Node<Name>>,
    Seq<ExprRef>,
)
    decreases blocks.len(),
{
    if blocks.len() == 0 {
        (nodes, Seq::empty())
    } else {
        let rest = leaving_all(nodes, blocks.drop_last(), register);
        let variable = interned(
            rest.0,
            Node::Variable(
                NumberedVariable::Named(
                    Variable::RegisterLeaving { basic_block_addr: blocks.last(), register },
                ),
            ),
        );
        (variable.0, rest.1.push(variable.1))
    }
}

/// What the trace does with an expression, and the expressions that it
/// goes on with.
///
/// - Of an expression that is no variable it goes on with the operands.
/// - Of a variable with an assignment it goes on with the assignment.
/// - The value of a register on entering a basic block with predecessors is
///   the φ of its values on leaving the predecessors: this is assigned to
///   the variable, and the trace goes on with it.
/// - The value of a register on leaving a basic block, if nothing was
///   assigned to it, is its value on entering the block: this is assigned to
///   the variable, and the trace goes on with it.
/// - Any other variable is a root: garbage, what a call returns, a numbered
///   variable, and the value of a register on entering a basic block without
///   predecessors.
pub open spec fn traced(graph: Graph, db: Map<u32, FactsView>, expr: ExprRef) -> Result<
    (Graph, Seq<ExprRef>),
    ExpressionError,
> {
    let nothing = Seq::<ExprRef>::empty();
    match graph.nodes[expr.raw() as int] {
        Node::Variable(name) => if graph.assignments.contains_key(expr) {
            Ok((graph, seq![graph.assignments[expr]]))
        } else {
            match name {
                NumberedVariable::Named(
                    Variable::RegisterEntering { basic_block_addr, register },
                ) => match facts_about(db, basic_block_addr).basic_block {
                    None => Err(ExpressionError::MissingBlock(basic_block_addr)),
                    Some(block) => if block.predecessors.len() == 0 {
                        Ok((graph, nothing))
                    } else {
                        let leaving = leaving_all(graph.nodes, block.predecessors, register);
                        let phi = phi_normal(leaving.0, leaving.1);
                        Ok(
                            (
                                Graph {
                                    nodes: phi.0,
                                    assignments: graph.assignments.insert(expr, phi.1),
                                    next: graph.next,
                                },
                                seq![phi.1],
                            ),
                        )
                    },
                },
                NumberedVariable::Named(
                    Variable::RegisterLeaving { basic_block_addr, register },
                ) => {
                    let entering = interned(
                        graph.nodes,
                        Node::Variable(
                            NumberedVariable::Named(
                                Variable::RegisterEntering { basic_block_addr, register },
                            ),
                        ),
                    );
                    Ok(
                        (
                            Graph {
                                nodes: entering.0,
                                assignments: graph.assignments.insert(expr, entering.1),
                                next: graph.next,
                            },
                            seq![entering.1],
                        ),
                    )
                },
                _ => Ok((graph, nothing)),
            }
        },
        node => Ok((graph, node.operands())),
    }
}

/// The variables for the value of a register on leaving each of the given
/// blocks.
fn leaving_variables(ctx: &mut Context, blocks: &Vec<u32>, register: Register) -> (r: Vec<ExprRef>)
    requires
        old(ctx).wf(),
    ensures
        final(ctx).wf(),
        extends(old(ctx).nodes(), final(ctx).nodes()),
        final(ctx).assignments() == old(ctx).assignments(),
        final(ctx).next_number() == old(ctx).next_number(),
        (final(ctx).nodes(), r@) == leaving_all(old(ctx).nodes(), blocks@, register),
        forall|k: int| 0 <= k < r@.len() ==> final(ctx).valid(#[trigger] r@[k]),
        r@.len() == blocks@.len(),
{
    let mut params: Vec<ExprRef> = Vec::new();
    let mut i: usize = 0;
    proof {
        assert(blocks@.take(0) =~= Seq::<u32>::empty());
    }
    while i < blocks.len()
        invariant
            i <= blocks.len(),
            ctx.wf(),
            extends(old(ctx).nodes(), ctx.nodes()),
            ctx.assignments() == old(ctx).assignments(),
            ctx.next_number() == old(ctx).next_number(),
            (ctx.nodes(), params@) == leaving_all(old(ctx).nodes(), blocks@.take(i as int), register),
            forall|k: int| 0 <= k < params@.len() ==> ctx.valid(#[trigger] params@[k]),
            params@.len() == i,
        decreases blocks.len() - i,
    {
        proof {
            assert(blocks@.take(i + 1).drop_last() =~= blocks@.take(i as int));
            assert(blocks@.take(i + 1).last() == blocks@[i as int]);
        }
        let ghost before = params@;
        let ghost table = ctx.nodes();
        let variable = ctx.variable_expr(
            Variable::RegisterLeaving { basic_block_addr: blocks[i], register },
        );
        params.push(variable);
        proof {
            assert forall|k: int| 0 <= k < params@.len() implies ctx.valid(#[trigger] params@[k]) by {
                if k < before.len() {
                    assert(params@[k] == before[k]);
                    assert(before[k].raw() < table.len());
                }
            }
        }
        i += 1;
    }
    proof {
        assert(blocks@.take(blocks@.len() as int) =~= blocks@);
    }
    params
}

/// Traces one expression: says with which expressions the trace goes on,
/// and assigns to the variable for the value of a register on entering or
/// leaving a basic block what the graph of basic blocks says of it.
pub fn trace_step(ctx: &mut Context, db: &FactDatabase, expr: ExprRef) -> (r: Result<
    Vec<ExprRef>,
    ExpressionError,
>)
    requires
        old(ctx).wf(),
        old(ctx).valid(expr),
    ensures
        final(ctx).wf(),
        extends(old(ctx).nodes(), final(ctx).nodes()),
        match traced(graph_of(old(ctx)), db@, expr) {
            Ok(step) => r is Ok && r->Ok_0@ == step.1 && graph_of(final(ctx)) == step.0,
            Err(error) => r == Err::<Vec<ExprRef>, ExpressionError>(error) && graph_of(final(ctx))
                == graph_of(old(ctx)),
        },
        r is Ok ==> forall|k: int| 0 <= k < r->Ok_0@.len() ==> final(ctx).valid(#[trigger] r->Ok_0@[k]),
{
    // Retrieve this expression as a variable. If it's not a variable, insert its leaves into
    // the work set in its place.
    let name: Name = match ctx.get_expr(expr) {
        Expr::Variable(name) => *name,
        _ => {
            return Ok(ctx.get_expr_leaves(expr));
        },
    };
    // Trace assignments if available. (the main use case for this is memory writes, which
    // generate an assigned variable for indirection)
    if let Some(assignment) = ctx.get_variable_assignment(expr) {
        let mut next: Vec<ExprRef> = Vec::new();
        next.push(assignment);
        assert(next@ =~= seq![assignment]);
        return Ok(next);
    }
    match name {
        // Unassigned variables for a register on entering a basic block flow in from
        // predecessor basic blocks.
        NumberedVariable::Named(Variable::RegisterEntering { basic_block_addr, register }) => {
            let predecessors = match db.get_fact::<BasicBlockFact>(basic_block_addr) {
                Some(block) => vstd::slice::slice_to_vec(block.predecessors()),
                None => {
                    return Err(ExpressionError::MissingBlock(basic_block_addr));
                },
            };
            if predecessors.len() == 0 {
                return Ok(Vec::new());
            }
            // Construct a phi expression referring to the basic block's predecessors.
            let params = leaving_variables(ctx, &predecessors, register);
            let assignment = ctx.phi_expr(params);
            ctx.assign_variable(expr, assignment);
            let mut next: Vec<ExprRef> = Vec::new();
            next.push(assignment);
            assert(next@ =~= seq![assignment]);
            Ok(next)
        },
        // Unassigned variables for a register on leaving a basic block are just the values
        // on entering that basic block. Any changes would have been noted in the first
        // pass.
        NumberedVariable::Named(Variable::RegisterLeaving { basic_block_addr, register }) => {
            let assignment = ctx.variable_expr(
                Variable::RegisterEntering { basic_block_addr, register },
            );
            ctx.assign_variable(expr, assignment);
            let mut next: Vec<ExprRef> = Vec::new();
            next.push(assignment);
            assert(next@ =~= seq![assignment]);
            Ok(next)
        },
        // No implicit predecessor for anonymous temporaries, for garbage, or for what a
        // call returns.
        _ => Ok(Vec::new()),
    }
}

/// Whether the trace is done with an expression: tracing it leaves the
/// graph as it is and leads to visited expressions only.
pub open spec fn settled(graph: Graph, db: Map<u32, FactsView>, visited: Set<usize>, expr: ExprRef) -> bool {
    &&& expr.raw() < graph.nodes.len()
    &&& traced(graph, db, expr) is Ok
    &&& traced(graph, db, expr)->Ok_0.0 == graph
    &&& forall|k: int|
        0 <= k < traced(graph, db, expr)->Ok_0.1.len() ==> visited.contains(
            (#[trigger] traced(graph, db, expr)->Ok_0.1[k]).raw(),
        )
}

/// Whether every assignment of `before` is an assignment of `after`.
pub open spec fn assignments_kept(before: Map<ExprRef, ExprRef>, after: Map<ExprRef, ExprRef>) -> bool {
    forall|variable: ExprRef| #[trigger]
        before.contains_key(variable) ==> after.contains_key(variable) && after[variable]
            == before[variable]
}

/// Whether `operands` stand for the values of a register on leaving each
/// of the given blocks, in their order.
pub open spec fn leaving_refs(
    nodes: Seq<Node<Name>>,
    blocks: Seq<u32>,
    register: Register,
    operands: Seq<ExprRef>,
) -> bool {
    &&& operands.len() == blocks.len()
    &&& forall|k: int|
        0 <= k < operands.len() ==> (#[trigger] operands[k]).raw() < nodes.len()
            && nodes[operands[k].raw() as int] == Node::Variable(
            NumberedVariable::Named(
                Variable::RegisterLeaving { basic_block_addr: blocks[k], register },
            ),
        )
}

/// Whether a variable has the assignment that the trace gives to it.
///
/// - The value of a register on entering a basic block that has
///   predecessors is the φ of its values on leaving them, in the order of
///   their references.
/// - The value of a register on leaving a basic block is its value on
///   entering the block.
/// - No other variable gets an assignment: not the value of a register on
///   entering a basic block without predecessors.
pub open spec fn assigned_as_traced(graph: Graph, db: Map<u32, FactsView>, variable: ExprRef) -> bool {
    &&& variable.raw() < graph.nodes.len()
    &&& graph.assignments.contains_key(variable)
    &&& graph.assignments[variable].raw() < graph.nodes.len()
    &&& match graph.nodes[variable.raw() as int] {
        Node::Variable(
            NumberedVariable::Named(Variable::RegisterEntering { basic_block_addr, register }),
        ) => {
            &&& facts_about(db, basic_block_addr).basic_block is Some
            &&& facts_about(db, basic_block_addr).basic_block->0.predecessors.len() > 0
            &&& exists|operands: Seq<ExprRef>| #[trigger]
                leaving_refs(
                    graph.nodes,
                    facts_about(db, basic_block_addr).basic_block->0.predecessors,
                    register,
                    operands,
                ) && graph.nodes[graph.assignments[variable].raw() as int] == Node::<Name>::Phi(
                    sorted(operands),
                )
        },
        Node::Variable(
            NumberedVariable::Named(Variable::RegisterLeaving { basic_block_addr, register }),
        ) => graph.nodes[graph.assignments[variable].raw() as int] == Node::<Name>::Variable(
            NumberedVariable::Named(Variable::RegisterEntering { basic_block_addr, register }),
        ),
        _ => false,
    }
}

/// Whether every assignment of a graph that is not among `before` is one
/// that the trace gives.
pub open spec fn assigned_in_trace(
    before: Map<ExprRef, ExprRef>,
    graph: Graph,
    db: Map<u32, FactsView>,
) -> bool {
    forall|variable: ExprRef| #[trigger]
        graph.assignments.contains_key(variable) && !before.contains_key(variable)
            ==> assigned_as_traced(graph, db, variable)
}

/// What `leaving_all` gives: a table that begins with the old one, and the
/// references of the variables in it.
proof fn lemma_leaving_all(nodes: Seq<Node<Name>>, blocks: Seq<u32>, register: Register)
    requires
        leaving_all(nodes, blocks, register).0.len() <= usize::MAX,
    ensures
        extends(nodes, leaving_all(nodes, blocks, register).0),
        leaving_refs(
            leaving_all(nodes, blocks, register).0,
            blocks,
            register,
            leaving_all(nodes, blocks, register).1,
        ),
    decreases blocks.len(),
{
    if blocks.len() > 0 {
        let rest = leaving_all(nodes, blocks.drop_last(), register);
        let node = Node::<Name>::Variable(
            NumberedVariable::Named(
                Variable::RegisterLeaving { basic_block_addr: blocks.last(), register },
            ),
        );
        lemma_interned_stands(rest.0, node);
        lemma_leaving_all(nodes, blocks.drop_last(), register);
    }
}

/// Nothing is flattened among references none of which stands for a φ.
proof fn lemma_flatten_plain(nodes: Seq<Node<Name>>, refs: Seq<ExprRef>)
    requires
        forall|k: int| 0 <= k < refs.len() ==> !(nodes[(#[trigger] refs[k]).raw() as int] is Phi),
    ensures
        flatten(refs, phi_parts(nodes)) == refs,
    decreases refs.len(),
{
    if refs.len() > 0 {
        lemma_flatten_plain(nodes, refs.drop_last());
        assert(phi_parts(nodes)(refs.last()) == seq![refs.last()]);
        assert(refs.drop_last() + seq![refs.last()] =~= refs);
    }
}

/// The assignment that a trace step makes is the one that the trace gives
/// to the variable.
proof fn lemma_traced_assigns(graph: Graph, db: Map<u32, FactsView>, expr: ExprRef)
    requires
        expr.raw() < graph.nodes.len(),
        traced(graph, db, expr) is Ok,
        traced(graph, db, expr)->Ok_0.0.nodes.len() <= usize::MAX,
        !graph.assignments.contains_key(expr),
        traced(graph, db, expr)->Ok_0.0.assignments.contains_key(expr),
    ensures
        assigned_as_traced(traced(graph, db, expr)->Ok_0.0, db, expr),
{
    let after = traced(graph, db, expr)->Ok_0.0;
    match graph.nodes[expr.raw() as int] {
        Node::Variable(
            NumberedVariable::Named(Variable::RegisterEntering { basic_block_addr, register }),
        ) => {
            let block = facts_about(db, basic_block_addr).basic_block->0;
            let leaving = leaving_all(graph.nodes, block.predecessors, register);
            let phi = phi_normal(leaving.0, leaving.1);
            let node = Node::<Name>::Phi(sorted(flatten(leaving.1, phi_parts(leaving.0))));
            lemma_interned_stands(leaving.0, node);
            lemma_leaving_all(graph.nodes, block.predecessors, register);
            lemma_flatten_plain(leaving.0, leaving.1);
            assert(leaving_refs(after.nodes, block.predecessors, register, leaving.1));
        },
        Node::Variable(
            NumberedVariable::Named(Variable::RegisterLeaving { basic_block_addr, register }),
        ) => {
            lemma_interned_stands(
                graph.nodes,
                Node::<Name>::Variable(
                    NumberedVariable::Named(
                        Variable::RegisterEntering { basic_block_addr, register },
                    ),
                ),
            );
        },
        _ => {},
    }
}

/// An assignment that the trace gives stays one when the graph grows.
proof fn lemma_assigned_stable(graph: Graph, after: Graph, db: Map<u32, FactsView>, variable: ExprRef)
    requires
        assigned_as_traced(graph, db, variable),
        extends(graph.nodes, after.nodes),
        assignments_kept(graph.assignments, after.assignments),
    ensures
        assigned_as_traced(after, db, variable),
{
    match graph.nodes[variable.raw() as int] {
        Node::Variable(
            NumberedVariable::Named(Variable::RegisterEntering { basic_block_addr, register }),
        ) => {
            let block = facts_about(db, basic_block_addr).basic_block->0;
            let operands = choose|operands: Seq<ExprRef>| #[trigger]
                leaving_refs(graph.nodes, block.predecessors, register, operands)
                    && graph.nodes[graph.assignments[variable].raw() as int] == Node::<Name>::Phi(
                    sorted(operands),
                );
            assert(leaving_refs(after.nodes, block.predecessors, register, operands));
        },
        _ => {},
    }
}

/// An expression that was traced is settled in the graph that the trace
/// step left behind.
proof fn lemma_settled_self(
    graph: Graph,
    db: Map<u32, FactsView>,
    expr: ExprRef,
    after: Graph,
    next: Seq<ExprRef>,
)
    requires
        expr.raw() < graph.nodes.len(),
        traced(graph, db, expr) == Ok::<(Graph, Seq<ExprRef>), ExpressionError>((after, next)),
        extends(graph.nodes, after.nodes),
    ensures
        traced(after, db, expr) == Ok::<(Graph, Seq<ExprRef>), ExpressionError>((after, next)),
{
    assert(after.nodes[expr.raw() as int] == graph.nodes[expr.raw() as int]);
    match graph.nodes[expr.raw() as int] {
        Node::Variable(name) => {
            if !graph.assignments.contains_key(expr) {
                match name {
                    NumberedVariable::Named(
                        Variable::RegisterEntering { basic_block_addr, register },
                    ) => {
                        let block = facts_about(db, basic_block_addr).basic_block->0;
                        if block.predecessors.len() != 0 {
                            assert(after.assignments.contains_key(expr));
                            assert(next =~= seq![after.assignments[expr]]);
                        }
                    },
                    NumberedVariable::Named(Variable::RegisterLeaving { .. }) => {
                        assert(after.assignments.contains_key(expr));
                        assert(next =~= seq![after.assignments[expr]]);
                    },
                    _ => {},
                }
            }
        },
        _ => {},
    }
}

/// An expression with which the trace is done stays so when another
/// expression is traced and further expressions are visited.
proof fn lemma_settled_stable(
    graph: Graph,
    db: Map<u32, FactsView>,
    visited: Set<usize>,
    expr: ExprRef,
    other: ExprRef,
    after: Graph,
    visited_after: Set<usize>,
)
    requires
        settled(graph, db, visited, expr),
        other.raw() < graph.nodes.len(),
        traced(graph, db, other) is Ok,
        traced(graph, db, other)->Ok_0.0 == after,
        extends(graph.nodes, after.nodes),
        expr != other,
        visited.subset_of(visited_after),
    ensures
        settled(after, db, visited_after, expr),
        traced(after, db, expr)->Ok_0.1 == traced(graph, db, expr)->Ok_0.1,
{
    assert(after.nodes[expr.raw() as int] == graph.nodes[expr.raw() as int]);
    assert(after.assignments.contains_key(expr) == graph.assignments.contains_key(expr));
    if graph.assignments.contains_key(expr) {
        assert(after.assignments[expr] == graph.assignments[expr]);
    }
    let next = traced(graph, db, expr)->Ok_0.1;
    match graph.nodes[expr.raw() as int] {
        Node::Variable(name) => {
            if !graph.assignments.contains_key(expr) {
                match name {
                    NumberedVariable::Named(
                        Variable::RegisterEntering { basic_block_addr, register },
                    ) => {
                        let block = facts_about(db, basic_block_addr).basic_block->0;
                        if block.predecessors.len() != 0 {
                            assert(traced(graph, db, expr)->Ok_0.0.assignments.contains_key(expr));
                        }
                    },
                    NumberedVariable::Named(Variable::RegisterLeaving { .. }) => {
                        assert(traced(graph, db, expr)->Ok_0.0.assignments.contains_key(expr));
                    },
                    _ => {},
                }
            }
        },
        _ => {},
    }
    assert(traced(after, db, expr) == Ok::<(Graph, Seq<ExprRef>), ExpressionError>((after, next)));
    assert forall|k: int| 0 <= k < next.len() implies visited_after.contains(
        (#[trigger] next[k]).raw(),
    ) by {
        assert(visited.contains(next[k].raw()));
    }
}

/// Whether the trace goes on from one expression with another.
pub open spec fn leads_to(graph: Graph, db: Map<u32, FactsView>, from: ExprRef, to: ExprRef) -> bool {
    &&& from.raw() < graph.nodes.len()
    &&& traced(graph, db, from) is Ok
    &&& traced(graph, db, from)->Ok_0.1.contains(to)
}

/// Whether the trace goes along the expressions, from each to the next.
pub open spec fn is_trail(graph: Graph, db: Map<u32, FactsView>, trail: Seq<ExprRef>) -> bool {
    trail.len() > 0 && forall|i: int|
        0 <= i < trail.len() - 1 ==> leads_to(graph, db, #[trigger] trail[i], trail[i + 1])
}

/// Whether the trace gets from one of the roots to an expression.
pub open spec fn traced_from(
    graph: Graph,
    db: Map<u32, FactsView>,
    roots: Seq<ExprRef>,
    expr: ExprRef,
) -> bool {
    exists|trail: Seq<ExprRef>| #[trigger]
        is_trail(graph, db, trail) && roots.contains(trail[0]) && trail.last() == expr
}

/// Where the trace has visited the roots and is done with every expression
/// that it visited, it has visited every expression to which it gets from
/// the roots.
pub proof fn lemma_trace_visits(
    graph: Graph,
    db: Map<u32, FactsView>,
    roots: Seq<ExprRef>,
    visited: Set<usize>,
    trail: Seq<ExprRef>,
)
    requires
        forall|k: int| 0 <= k < roots.len() ==> visited.contains((#[trigger] roots[k]).raw()),
        forall|raw: usize| #[trigger]
            visited.contains(raw) ==> settled(graph, db, visited, ExprRef(raw)),
        is_trail(graph, db, trail),
        roots.contains(trail[0]),
    ensures
        visited.contains(trail.last().raw()),
    decreases trail.len(),
{
    if trail.len() > 1 {
        let shorter = trail.drop_last();
        assert(is_trail(graph, db, shorter)) by {
            assert forall|i: int| 0 <= i < shorter.len() - 1 implies leads_to(
                graph,
                db,
                #[trigger] shorter[i],
                shorter[i + 1],
            ) by {
                assert(leads_to(graph, db, trail[i], trail[i + 1]));
            }
        }
        lemma_trace_visits(graph, db, roots, visited, shorter);
        let from = shorter.last();
        assert(from == trail[trail.len() - 2]);
        assert(leads_to(graph, db, trail[trail.len() - 2], trail[trail.len() - 2 + 1]));
        assert(ExprRef(from.raw()) == from);
        assert(settled(graph, db, visited, from));
        let next = traced(graph, db, from)->Ok_0.1;
        let k = choose|k: int| 0 <= k < next.len() && next[k] == trail.last();
        assert(visited.contains(next[k].raw()));
    } else {
        let k = choose|k: int| 0 <= k < roots.len() && roots[k] == trail[0];
        assert(visited.contains(roots[k].raw()));
    }
}

/// Whether the trace gets along `trail` from one of the roots to an
/// expression, and is done with every expression on the way.
spec fn closed_trail(
    graph: Graph,
    db: Map<u32, FactsView>,
    roots: Seq<ExprRef>,
    closed: Set<usize>,
    trail: Seq<ExprRef>,
    expr: ExprRef,
) -> bool {
    &&& is_trail(graph, db, trail)
    &&& roots.contains(trail[0])
    &&& trail.last() == expr
    &&& forall|i: int| 0 <= i < trail.len() - 1 ==> closed.contains((#[trigger] trail[i]).raw())
}

/// Whether the trace gets from one of the roots to an expression, and is
/// done with every expression on the way.
spec fn reached(
    graph: Graph,
    db: Map<u32, FactsView>,
    roots: Seq<ExprRef>,
    closed: Set<usize>,
    expr: ExprRef,
) -> bool {
    exists|trail: Seq<ExprRef>| #[trigger] closed_trail(graph, db, roots, closed, trail, expr)
}

/// Whether the trace gets from the roots to every expression that it
/// knows, and is done with every expression on the way.
#[verifier::opaque]
spec fn all_reached(
    graph: Graph,
    db: Map<u32, FactsView>,
    roots: Seq<ExprRef>,
    closed: Set<usize>,
    known: Set<usize>,
) -> bool {
    forall|raw: usize| #[trigger] known.contains(raw) ==> reached(graph, db, roots, closed, ExprRef(raw))
}

/// The trace gets to each of the roots.
proof fn lemma_roots_reached(
    graph: Graph,
    db: Map<u32, FactsView>,
    roots: Seq<ExprRef>,
    closed: Set<usize>,
    known: Set<usize>,
)
    requires
        forall|raw: usize| #[trigger]
            known.contains(raw) ==> exists|k: int|
                0 <= k < roots.len() && (#[trigger] roots[k]).raw() == raw,
    ensures
        all_reached(graph, db, roots, closed, known),
{
    reveal(all_reached);
    assert forall|raw: usize| #[trigger] known.contains(raw) implies reached(
        graph,
        db,
        roots,
        closed,
        ExprRef(raw),
    ) by {
        let k = choose|k: int| 0 <= k < roots.len() && (#[trigger] roots[k]).raw() == raw;
        let trail = seq![roots[k]];
        assert(trail[0] == roots[k]);
        assert(closed_trail(graph, db, roots, closed, trail, ExprRef(raw)));
    }
}

/// Where the trace gets to every expression that it knows, it gets there
/// from one of the roots.
proof fn lemma_reached_from_roots(
    graph: Graph,
    db: Map<u32, FactsView>,
    roots: Seq<ExprRef>,
    closed: Set<usize>,
    known: Set<usize>,
)
    requires
        all_reached(graph, db, roots, closed, known),
    ensures
        forall|raw: usize| #[trigger]
            known.contains(raw) ==> traced_from(graph, db, roots, ExprRef(raw)),
{
    reveal(all_reached);
    assert forall|raw: usize| #[trigger] known.contains(raw) implies traced_from(
        graph,
        db,
        roots,
        ExprRef(raw),
    ) by {
        let trail = choose|trail: Seq<ExprRef>| #[trigger]
            closed_trail(graph, db, roots, closed, trail, ExprRef(raw));
        assert(is_trail(graph, db, trail));
    }
}

/// A trail through expressions with which the trace is done stays one when
/// another expression is traced.
proof fn lemma_trail_stable(
    graph: Graph,
    after: Graph,
    db: Map<u32, FactsView>,
    roots: Seq<ExprRef>,
    closed: Set<usize>,
    visited: Set<usize>,
    trail: Seq<ExprRef>,
    expr: ExprRef,
    other: ExprRef,
    closed_after: Set<usize>,
)
    requires
        closed_trail(graph, db, roots, closed, trail, expr),
        forall|raw: usize| #[trigger] closed.contains(raw) ==> settled(graph, db, visited, ExprRef(raw)),
        !closed.contains(other.raw()),
        other.raw() < graph.nodes.len(),
        traced(graph, db, other) is Ok,
        traced(graph, db, other)->Ok_0.0 == after,
        extends(graph.nodes, after.nodes),
        closed.subset_of(closed_after),
    ensures
        closed_trail(after, db, roots, closed_after, trail, expr),
{
    assert forall|i: int| 0 <= i < trail.len() - 1 implies leads_to(
        after,
        db,
        #[trigger] trail[i],
        trail[i + 1],
    ) by {
        let from = trail[i];
        assert(closed.contains(from.raw()));
        assert(ExprRef(from.raw()) == from);
        assert(leads_to(graph, db, from, trail[i + 1]));
        lemma_settled_stable(graph, db, visited, from, other, after, visited);
    }
    assert forall|i: int| 0 <= i < trail.len() - 1 implies closed_after.contains(
        (#[trigger] trail[i]).raw(),
    ) by {
        assert(closed.contains(trail[i].raw()));
    }
}

/// A trail to an expression with which the trace is done goes on to
/// whatever the trace goes on with from there.
proof fn lemma_trail_grows(
    graph: Graph,
    db: Map<u32, FactsView>,
    roots: Seq<ExprRef>,
    closed: Set<usize>,
    trail: Seq<ExprRef>,
    expr: ExprRef,
    to: ExprRef,
)
    requires
        closed_trail(graph, db, roots, closed, trail, expr),
        closed.contains(expr.raw()),
        leads_to(graph, db, expr, to),
    ensures
        closed_trail(graph, db, roots, closed, trail.push(to), to),
{
    let longer = trail.push(to);
    assert forall|i: int| 0 <= i < longer.len() - 1 implies leads_to(
        graph,
        db,
        #[trigger] longer[i],
        longer[i + 1],
    ) by {
        if i < trail.len() - 1 {
            assert(leads_to(graph, db, trail[i], trail[i + 1]));
        }
    }
    assert forall|i: int| 0 <= i < longer.len() - 1 implies closed.contains(
        (#[trigger] longer[i]).raw(),
    ) by {
        if i < trail.len() - 1 {
            assert(closed.contains(trail[i].raw()));
        }
    }
    assert(longer[0] == trail[0]);
}

/// After a trace step the trace gets to every expression that it knows:
/// to those that it knew before, and to those with which it goes on.
proof fn lemma_reached_step(
    before: Graph,
    after: Graph,
    db: Map<u32, FactsView>,
    roots: Seq<ExprRef>,
    closed: Set<usize>,
    known: Set<usize>,
    expr: ExprRef,
    next: Seq<ExprRef>,
    known_after: Set<usize>,
)
    requires
        all_reached(before, db, roots, closed, known),
        forall|raw: usize| #[trigger] closed.contains(raw) ==> settled(before, db, known, ExprRef(raw)),
        known.contains(expr.raw()),
        !closed.contains(expr.raw()),
        expr.raw() < before.nodes.len(),
        traced(before, db, expr) == Ok::<(Graph, Seq<ExprRef>), ExpressionError>((after, next)),
        traced(after, db, expr) == Ok::<(Graph, Seq<ExprRef>), ExpressionError>((after, next)),
        extends(before.nodes, after.nodes),
        forall|item: usize| #[trigger]
            known_after.contains(item) ==> known.contains(item) || exists|j: int|
                0 <= j < next.len() && (#[trigger] next[j]).raw() == item,
    ensures
        all_reached(after, db, roots, closed.insert(expr.raw()), known_after),
{
    reveal(all_reached);
    let closed_after = closed.insert(expr.raw());
    assert(ExprRef(expr.raw()) == expr);
    let to_expr = choose|trail: Seq<ExprRef>| #[trigger]
        closed_trail(before, db, roots, closed, trail, expr);
    lemma_trail_stable(before, after, db, roots, closed, known, to_expr, expr, expr, closed_after);
    assert forall|item: usize| #[trigger] known_after.contains(item) implies reached(
        after,
        db,
        roots,
        closed_after,
        ExprRef(item),
    ) by {
        if known.contains(item) {
            let trail = choose|trail: Seq<ExprRef>| #[trigger]
                closed_trail(before, db, roots, closed, trail, ExprRef(item));
            lemma_trail_stable(
                before,
                after,
                db,
                roots,
                closed,
                known,
                trail,
                ExprRef(item),
                expr,
                closed_after,
            );
        } else {
            let j = choose|j: int| 0 <= j < next.len() && (#[trigger] next[j]).raw() == item;
            assert(ExprRef(item) == next[j]);
            assert(leads_to(after, db, expr, next[j]));
            lemma_trail_grows(after, db, roots, closed_after, to_expr, expr, next[j]);
        }
    }
}

/// A trace step takes no assignment back.
proof fn lemma_traced_keeps(graph: Graph, db: Map<u32, FactsView>, expr: ExprRef)
    requires
        traced(graph, db, expr) is Ok,
    ensures
        assignments_kept(graph.assignments, traced(graph, db, expr)->Ok_0.0.assignments),
        traced(graph, db, expr)->Ok_0.0.next == graph.next,
{
}

/// Whether the trace gets from the roots to each expression of a set.
pub open spec fn all_traced_from(
    graph: Graph,
    db: Map<u32, FactsView>,
    roots: Seq<ExprRef>,
    exprs: Set<usize>,
) -> bool {
    forall|raw: usize| #[trigger]
        exprs.contains(raw) ==> raw < graph.nodes.len() && traced_from(
            graph,
            db,
            roots,
            ExprRef(raw),
        )
}

/// Whether an error says that the steps ran out, and they did: the trace
/// gets from the roots to more than `max_steps` expressions.
pub open spec fn out_of_steps(
    error: ExpressionError,
    max_steps: usize,
    graph: Graph,
    db: Map<u32, FactsView>,
    roots: Seq<ExprRef>,
) -> bool {
    &&& error == ExpressionError::OutOfSteps
    &&& exists|exprs: Set<usize>| #[trigger]
        all_traced_from(graph, db, roots, exprs) && exprs.finite() && exprs.len() > max_steps
}

/// Whether an error is that of a trace step, on an expression to which the
/// trace gets from the roots.
pub open spec fn fails_on_trace(
    error: ExpressionError,
    graph: Graph,
    db: Map<u32, FactsView>,
    roots: Seq<ExprRef>,
) -> bool {
    exists|expr: ExprRef| #[trigger]
        traced_from(graph, db, roots, expr) && expr.raw() < graph.nodes.len() && traced(
            graph,
            db,
            expr,
        ) == Err::<(Graph, Seq<ExprRef>), ExpressionError>(error)
}

/// What the trace leaves behind, beside the graph.
pub struct Traced {
    /// The expressions that were visited, by the indices of their
    /// references.
    pub visited: WorkSet<usize>,
    /// The variables to which the trace gave an assignment, each with its
    /// assignment, in the order in which they were given.
    pub assigned: Vec<(ExprRef, ExprRef)>,
}

/// Whether `assigned` lists the assignments of `after` that are not among
/// `before`, each once.
pub open spec fn lists_new_assignments(
    before: Map<ExprRef, ExprRef>,
    after: Map<ExprRef, ExprRef>,
    assigned: Seq<(ExprRef, ExprRef)>,
) -> bool {
    &&& forall|k: int|
        0 <= k < assigned.len() ==> !before.contains_key((#[trigger] assigned[k]).0)
            && after.contains_key(assigned[k].0) && after[assigned[k].0] == assigned[k].1
    &&& forall|j: int, k: int| 0 <= j < k < assigned.len() ==> assigned[j].0 != assigned[k].0
    &&& forall|variable: ExprRef| #[trigger]
        after.contains_key(variable) && !before.contains_key(variable) ==> exists|k: int|
            0 <= k < assigned.len() && (#[trigger] assigned[k]).0 == variable
}

/// The second pass: traces the expressions from the roots back, through
/// operands, assignments and the graph of basic blocks, in at most
/// `max_steps` steps. Hands back the expressions that were visited and the
/// assignments that were given.
///
/// The trace fails only where it gets from the roots to more than
/// `max_steps` expressions, or to the value of a register on entering a
/// basic block that the database does not hold.
pub fn trace(ctx: &mut Context, db: &FactDatabase, roots: &Vec<ExprRef>, max_steps: usize) -> (r:
    Result<Traced, ExpressionError>)
    requires
        old(ctx).wf(),
        forall|k: int| 0 <= k < roots@.len() ==> old(ctx).valid(#[trigger] roots@[k]),
    ensures
        final(ctx).wf(),
        extends(old(ctx).nodes(), final(ctx).nodes()),
        final(ctx).next_number() == old(ctx).next_number(),
        assignments_kept(old(ctx).assignments(), final(ctx).assignments()),
        assigned_in_trace(old(ctx).assignments(), graph_of(final(ctx)), db@),
        match r {
            Ok(traced) => {
                let visited = traced.visited;
                &&& lists_new_assignments(
                    old(ctx).assignments(),
                    final(ctx).assignments(),
                    traced.assigned@,
                )
                &&& visited.wf()
                &&& visited.open() == Set::<usize>::empty()
                &&& forall|k: int|
                    0 <= k < roots@.len() ==> visited.known().contains((#[trigger] roots@[k]).raw())
                &&& forall|raw: usize| #[trigger]
                    visited.known().contains(raw) ==> settled(
                        graph_of(final(ctx)),
                        db@,
                        visited.known(),
                        ExprRef(raw),
                    )
                &&& forall|raw: usize| #[trigger]
                    visited.known().contains(raw) ==> traced_from(
                        graph_of(final(ctx)),
                        db@,
                        roots@,
                        ExprRef(raw),
                    )
                &&& forall|variable: ExprRef| #[trigger]
                    final(ctx).assignments().contains_key(variable) && !old(
                        ctx,
                    ).assignments().contains_key(variable) ==> visited.known().contains(
                        variable.raw(),
                    )
            },
            Err(error) => out_of_steps(error, max_steps, graph_of(final(ctx)), db@, roots@)
                || fails_on_trace(error, graph_of(final(ctx)), db@, roots@),
        },
{
    let mut exprs_to_visit: WorkSet<usize> = WorkSet::new();
    let mut i: usize = 0;
    while i < roots.len()
        invariant
            i <= roots.len(),
            exprs_to_visit.wf(),
            forall|k: int| 0 <= k < roots@.len() ==> old(ctx).valid(#[trigger] roots@[k]),
            forall|k: int| 0 <= k < i ==> exprs_to_visit.known().contains((#[trigger] roots@[k]).raw()),
            forall|raw: usize| #[trigger]
                exprs_to_visit.known().contains(raw) ==> raw < old(ctx).nodes().len(),
            forall|raw: usize| #[trigger]
                exprs_to_visit.known().contains(raw) ==> exists|k: int|
                    0 <= k < i && (#[trigger] roots@[k]).raw() == raw,
            exprs_to_visit.closed() =~= Set::<usize>::empty(),
        decreases roots.len() - i,
    {
        proof {
            exprs_to_visit.lemma_wf();
        }
        exprs_to_visit.insert(roots[i].to_raw());
        i += 1;
    }
    proof {
        lemma_roots_reached(
            graph_of(ctx),
            db@,
            roots@,
            exprs_to_visit.closed(),
            exprs_to_visit.known(),
        );
    }
    let mut steps = max_steps;
    let mut assigned: Vec<(ExprRef, ExprRef)> = Vec::new();
    // Trace variables and synthesize predecessors.
    loop
        invariant
            lists_new_assignments(old(ctx).assignments(), ctx.assignments(), assigned@),
            ctx.wf(),
            exprs_to_visit.wf(),
            extends(old(ctx).nodes(), ctx.nodes()),
            ctx.next_number() == old(ctx).next_number(),
            assignments_kept(old(ctx).assignments(), ctx.assignments()),
            forall|k: int|
                0 <= k < roots@.len() ==> exprs_to_visit.known().contains((#[trigger] roots@[k]).raw()),
            forall|raw: usize| #[trigger]
                exprs_to_visit.known().contains(raw) ==> raw < ctx.nodes().len(),
            forall|raw: usize| #[trigger]
                exprs_to_visit.closed().contains(raw) ==> settled(
                    graph_of(ctx),
                    db@,
                    exprs_to_visit.known(),
                    ExprRef(raw),
                ),
            exprs_to_visit.closed().finite(),
            exprs_to_visit.closed().len() + steps == max_steps,
            assigned_in_trace(old(ctx).assignments(), graph_of(ctx), db@),
            all_reached(
                graph_of(ctx),
                db@,
                roots@,
                exprs_to_visit.closed(),
                exprs_to_visit.known(),
            ),
            forall|variable: ExprRef| #[trigger]
                ctx.assignments().contains_key(variable) && !old(ctx).assignments().contains_key(
                    variable,
                ) ==> exprs_to_visit.closed().contains(variable.raw()),
        decreases steps,
    {
        proof {
            exprs_to_visit.lemma_wf();
        }
        let ghost known_before = exprs_to_visit.known();
        let ghost closed_before = exprs_to_visit.closed();
        let raw = match exprs_to_visit.pop() {
            Some(raw) => raw,
            None => {
                proof {
                    assert(exprs_to_visit.closed() =~= exprs_to_visit.known());
                    lemma_reached_from_roots(
                        graph_of(ctx),
                        db@,
                        roots@,
                        exprs_to_visit.closed(),
                        exprs_to_visit.known(),
                    );
                }
                return Ok(Traced { visited: exprs_to_visit, assigned });
            },
        };
        proof {
            assert(exprs_to_visit.closed() =~= closed_before.insert(raw));
        }
        if steps == 0 {
            proof {
                lemma_reached_from_roots(graph_of(ctx), db@, roots@, closed_before, known_before);
                assert(all_traced_from(graph_of(ctx), db@, roots@, exprs_to_visit.closed()));
            }
            return Err(ExpressionError::OutOfSteps);
        }
        steps -= 1;
        let expr = ExprRef::from_raw(raw);
        let ghost before = graph_of(ctx);
        let had = !ctx.is_variable(expr) || ctx.get_variable_assignment(expr).is_some();
        let next = match trace_step(ctx, db, expr) {
            Ok(next) => next,
            Err(error) => {
                proof {
                    lemma_reached_from_roots(before, db@, roots@, closed_before, known_before);
                    assert(ExprRef(raw) == expr);
                    assert(traced_from(before, db@, roots@, expr));
                }
                return Err(error);
            },
        };
        let ghost after = graph_of(ctx);
        let ghost listed = assigned@;
        proof {
            lemma_traced_keeps(before, db@, expr);
        }
        if !had {
            if let Some(assignment) = ctx.get_variable_assignment(expr) {
                assigned.push((expr, assignment));
            }
        }
        proof {
            assert forall|k: int| 0 <= k < assigned@.len() implies !old(
                ctx,
            ).assignments().contains_key((#[trigger] assigned@[k]).0)
                && after.assignments.contains_key(assigned@[k].0)
                && after.assignments[assigned@[k].0] == assigned@[k].1 by {
                if k < listed.len() {
                    assert(assigned@[k] == listed[k]);
                    assert(before.assignments.contains_key(listed[k].0));
                }
            }
            assert forall|j: int, k: int| 0 <= j < k < assigned@.len() implies assigned@[j].0
                != assigned@[k].0 by {
                assert(assigned@[j] == listed[j]);
                if k < listed.len() {
                    assert(assigned@[k] == listed[k]);
                } else {
                    assert(before.assignments.contains_key(listed[j].0));
                }
            }
            assert forall|variable: ExprRef| #[trigger]
                after.assignments.contains_key(variable) && !old(ctx).assignments().contains_key(
                    variable,
                ) implies exists|k: int|
                0 <= k < assigned@.len() && (#[trigger] assigned@[k]).0 == variable by {
                if before.assignments.contains_key(variable) {
                    let k = choose|k: int|
                        0 <= k < listed.len() && (#[trigger] listed[k]).0 == variable;
                    assert(assigned@[k] == listed[k]);
                } else {
                    assert(variable == expr);
                    assert(assigned@[assigned@.len() - 1].0 == expr);
                }
            }
        }
        proof {
            lemma_settled_self(before, db@, expr, after, next@);
            ctx.context().lemma_wf();
            assert forall|variable: ExprRef| #[trigger]
                after.assignments.contains_key(variable) && !old(ctx).assignments().contains_key(
                    variable,
                ) implies assigned_as_traced(after, db@, variable) by {
                if before.assignments.contains_key(variable) {
                    lemma_assigned_stable(before, after, db@, variable);
                } else {
                    assert(variable == expr);
                    lemma_traced_assigns(before, db@, expr);
                }
            }
        }
        let mut k: usize = 0;
        while k < next.len()
            invariant
                k <= next.len(),
                exprs_to_visit.wf(),
                forall|j: int| 0 <= j < next@.len() ==> ctx.valid(#[trigger] next@[j]),
                known_before.subset_of(exprs_to_visit.known()),
                exprs_to_visit.closed() =~= closed_before.insert(raw),
                forall|j: int| 0 <= j < k ==> exprs_to_visit.known().contains((#[trigger] next@[j]).raw()),
                forall|other: usize| #[trigger]
                    exprs_to_visit.known().contains(other) ==> other < ctx.nodes().len(),
                forall|other: usize| #[trigger]
                    exprs_to_visit.known().contains(other) ==> known_before.contains(other)
                        || exists|j: int| 0 <= j < k && (#[trigger] next@[j]).raw() == other,
            decreases next.len() - k,
        {
            proof {
                exprs_to_visit.lemma_wf();
            }
            let ghost closed_now = exprs_to_visit.closed();
            exprs_to_visit.insert(next[k].to_raw());
            proof {
                assert(exprs_to_visit.closed() =~= closed_now);
            }
            k += 1;
        }
        proof {
            assert forall|other: usize| #[trigger]
                exprs_to_visit.closed().contains(other) implies settled(
                after,
                db@,
                exprs_to_visit.known(),
                ExprRef(other),
            ) by {
                if other == raw {
                    assert(ExprRef(other) == expr);
                } else {
                    assert(closed_before.contains(other));
                    lemma_settled_stable(
                        before,
                        db@,
                        known_before,
                        ExprRef(other),
                        expr,
                        after,
                        exprs_to_visit.known(),
                    );
                }
            }
            let closed_after = exprs_to_visit.closed();
            lemma_reached_step(
                before,
                after,
                db@,
                roots@,
                closed_before,
                known_before,
                expr,
                next@,
                exprs_to_visit.known(),
            );
            assert forall|variable: ExprRef| #[trigger]
                after.assignments.contains_key(variable) && !old(ctx).assignments().contains_key(
                    variable,
                ) implies closed_after.contains(variable.raw()) by {
                if before.assignments.contains_key(variable) {
                    assert(closed_before.contains(variable.raw()));
                } else {
                    assert(variable == expr);
                }
            }
        }
    }
}

} // verus!
