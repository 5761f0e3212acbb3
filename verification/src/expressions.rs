//! The expression pipeline: symbolic execution of each basic block, the
//! trace from the roots back through the graph of basic blocks, and the
//! resolution of variables.

use vstd::pervasive::unreached;
use vstd::prelude::*;

use crate::dol::reader::Reader;
use crate::expressions::execution::assigns_as_executed;
use crate::expressions::execution::blocks_executed;
use crate::expressions::execution::blocks_listed;
use crate::expressions::execution::execute_blocks;
use crate::expressions::execution::executed_views;
use crate::expressions::execution::ExecutedBlock;
use crate::expressions::execution::lemma_blocks_kept;
use crate::expressions::execution::lemma_writes_valid_extends;
use crate::expressions::execution::same_besides_writes;
use crate::expressions::resolution::block_views;
use crate::expressions::resolution::blocks_resolved;
use crate::expressions::resolution::lemma_blocks_resolve;
use crate::expressions::resolution::resolve_blocks;
use crate::expressions::resolution::ResolvedBlock;
use crate::expressions::resolution::ResolvedBlockView;
use crate::expressions::roots::block_root;
use crate::expressions::roots::lemma_rooted;
use crate::expressions::roots::lemma_rooted_extends;
use crate::expressions::roots::rooted;
use crate::expressions::roots::roots;
use crate::expressions::roots::stack_pointer;
use crate::expressions::tracing::assigned_as_traced;
use crate::expressions::tracing::assigned_in_trace;
use crate::expressions::tracing::assignments_kept;
use crate::expressions::tracing::fails_on_trace;
use crate::expressions::tracing::leaving_refs;
use crate::expressions::tracing::lists_new_assignments;
use crate::expressions::tracing::out_of_steps;
use crate::expressions::tracing::settled;
use crate::expressions::tracing::trace;
use crate::expressions::tracing::traced;
use crate::expressions::tracing::Traced;
use crate::expressions::tracing::traced_from;
use crate::expressions::variables::resolved;
use crate::fact::basic_block::BasicBlockFact;
use crate::fact::basic_block::facts_about;
use crate::fact::FactsView;
use crate::fact_database::FactDatabase;
use crate::machine::executed;
use crate::machine::Machine;
use crate::powerpc::register::Register;
use crate::powerpc_symbolic::Context;
use crate::powerpc_symbolic::Name;
use crate::powerpc_symbolic::Variable;
use crate::symbolic::context::extends;
use crate::symbolic::context::interned;
use crate::symbolic::context::table_wf;
use crate::symbolic::expr::Node;
use crate::symbolic::expr_ref::ExprRef;
use crate::symbolic::normal::sorted;
use crate::symbolic::numbered::NumberedVariable;

pub mod address;
pub mod execution;
pub mod resolution;
pub mod roots;
pub mod tracing;
pub mod variables;

verus! {

/// Why the expressions of a program could not be built.
#[derive(Clone, Copy, Debug, PartialEq, Eq, Structural)]
pub enum ExpressionError {
    /// No section of the executable maps this address of a basic block.
    Unmapped(u32),
    /// The word at this address of a basic block is no instruction.
    NotAnInstruction(u32),
    /// Symbolic execution does not know the instruction at this address.
    Unsupported(u32),
    /// No basic block starts at this address, where one was expected.
    MissingBlock(u32),
    /// The trace took more steps than it was given.
    OutOfSteps,
}

/// An expression graph as a value.
#[verifier::ext_equal]
pub ghost struct Graph {
    /// The table of nodes.
    pub nodes: Seq<Node<Name>>,
    /// What has been assigned to which variable.
    pub assignments: Map<ExprRef, ExprRef>,
    /// The number of the next numbered variable.
    pub next: usize,
}

/// The graph that a context holds.
pub open spec fn graph_of(ctx: &Context) -> Graph {
    Graph { nodes: ctx.nodes(), assignments: ctx.assignments(), next: ctx.next_number() }
}

/// The graph of a machine.
pub open spec fn graph_in(machine: Machine) -> Graph {
    Graph { nodes: machine.nodes, assignments: machine.assignments, next: machine.next }
}

/// The graph that holds nothing.
pub open spec fn empty_graph() -> Graph {
    Graph { nodes: Seq::empty(), assignments: Map::empty(), next: 0 }
}

/// Whether the expressions of a program were built in the three passes,
/// from a database in which `blocks` are the basic blocks, in ascending
/// order, to the database `after`, the graph `graph` and the resolved
/// blocks `resolved`; `traced` is the graph after the second pass, and
/// `visited` are the expressions that the second pass visited.
///
/// - The first pass executes the basic blocks symbolically, from the graph
///   that holds nothing; it leaves the database `after` behind, and a
///   well-formed table that holds the writes of the blocks. It gives
///   assignments to numbered variables and to values of registers on
///   leaving a block only.
/// - The second pass finds the roots and traces them: it visits the
///   expressions to which the trace gets from the roots, and is done with
///   each of them; it adds nodes to the graph, and to variables that it
///   visited the assignments that the trace gives to them.
/// - The third pass resolves the basic blocks, no deeper than the graph had
///   nodes after the second pass; it adds nodes to the graph.
pub open spec fn built_in_passes(
    dol: Reader,
    before: Map<u32, FactsView>,
    entry_point: u32,
    blocks: Seq<u32>,
    after: Map<u32, FactsView>,
    traced_graph: Graph,
    visited: Set<usize>,
    graph: Graph,
    resolved: Seq<ResolvedBlockView>,
) -> bool {
    let executed = blocks_executed(dol, empty_graph(), before, blocks);
    &&& crate::address_set::ascending(blocks)
    &&& forall|addr: u32| blocks.contains(addr) <==> facts_about(before, addr).basic_block is Some
    &&& executed is Ok
    &&& executed->Ok_0.1 == after
    &&& executed_valid(executed->Ok_0.0.nodes, after, blocks)
    &&& assigns_as_executed(Map::empty(), executed->Ok_0.0)
    &&& traced_graph.nodes.len() <= usize::MAX
    &&& rooted(executed->Ok_0.0.nodes, after, blocks, entry_point) is Ok
    &&& grown_in_trace(
        executed->Ok_0.0,
        rooted(executed->Ok_0.0.nodes, after, blocks, entry_point)->Ok_0.0,
        traced_graph,
        after,
    )
    &&& forall|k: int|
        0 <= k < rooted(executed->Ok_0.0.nodes, after, blocks, entry_point)->Ok_0.1.len()
            ==> visited.contains(
            (#[trigger] rooted(executed->Ok_0.0.nodes, after, blocks, entry_point)->Ok_0.1[k]).raw(),
        )
    &&& forall|raw: usize| #[trigger]
        visited.contains(raw) ==> settled(traced_graph, after, visited, ExprRef(raw))
    &&& forall|raw: usize| #[trigger]
        visited.contains(raw) ==> traced_from(
            traced_graph,
            after,
            rooted(executed->Ok_0.0.nodes, after, blocks, entry_point)->Ok_0.1,
            ExprRef(raw),
        )
    &&& forall|variable: ExprRef| #[trigger]
        traced_graph.assignments.contains_key(variable)
            && !executed->Ok_0.0.assignments.contains_key(variable) ==> visited.contains(
            variable.raw(),
        )
    &&& blocks_resolved(
        traced_graph.nodes,
        traced_graph.assignments,
        after,
        blocks,
        traced_graph.nodes.len(),
        Seq::empty(),
    ) == Ok::<(Seq<Node<Name>>, Seq<ResolvedBlockView>), ExpressionError>((graph.nodes, resolved))
    &&& graph.assignments == traced_graph.assignments
    &&& graph.next == traced_graph.next
}

/// Whether the table that the first pass leaves is one that a context can
/// hold, with the addresses of the writes of the basic blocks in it.
pub open spec fn executed_valid(
    nodes: Seq<Node<Name>>,
    db: Map<u32, FactsView>,
    blocks: Seq<u32>,
) -> bool {
    &&& table_wf(nodes)
    &&& forall|k: int, j: int|
        0 <= k < blocks.len() && 0 <= j < facts_about(db, blocks[k]).basic_block->0.writes.len()
            ==> (#[trigger] facts_about(db, blocks[k]).basic_block->0.writes[j]).addr.raw()
            < nodes.len()
}

/// What the three passes make of a program.
pub struct Expressions {
    /// The expression graph.
    pub context: Context,
    /// What the first pass did in each basic block, in ascending order of
    /// the addresses of the blocks.
    pub executed: Vec<ExecutedBlock>,
    /// The roots of the trace.
    pub roots: Vec<ExprRef>,
    /// The variables to which the trace gave an assignment, each with its
    /// assignment.
    pub assigned: Vec<(ExprRef, ExprRef)>,
    /// The resolved basic blocks, in ascending order of their addresses.
    pub resolved: Vec<ResolvedBlock>,
}

/// Whether what the passes hand back beside the graph and the resolved
/// blocks is what they did: what the first pass did in each basic block,
/// the roots, and the assignments that the trace gave.
pub open spec fn listed_in_passes(
    dol: Reader,
    before: Map<u32, FactsView>,
    entry_point: u32,
    blocks: Seq<u32>,
    traced_graph: Graph,
    built: &Expressions,
) -> bool {
    let executed = blocks_executed(dol, empty_graph(), before, blocks)->Ok_0;
    &&& executed_views(built.executed@) == blocks_listed(dol, empty_graph(), before, blocks)
    &&& built.roots@ == rooted(executed.0.nodes, executed.1, blocks, entry_point)->Ok_0.1
    &&& lists_new_assignments(executed.0.assignments, traced_graph.assignments, built.assigned@)
}

/// Whether `graph` is what a trace can make of the graph `executed` once
/// the roots stand in the table `nodes`: it has further nodes, and further
/// assignments that are those that the trace gives, and nothing else has
/// changed.
pub open spec fn grown_in_trace(
    executed: Graph,
    nodes: Seq<Node<Name>>,
    graph: Graph,
    db: Map<u32, FactsView>,
) -> bool {
    &&& extends(nodes, graph.nodes)
    &&& assignments_kept(executed.assignments, graph.assignments)
    &&& assigned_in_trace(executed.assignments, graph, db)
    &&& graph.next == executed.next
}

/// Whether the three passes fail with the given error on a database in
/// which `blocks` are the basic blocks, in ascending order.
///
/// - Where the first pass fails, or the search for the roots, the error is
///   theirs.
/// - Else the trace fails, in a graph that it has made: its steps ran out,
///   as it gets from the roots to more than `max_steps` expressions; or the
///   error is that of a trace step on an expression to which it gets from
///   the roots.
///
/// The third pass does not fail.
pub open spec fn failed_in_passes(
    dol: Reader,
    before: Map<u32, FactsView>,
    entry_point: u32,
    blocks: Seq<u32>,
    max_steps: usize,
    error: ExpressionError,
) -> bool {
    &&& crate::address_set::ascending(blocks)
    &&& forall|addr: u32| blocks.contains(addr) <==> facts_about(before, addr).basic_block is Some
    &&& match blocks_executed(dol, empty_graph(), before, blocks) {
        Err(first) => error == first,
        Ok(executed) => match rooted(executed.0.nodes, executed.1, blocks, entry_point) {
            Err(second) => error == second,
            Ok(found) => exists|graph: Graph| #[trigger]
                grown_in_trace(executed.0, found.0, graph, executed.1) && (out_of_steps(
                    error,
                    max_steps,
                    graph,
                    executed.1,
                    found.1,
                ) || fails_on_trace(error, graph, executed.1, found.1)),
        },
    }
}

/// Builds expressions: executes every basic block of the database
/// symbolically and records its writes; traces the roots back through the
/// graph of basic blocks, in at most `max_steps` steps; and resolves what
/// each basic block leaves behind. Hands back the expression graph, the
/// resolved blocks, and what the passes did on the way.
///
/// Fails where a basic block cannot be executed, where the roots cannot be
/// found, or where the trace fails; not otherwise. Whether it fails or not,
/// the database is what it was but for the writes of the basic blocks that
/// were executed.
pub fn build_expressions(dol: Reader, db: &mut FactDatabase, entry_point: u32, max_steps: usize) -> (r:
    Result<Expressions, ExpressionError>)
    requires
        old(db).wf(),
        forall|addr: u32|
            (#[trigger] facts_about(old(db)@, addr)).basic_block is Some ==> facts_about(
                old(db)@,
                addr,
            ).basic_block->0.writes.len() == 0,
    ensures
        final(db).wf(),
        same_besides_writes(old(db)@, final(db)@),
        match r {
            Ok(built) => {
                &&& built.context.wf()
                &&& exists|blocks: Seq<u32>, traced_graph: Graph, visited: Set<usize>|
                    built_in_passes(
                        dol,
                        old(db)@,
                        entry_point,
                        blocks,
                        final(db)@,
                        traced_graph,
                        visited,
                        graph_of(&built.context),
                        block_views(built.resolved@),
                    ) && listed_in_passes(dol, old(db)@, entry_point, blocks, traced_graph, &built)
            },
            Err(error) => exists|blocks: Seq<u32>|
                failed_in_passes(dol, old(db)@, entry_point, blocks, max_steps, error),
        },
{
    let basic_block_addrs = db.iter_facts_with_type::<BasicBlockFact>();
    let ghost before = db@;
    let mut ctx = Context::new();
    proof {
        assert(graph_of(&ctx) =~= empty_graph());
        assert forall|addr: u32|
            basic_block_addrs@.contains(addr) <==> facts_about(before, addr).basic_block is Some by {}
    }
    // First expression pass: local symbolic execution.
    let executed_blocks = match execute_blocks(dol, &mut ctx, db, &basic_block_addrs) {
        Ok(executed_blocks) => executed_blocks,
        Err(error) => {
            proof {
                assert(failed_in_passes(
                    dol,
                    before,
                    entry_point,
                    basic_block_addrs@,
                    max_steps,
                    error,
                ));
            }
            return Err(error);
        },
    };
    let ghost executed = graph_of(&ctx);
    proof {
        ctx.context().lemma_wf();
        assert(executed_valid(executed.nodes, db@, basic_block_addrs@)) by {
            assert forall|k: int, j: int|
                0 <= k < basic_block_addrs@.len() && 0 <= j < facts_about(
                    db@,
                    basic_block_addrs@[k],
                ).basic_block->0.writes.len() implies (#[trigger] facts_about(
                db@,
                basic_block_addrs@[k],
            ).basic_block->0.writes[j]).addr.raw() < executed.nodes.len() by {
                lemma_blocks_kept(dol, empty_graph(), before, basic_block_addrs@);
                assert(basic_block_addrs@.contains(basic_block_addrs@[k]));
                assert(facts_about(db@, basic_block_addrs@[k]).basic_block is Some);
            }
        }
    }
    // Second expression pass: work backward from writes and returns.
    let found = match roots(&mut ctx, db, &basic_block_addrs, entry_point) {
        Ok(found) => found,
        Err(error) => {
            proof {
                assert(failed_in_passes(
                    dol,
                    before,
                    entry_point,
                    basic_block_addrs@,
                    max_steps,
                    error,
                ));
            }
            return Err(error);
        },
    };
    let ghost rooted_nodes = ctx.nodes();
    let Traced { visited, assigned } = match trace(&mut ctx, db, &found, max_steps) {
        Ok(traced) => traced,
        Err(error) => {
            proof {
                assert(grown_in_trace(executed, rooted_nodes, graph_of(&ctx), db@));
                assert(failed_in_passes(
                    dol,
                    before,
                    entry_point,
                    basic_block_addrs@,
                    max_steps,
                    error,
                ));
            }
            return Err(error);
        },
    };
    let ghost traced_graph = graph_of(&ctx);
    proof {
        ctx.context().lemma_wf();
    }
    let ghost traced_ctx = ctx;
    // Third expression pass: resolve the variables.
    let depth = ctx.inner().len();
    proof {
        lemma_writes_valid_extends(db@, &traced_ctx, &ctx);
    }
    let resolved = match resolve_blocks(&mut ctx, db, &basic_block_addrs, depth) {
        Ok(resolved) => resolved,
        Err(error) => {
            proof {
                lemma_blocks_kept(dol, empty_graph(), before, basic_block_addrs@);
                assert forall|k: int| 0 <= k < basic_block_addrs@.len() implies (#[trigger] facts_about(
                    db@,
                    basic_block_addrs@[k],
                )).basic_block is Some by {
                    assert(basic_block_addrs@.contains(basic_block_addrs@[k]));
                }
                lemma_blocks_resolve(
                    traced_graph.nodes,
                    traced_graph.assignments,
                    db@,
                    basic_block_addrs@,
                    depth as nat,
                    Seq::empty(),
                );
            }
            unreached()
        },
    };
    let ghost found_roots = found@;
    let built = Expressions {
        context: ctx,
        executed: executed_blocks,
        roots: found,
        assigned,
        resolved,
    };
    proof {
        assert(built.context.wf());
        assert(built_in_passes(
            dol,
            old(db)@,
            entry_point,
            basic_block_addrs@,
            db@,
            traced_graph,
            visited.known(),
            graph_of(&built.context),
            block_views(built.resolved@),
        ));
        assert(listed_in_passes(
            dol,
            old(db)@,
            entry_point,
            basic_block_addrs@,
            traced_graph,
            &built,
        ));
    }
    Ok(built)
}

/// The roots of a run of the three passes: an expression is a root exactly
/// if it is the address or the data of a write of a basic block that does
/// not go to the stack frame of the function itself, or the value of `r3`
/// on leaving a basic block without a successor; and the trace has visited
/// every root.
pub proof fn lemma_run_roots(
    dol: Reader,
    before: Map<u32, FactsView>,
    entry_point: u32,
    blocks: Seq<u32>,
    after: Map<u32, FactsView>,
    traced_graph: Graph,
    visited: Set<usize>,
    graph: Graph,
    resolved: Seq<ResolvedBlockView>,
    root: ExprRef,
)
    requires
        built_in_passes(
            dol,
            before,
            entry_point,
            blocks,
            after,
            traced_graph,
            visited,
            graph,
            resolved,
        ),
    ensures
        ({
            let executed = blocks_executed(dol, empty_graph(), before, blocks)->Ok_0;
            let stack_base = interned(executed.0.nodes, stack_pointer(entry_point));
            let found = rooted(executed.0.nodes, after, blocks, entry_point)->Ok_0;
            &&& found.1.contains(root) <==> exists|k: int|
                0 <= k < blocks.len() && block_root(
                    stack_base.0,
                    found.0,
                    stack_base.1,
                    after,
                    #[trigger] blocks[k],
                    root,
                )
            &&& found.1.contains(root) ==> visited.contains(root.raw())
        }),
{
    let executed = blocks_executed(dol, empty_graph(), before, blocks)->Ok_0;
    let found = rooted(executed.0.nodes, after, blocks, entry_point)->Ok_0;
    lemma_rooted(executed.0.nodes, after, blocks, entry_point, root);
    if found.1.contains(root) {
        let k = choose|k: int| 0 <= k < found.1.len() && found.1[k] == root;
        assert(visited.contains(found.1[k].raw()));
    }
}

/// The values of registers on entering basic blocks in a run of the three
/// passes. Of a variable for the value of a register on entering a basic
/// block that the trace has visited: where the block has predecessors, its
/// assignment is the φ of the values of the register on leaving them, in
/// the order of their references, and the trace has visited that φ too;
/// where the block has none, the variable has no assignment.
pub proof fn lemma_run_entering(
    dol: Reader,
    before: Map<u32, FactsView>,
    entry_point: u32,
    blocks: Seq<u32>,
    after: Map<u32, FactsView>,
    traced_graph: Graph,
    visited: Set<usize>,
    graph: Graph,
    resolved: Seq<ResolvedBlockView>,
    variable: ExprRef,
    basic_block_addr: u32,
    register: Register,
)
    requires
        built_in_passes(
            dol,
            before,
            entry_point,
            blocks,
            after,
            traced_graph,
            visited,
            graph,
            resolved,
        ),
        visited.contains(variable.raw()),
        traced_graph.nodes[variable.raw() as int] == Node::<Name>::Variable(
            NumberedVariable::Named(Variable::RegisterEntering { basic_block_addr, register }),
        ),
    ensures
        facts_about(after, basic_block_addr).basic_block is Some,
        ({
            let block = facts_about(after, basic_block_addr).basic_block->0;
            if block.predecessors.len() > 0 {
                &&& traced_graph.assignments.contains_key(variable)
                &&& visited.contains(traced_graph.assignments[variable].raw())
                &&& exists|operands: Seq<ExprRef>| #[trigger]
                    leaving_refs(traced_graph.nodes, block.predecessors, register, operands)
                        && traced_graph.nodes[traced_graph.assignments[variable].raw() as int]
                        == Node::<Name>::Phi(sorted(operands))
            } else {
                !traced_graph.assignments.contains_key(variable)
            }
        }),
{
    let executed = blocks_executed(dol, empty_graph(), before, blocks)->Ok_0;
    let found = rooted(executed.0.nodes, after, blocks, entry_point)->Ok_0;
    assert(ExprRef(variable.raw()) == variable);
    assert(settled(traced_graph, after, visited, variable));
    let step = traced(traced_graph, after, variable)->Ok_0;
    if traced_graph.assignments.contains_key(variable) {
        if executed.0.assignments.contains_key(variable) {
            lemma_rooted_extends(executed.0.nodes, after, blocks, entry_point);
            assert(traced_graph.nodes[variable.raw() as int] == executed.0.nodes[variable.raw() as int]);
        } else {
            assert(assigned_as_traced(traced_graph, after, variable));
        }
        assert(step.1[0] == traced_graph.assignments[variable]);
    } else {
        let block = facts_about(after, basic_block_addr).basic_block;
        if block is Some && block->0.predecessors.len() > 0 {
            assert(step.0.assignments.contains_key(variable));
        }
    }
}

} // verus!
