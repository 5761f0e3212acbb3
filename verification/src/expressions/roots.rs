//! The roots of the trace: what a program leaves behind.

use vstd::prelude::*;

use crate::expressions::address::base_offset;
use crate::expressions::address::extract_base_offset;
use crate::expressions::execution::writes_valid;
use crate::expressions::ExpressionError;
use crate::fact::basic_block::BasicBlockFact;
use crate::fact::basic_block::facts_about;
use crate::fact::BlockView;
use crate::fact::FactsView;
use crate::fact_database::FactDatabase;
use crate::powerpc::gpr_constants::r1;
use crate::powerpc::gpr_constants::r3;
use crate::powerpc::register::gpr::Gpr;
use crate::powerpc::register::Register;
use crate::powerpc_symbolic::Context;
use crate::powerpc_symbolic::Name;
use crate::powerpc_symbolic::Variable;
use crate::powerpc_symbolic::Write;
use crate::symbolic::context::extends;
use crate::symbolic::context::interned;
use crate::symbolic::context::lemma_interned;
use crate::symbolic::context::lemma_interned_stands;
use crate::symbolic::context::lemma_place_unique;
use crate::symbolic::context::node_ok;
use crate::symbolic::context::table_wf;
use crate::symbolic::expr::Node;
use crate::symbolic::expr_ref::ExprRef;
use crate::symbolic::numbered::NumberedVariable;

verus! {

/// Whether a write goes to the stack frame of the function itself: its
/// address is the stack pointer on entering the function with the offset 4
/// or a negative offset.
pub open spec fn stack_write(nodes: Seq<Node<Name>>, stack_base: ExprRef, write: Write) -> bool {
    match base_offset(nodes, write.addr) {
        Some(parts) => parts.base == stack_base && (parts.offset == 4 || parts.offset < 0),
        None => false,
    }
}

/// The table after a write was looked at for rooting, and the roots that
/// it gives: its address and its data, unless it goes to the stack frame of
/// the function itself.
pub open spec fn write_rooted(nodes: Seq<Node<Name>>, stack_base: ExprRef, write: Write) -> (
    Seq<Node<Name>>,
    Seq<ExprRef>,
) {
    (
        match base_offset(nodes, write.addr) {
            Some(parts) => parts.nodes,
            None => nodes,
        },
        if stack_write(nodes, stack_base, write) {
            Seq::empty()
        } else {
            seq![write.addr, write.data]
        },
    )
}

/// The table after the writes were looked at for rooting, and the roots
/// that they give, in order, after the given ones.
pub open spec fn writes_rooted(
    nodes: Seq<Node<Name>>,
    stack_base: ExprRef,
    writes: Seq<Write>,
    roots: Seq<ExprRef>,
) -> (Seq<Node<Name>>, Seq<ExprRef>)
    decreases writes.len(),
{
    if writes.len() == 0 {
        (nodes, roots)
    } else {
        let first = write_rooted(nodes, stack_base, writes[0]);
        writes_rooted(first.0, stack_base, writes.drop_first(), roots + first.1)
    }
}

/// The table after a basic block was looked at for rooting, and the roots
/// that it gives after the given ones: those of its writes, and the value of
/// `r3` on leaving the block if the block has no successor, which is what
/// the function returns.
pub open spec fn block_rooted(
    nodes: Seq<Node<Name>>,
    stack_base: ExprRef,
    addr: u32,
    block: BlockView,
    roots: Seq<ExprRef>,
) -> (Seq<Node<Name>>, Seq<ExprRef>) {
    let writes = writes_rooted(nodes, stack_base, block.writes, roots);
    if block.successors.len() == 0 {
        let returned = interned(writes.0, returned_value(addr));
        (returned.0, writes.1.push(returned.1))
    } else {
        writes
    }
}

/// The variable for what a function returns through a basic block: the
/// value of `r3` on leaving the block.
pub open spec fn returned_value(addr: u32) -> Node<Name> {
    Node::Variable(
        NumberedVariable::Named(
            Variable::RegisterLeaving {
                basic_block_addr: addr,
                register: Register::GeneralPurpose(Gpr::of_index(3)),
            },
        ),
    )
}

/// The variable for the stack pointer on entering the function: the value
/// of `r1` on entering the basic block at the entry point.
pub open spec fn stack_pointer(entry_point: u32) -> Node<Name> {
    Node::Variable(
        NumberedVariable::Named(
            Variable::RegisterEntering {
                basic_block_addr: entry_point,
                register: Register::GeneralPurpose(Gpr::of_index(1)),
            },
        ),
    )
}

/// The table after the basic blocks were looked at for rooting, and the
/// roots that they give after the given ones.
pub open spec fn blocks_rooted(
    nodes: Seq<Node<Name>>,
    stack_base: ExprRef,
    db: Map<u32, FactsView>,
    blocks: Seq<u32>,
    roots: Seq<ExprRef>,
) -> Result<(Seq<Node<Name>>, Seq<ExprRef>), ExpressionError>
    decreases blocks.len(),
{
    if blocks.len() == 0 {
        Ok((nodes, roots))
    } else {
        match facts_about(db, blocks[0]).basic_block {
            None => Err(ExpressionError::MissingBlock(blocks[0])),
            Some(block) => {
                let first = block_rooted(nodes, stack_base, blocks[0], block, roots);
                blocks_rooted(first.0, stack_base, db, blocks.drop_first(), first.1)
            },
        }
    }
}

/// The roots of the trace: the expressions that the program leaves behind.
pub open spec fn rooted(
    nodes: Seq<Node<Name>>,
    db: Map<u32, FactsView>,
    blocks: Seq<u32>,
    entry_point: u32,
) -> Result<(Seq<Node<Name>>, Seq<ExprRef>), ExpressionError> {
    let stack_base = interned(nodes, stack_pointer(entry_point));
    blocks_rooted(stack_base.0, stack_base.1, db, blocks, Seq::empty())
}

/// Says whether a write goes to the stack frame of the function itself,
/// and if it does, hands back the offset from the stack pointer.
pub fn stack_frame_write(ctx: &mut Context, stack_base: ExprRef, write: &Write) -> (r: Option<i32>)
    requires
        old(ctx).wf(),
        old(ctx).valid(write.addr),
    ensures
        final(ctx).wf(),
        final(ctx).assignments() == old(ctx).assignments(),
        final(ctx).next_number() == old(ctx).next_number(),
        extends(old(ctx).nodes(), final(ctx).nodes()),
        final(ctx).nodes() == write_rooted(old(ctx).nodes(), stack_base, *write).0,
        r is Some <==> stack_write(old(ctx).nodes(), stack_base, *write),
        r is Some ==> r->0 == base_offset(old(ctx).nodes(), write.addr)->0.offset,
{
    match extract_base_offset(ctx, write.addr) {
        Some((base, offset)) => {
            if base == stack_base && (offset == 4 || offset < 0) {
                Some(offset)
            } else {
                None
            }
        },
        None => None,
    }
}

/// Looks at the writes of a basic block for rooting.
fn root_writes(ctx: &mut Context, stack_base: ExprRef, writes: &Vec<Write>, roots: &mut Vec<ExprRef>)
    requires
        old(ctx).wf(),
        forall|k: int|
            0 <= k < writes@.len() ==> old(ctx).valid((#[trigger] writes@[k]).addr) && old(
                ctx,
            ).valid(writes@[k].data),
        forall|k: int| 0 <= k < old(roots)@.len() ==> old(ctx).valid(#[trigger] old(roots)@[k]),
    ensures
        final(ctx).wf(),
        final(ctx).assignments() == old(ctx).assignments(),
        final(ctx).next_number() == old(ctx).next_number(),
        extends(old(ctx).nodes(), final(ctx).nodes()),
        forall|k: int| 0 <= k < final(roots)@.len() ==> final(ctx).valid(#[trigger] final(roots)@[k]),
        (final(ctx).nodes(), final(roots)@) == writes_rooted(
            old(ctx).nodes(),
            stack_base,
            writes@,
            old(roots)@,
        ),
{
    let mut i: usize = 0;
    proof {
        assert(writes@.skip(0) =~= writes@);
    }
    while i < writes.len()
        invariant
            i <= writes.len(),
            ctx.wf(),
            ctx.assignments() == old(ctx).assignments(),
            ctx.next_number() == old(ctx).next_number(),
            extends(old(ctx).nodes(), ctx.nodes()),
            forall|k: int|
                0 <= k < writes@.len() ==> old(ctx).valid((#[trigger] writes@[k]).addr) && old(
                    ctx,
                ).valid(writes@[k].data),
            forall|k: int| 0 <= k < roots@.len() ==> ctx.valid(#[trigger] roots@[k]),
            writes_rooted(old(ctx).nodes(), stack_base, writes@, old(roots)@) == writes_rooted(
                ctx.nodes(),
                stack_base,
                writes@.skip(i as int),
                roots@,
            ),
        decreases writes.len() - i,
    {
        let write = writes[i];
        let ghost table = ctx.nodes();
        let ghost before = roots@;
        proof {
            assert(writes@.skip(i as int)[0] == write);
            assert(writes@.skip(i as int).drop_first() =~= writes@.skip(i + 1));
            assert(old(ctx).valid(writes@[i as int].addr));
        }
        let local = stack_frame_write(ctx, stack_base, &write).is_some();
        if !local {
            roots.push(write.addr);
            roots.push(write.data);
            proof {
                assert(roots@ =~= before + seq![write.addr, write.data]);
            }
        } else {
            // This is a write to this function's stack frame. Don't treat it as a root. If
            // it's referenced elsewhere, it will be found in the tracing phase.
            proof {
                assert(roots@ =~= before + Seq::<ExprRef>::empty());
            }
        }
        proof {
            assert forall|k: int| 0 <= k < roots@.len() implies ctx.valid(#[trigger] roots@[k]) by {
                if k < before.len() {
                    assert(roots@[k] == before[k]);
                    assert(before[k].raw() < table.len());
                } else {
                    assert(old(ctx).valid(writes@[i as int].data));
                }
            }
        }
        i += 1;
    }
}

/// The roots of the trace: the address and the data of every write of the
/// basic blocks but those to the stack frame of the function itself, and
/// what the function returns through each basic block without a successor.
pub fn roots(ctx: &mut Context, db: &FactDatabase, blocks: &Vec<u32>, entry_point: u32) -> (r:
    Result<Vec<ExprRef>, ExpressionError>)
    requires
        old(ctx).wf(),
        writes_valid(db@, old(ctx)),
    ensures
        final(ctx).wf(),
        final(ctx).assignments() == old(ctx).assignments(),
        final(ctx).next_number() == old(ctx).next_number(),
        extends(old(ctx).nodes(), final(ctx).nodes()),
        match rooted(old(ctx).nodes(), db@, blocks@, entry_point) {
            Ok(found) => r is Ok && r->Ok_0@ == found.1 && final(ctx).nodes() == found.0,
            Err(error) => r == Err::<Vec<ExprRef>, ExpressionError>(error),
        },
        r is Ok ==> forall|k: int| 0 <= k < r->Ok_0@.len() ==> final(ctx).valid(#[trigger] r->Ok_0@[k]),
{
    // Seed the work set with the variables directly referenced from any memory write or return
    // value expressions.
    let mut found: Vec<ExprRef> = Vec::new();
    let stack_base = ctx.variable_expr(
        Variable::RegisterEntering { basic_block_addr: entry_point, register: Register::from(r1()) },
    );
    let ghost start = ctx.nodes();
    let mut i: usize = 0;
    proof {
        assert(blocks@.skip(0) =~= blocks@);
    }
    while i < blocks.len()
        invariant
            i <= blocks.len(),
            ctx.wf(),
            writes_valid(db@, old(ctx)),
            ctx.assignments() == old(ctx).assignments(),
            ctx.next_number() == old(ctx).next_number(),
            extends(old(ctx).nodes(), ctx.nodes()),
            forall|k: int| 0 <= k < found@.len() ==> ctx.valid(#[trigger] found@[k]),
            rooted(old(ctx).nodes(), db@, blocks@, entry_point) == blocks_rooted(
                ctx.nodes(),
                stack_base,
                db@,
                blocks@.skip(i as int),
                found@,
            ),
        decreases blocks.len() - i,
    {
        let addr = blocks[i];
        proof {
            assert(blocks@.skip(i as int)[0] == addr);
            assert(blocks@.skip(i as int).drop_first() =~= blocks@.skip(i + 1));
        }
        let (writes, is_exit) = match db.get_fact::<BasicBlockFact>(addr) {
            Some(block) => (
                vstd::slice::slice_to_vec(block.writes()),
                block.successors().len() == 0,
            ),
            None => {
                return Err(ExpressionError::MissingBlock(addr));
            },
        };
        proof {
            assert forall|k: int| 0 <= k < writes@.len() implies ctx.valid(
                (#[trigger] writes@[k]).addr,
            ) && ctx.valid(writes@[k].data) by {
                assert(old(ctx).valid(facts_about(db@, addr).basic_block->0.writes[k].addr));
            }
        }
        root_writes(ctx, stack_base, &writes, &mut found);
        if is_exit {
            let ghost before = found@;
            let ghost table = ctx.nodes();
            let variable = ctx.variable_expr(
                Variable::RegisterLeaving { basic_block_addr: addr, register: Register::from(r3()) },
            );
            found.push(variable);
            proof {
                assert forall|k: int| 0 <= k < found@.len() implies ctx.valid(
                    #[trigger] found@[k],
                ) by {
                    if k < before.len() {
                        assert(found@[k] == before[k]);
                        assert(before[k].raw() < table.len());
                    }
                }
            }
        }
        i += 1;
    }
    Ok(found)
}

/// The roots that the writes give, over one table: the address and the
/// data of each write that does not go to the stack frame of the function
/// itself, in the order of the writes.
pub open spec fn roots_of_writes(nodes: Seq<Node<Name>>, stack_base: ExprRef, writes: Seq<Write>) -> Seq<
    ExprRef,
>
    decreases writes.len(),
{
    if writes.len() == 0 {
        Seq::empty()
    } else {
        (if stack_write(nodes, stack_base, writes[0]) {
            Seq::empty()
        } else {
            seq![writes[0].addr, writes[0].data]
        }) + roots_of_writes(nodes, stack_base, writes.drop_first())
    }
}

/// Whether a write goes to the stack frame of the function itself does not
/// depend on what the table holds behind the write and the stack pointer.
pub proof fn lemma_stack_write_kept(
    before: Seq<Node<Name>>,
    after: Seq<Node<Name>>,
    stack_base: ExprRef,
    write: Write,
)
    requires
        table_wf(before),
        extends(before, after),
        write_rooted(after, stack_base, write).0.len() <= usize::MAX,
        write.addr.raw() < before.len(),
        stack_base.raw() < before.len(),
        before[stack_base.raw() as int] is Variable,
    ensures
        stack_write(after, stack_base, write) == stack_write(before, stack_base, write),
{
    let node = before[write.addr.raw() as int];
    assert(after[write.addr.raw() as int] == node);
    assert(node_ok(before, node, write.addr.raw() as int));
    match node {
        Node::Literal(_) => {
            let zero = Node::<Name>::Literal(0);
            assert(interned(before, zero).0.len() <= usize::MAX) by {
                reveal(interned);
                if before.len() == after.len() {
                    assert(before =~= after);
                }
            }
            lemma_interned_stands(before, zero);
            lemma_interned_stands(after, zero);
            let first = interned(before, zero);
            let second = interned(after, zero);
            assert(first.0[stack_base.raw() as int] == before[stack_base.raw() as int]);
            assert(second.0[stack_base.raw() as int] == before[stack_base.raw() as int]);
        },
        Node::Add(exprs) => {
            if exprs.len() == 2 {
                assert(node.operands()[0] == exprs[0]);
                assert(node.operands()[1] == exprs[1]);
                assert(after[exprs[0].raw() as int] == before[exprs[0].raw() as int]);
                assert(after[exprs[1].raw() as int] == before[exprs[1].raw() as int]);
            }
        },
        _ => {},
    }
}

/// Looking at a write for rooting leaves a well-formed table that begins
/// with the old one and is longer by at most one node.
proof fn lemma_write_rooted_table(nodes: Seq<Node<Name>>, stack_base: ExprRef, write: Write)
    requires
        table_wf(nodes),
        write_rooted(nodes, stack_base, write).0.len() <= usize::MAX,
    ensures
        table_wf(write_rooted(nodes, stack_base, write).0),
        extends(nodes, write_rooted(nodes, stack_base, write).0),
{
    let zero = Node::<Name>::Literal(0);
    if nodes[write.addr.raw() as int] is Literal {
        if nodes.contains(zero) {
            reveal(interned);
        } else {
            assert(nodes.len() < usize::MAX) by {
                reveal(interned);
            }
            lemma_interned(nodes, zero);
        }
    }
}

/// Looking at writes for rooting leaves a table that begins with the old
/// one.
proof fn lemma_writes_extend(
    nodes: Seq<Node<Name>>,
    stack_base: ExprRef,
    writes: Seq<Write>,
    roots: Seq<ExprRef>,
)
    ensures
        extends(nodes, writes_rooted(nodes, stack_base, writes, roots).0),
    decreases writes.len(),
{
    if writes.len() > 0 {
        let first = write_rooted(nodes, stack_base, writes[0]);
        assert(extends(nodes, first.0)) by {
            reveal(interned);
        }
        lemma_writes_extend(first.0, stack_base, writes.drop_first(), roots + first.1);
    }
}

/// Looking at a basic block for rooting leaves a table that begins with the
/// old one.
proof fn lemma_block_extends(
    nodes: Seq<Node<Name>>,
    stack_base: ExprRef,
    addr: u32,
    block: BlockView,
    roots: Seq<ExprRef>,
)
    ensures
        extends(nodes, block_rooted(nodes, stack_base, addr, block, roots).0),
{
    lemma_writes_extend(nodes, stack_base, block.writes, roots);
    let writes = writes_rooted(nodes, stack_base, block.writes, roots);
    assert(extends(writes.0, interned(writes.0, returned_value(addr)).0)) by {
        reveal(interned);
    }
}

/// Looking at basic blocks for rooting leaves a table that begins with the
/// old one.
proof fn lemma_blocks_extend(
    nodes: Seq<Node<Name>>,
    stack_base: ExprRef,
    db: Map<u32, FactsView>,
    blocks: Seq<u32>,
    roots: Seq<ExprRef>,
)
    requires
        blocks_rooted(nodes, stack_base, db, blocks, roots) is Ok,
    ensures
        extends(nodes, blocks_rooted(nodes, stack_base, db, blocks, roots)->Ok_0.0),
    decreases blocks.len(),
{
    if blocks.len() > 0 {
        let block = facts_about(db, blocks[0]).basic_block->0;
        let first = block_rooted(nodes, stack_base, blocks[0], block, roots);
        lemma_block_extends(nodes, stack_base, blocks[0], block, roots);
        lemma_blocks_extend(first.0, stack_base, db, blocks.drop_first(), first.1);
    }
}

/// The search for the roots leaves a table that begins with the old one.
pub proof fn lemma_rooted_extends(
    nodes: Seq<Node<Name>>,
    db: Map<u32, FactsView>,
    blocks: Seq<u32>,
    entry_point: u32,
)
    requires
        rooted(nodes, db, blocks, entry_point) is Ok,
    ensures
        extends(nodes, rooted(nodes, db, blocks, entry_point)->Ok_0.0),
{
    let stack_base = interned(nodes, stack_pointer(entry_point));
    assert(extends(nodes, stack_base.0)) by {
        reveal(interned);
    }
    lemma_blocks_extend(stack_base.0, stack_base.1, db, blocks, Seq::empty());
}

/// The roots that the writes give are, behind the roots given before, the
/// address and the data of each write that does not go to the stack frame
/// of the function itself, whatever the table has grown by since the table
/// `base`.
pub proof fn lemma_writes_rooted(
    base: Seq<Node<Name>>,
    nodes: Seq<Node<Name>>,
    stack_base: ExprRef,
    writes: Seq<Write>,
    roots: Seq<ExprRef>,
)
    requires
        table_wf(base),
        table_wf(nodes),
        extends(base, nodes),
        writes_rooted(nodes, stack_base, writes, roots).0.len() <= usize::MAX,
        stack_base.raw() < base.len(),
        base[stack_base.raw() as int] is Variable,
        forall|k: int| 0 <= k < writes.len() ==> (#[trigger] writes[k]).addr.raw() < base.len(),
    ensures
        writes_rooted(nodes, stack_base, writes, roots).1 == roots + roots_of_writes(
            base,
            stack_base,
            writes,
        ),
        table_wf(writes_rooted(nodes, stack_base, writes, roots).0),
        extends(nodes, writes_rooted(nodes, stack_base, writes, roots).0),
    decreases writes.len(),
{
    lemma_writes_extend(nodes, stack_base, writes, roots);
    if writes.len() == 0 {
        assert(roots + Seq::<ExprRef>::empty() =~= roots);
    } else {
        let first = write_rooted(nodes, stack_base, writes[0]);
        let rest = writes.drop_first();
        lemma_writes_extend(first.0, stack_base, rest, roots + first.1);
        lemma_write_rooted_table(nodes, stack_base, writes[0]);
        lemma_stack_write_kept(base, nodes, stack_base, writes[0]);
        assert forall|k: int| 0 <= k < rest.len() implies (#[trigger] rest[k]).addr.raw()
            < base.len() by {
            assert(rest[k] == writes[k + 1]);
        }
        lemma_writes_rooted(base, first.0, stack_base, rest, roots + first.1);
        assert((roots + first.1) + roots_of_writes(base, stack_base, rest) =~= roots + (first.1
            + roots_of_writes(base, stack_base, rest)));
    }
}

/// Whether an expression is a root that a write gives: the write does not
/// go to the stack frame of the function itself, and the expression is its
/// address or its data.
pub open spec fn write_root(
    nodes: Seq<Node<Name>>,
    stack_base: ExprRef,
    write: Write,
    root: ExprRef,
) -> bool {
    !stack_write(nodes, stack_base, write) && (root == write.addr || root == write.data)
}

/// An expression is among the roots that writes give exactly if it is a
/// root that one of them gives.
pub proof fn lemma_roots_of_writes(
    nodes: Seq<Node<Name>>,
    stack_base: ExprRef,
    writes: Seq<Write>,
    root: ExprRef,
)
    ensures
        roots_of_writes(nodes, stack_base, writes).contains(root) <==> exists|j: int|
            0 <= j < writes.len() && write_root(nodes, stack_base, #[trigger] writes[j], root),
    decreases writes.len(),
{
    if writes.len() > 0 {
        let rest = writes.drop_first();
        let first = if stack_write(nodes, stack_base, writes[0]) {
            Seq::<ExprRef>::empty()
        } else {
            seq![writes[0].addr, writes[0].data]
        };
        let all = roots_of_writes(nodes, stack_base, writes);
        let others = roots_of_writes(nodes, stack_base, rest);
        lemma_roots_of_writes(nodes, stack_base, rest, root);
        if all.contains(root) {
            let i = choose|i: int| 0 <= i < all.len() && all[i] == root;
            if i < first.len() {
                assert(first[i] == root);
                assert(write_root(nodes, stack_base, writes[0], root));
            } else {
                assert(others[i - first.len()] == root);
                assert(others.contains(root));
                let j = choose|j: int|
                    0 <= j < rest.len() && write_root(nodes, stack_base, #[trigger] rest[j], root);
                assert(rest[j] == writes[j + 1]);
                assert(write_root(nodes, stack_base, writes[j + 1], root));
            }
        }
        if exists|j: int|
            0 <= j < writes.len() && write_root(nodes, stack_base, #[trigger] writes[j], root) {
            let j = choose|j: int|
                0 <= j < writes.len() && write_root(nodes, stack_base, #[trigger] writes[j], root);
            if j == 0 {
                if root == writes[0].addr {
                    assert(all[0] == root);
                } else {
                    assert(all[1] == root);
                }
            } else {
                assert(rest[j - 1] == writes[j]);
                assert(others.contains(root));
                let i = choose|i: int| 0 <= i < others.len() && others[i] == root;
                assert(all[first.len() + i] == root);
            }
        }
    }
}

/// Whether an expression is among the roots that a basic block gives, over
/// the table `base` for its writes and the table `nodes` for what it
/// returns: it is a root that one of its writes gives, or the block has no
/// successor and the expression is the value of `r3` on leaving it.
pub open spec fn block_root(
    base: Seq<Node<Name>>,
    nodes: Seq<Node<Name>>,
    stack_base: ExprRef,
    db: Map<u32, FactsView>,
    addr: u32,
    root: ExprRef,
) -> bool {
    let block = facts_about(db, addr).basic_block->0;
    ||| roots_of_writes(base, stack_base, block.writes).contains(root)
    ||| block.successors.len() == 0 && root.raw() < nodes.len() && nodes[root.raw() as int]
        == returned_value(addr)
}

/// The roots that a basic block gives, behind the roots given before.
proof fn lemma_block_rooted(
    base: Seq<Node<Name>>,
    nodes: Seq<Node<Name>>,
    stack_base: ExprRef,
    addr: u32,
    block: BlockView,
    roots: Seq<ExprRef>,
)
    requires
        table_wf(base),
        table_wf(nodes),
        extends(base, nodes),
        block_rooted(nodes, stack_base, addr, block, roots).0.len() <= usize::MAX,
        stack_base.raw() < base.len(),
        base[stack_base.raw() as int] is Variable,
        forall|k: int|
            0 <= k < block.writes.len() ==> (#[trigger] block.writes[k]).addr.raw() < base.len(),
    ensures
        ({
            let after = block_rooted(nodes, stack_base, addr, block, roots);
            let written = roots + roots_of_writes(base, stack_base, block.writes);
            &&& table_wf(after.0)
            &&& extends(nodes, after.0)
            &&& if block.successors.len() == 0 {
                &&& after.1.len() == written.len() + 1
                &&& after.1.drop_last() == written
                &&& after.1.last().raw() < after.0.len()
                &&& after.0[after.1.last().raw() as int] == returned_value(addr)
            } else {
                after.1 == written
            }
        }),
{
    let writes = writes_rooted(nodes, stack_base, block.writes, roots);
    lemma_block_extends(nodes, stack_base, addr, block, roots);
    assert(extends(writes.0, block_rooted(nodes, stack_base, addr, block, roots).0)) by {
        reveal(interned);
    }
    lemma_writes_rooted(base, nodes, stack_base, block.writes, roots);
    if block.successors.len() == 0 {
        let node = returned_value(addr);
        if writes.0.contains(node) {
            reveal(interned);
        } else {
            assert(writes.0.len() < usize::MAX) by {
                reveal(interned);
            }
            lemma_interned(writes.0, node);
        }
        lemma_interned_stands(writes.0, node);
        let returned = interned(writes.0, node);
        assert(writes.1.push(returned.1).drop_last() =~= writes.1);
    }
}

/// An expression is among the roots that basic blocks give exactly if it
/// was a root before or is a root that one of the blocks gives.
proof fn lemma_blocks_rooted(
    base: Seq<Node<Name>>,
    nodes: Seq<Node<Name>>,
    stack_base: ExprRef,
    db: Map<u32, FactsView>,
    blocks: Seq<u32>,
    roots: Seq<ExprRef>,
    root: ExprRef,
)
    requires
        table_wf(base),
        table_wf(nodes),
        extends(base, nodes),
        blocks_rooted(nodes, stack_base, db, blocks, roots) is Ok,
        blocks_rooted(nodes, stack_base, db, blocks, roots)->Ok_0.0.len() <= usize::MAX,
        stack_base.raw() < base.len(),
        base[stack_base.raw() as int] is Variable,
        forall|k: int, j: int|
            0 <= k < blocks.len() && 0 <= j < facts_about(db, blocks[k]).basic_block->0.writes.len()
                ==> (#[trigger] facts_about(db, blocks[k]).basic_block->0.writes[j]).addr.raw()
                < base.len(),
    ensures
        ({
            let after = blocks_rooted(nodes, stack_base, db, blocks, roots)->Ok_0;
            &&& table_wf(after.0)
            &&& extends(nodes, after.0)
            &&& after.1.contains(root) <==> roots.contains(root) || exists|k: int|
                0 <= k < blocks.len() && block_root(
                    base,
                    after.0,
                    stack_base,
                    db,
                    #[trigger] blocks[k],
                    root,
                )
        }),
    decreases blocks.len(),
{
    if blocks.len() > 0 {
        let after = blocks_rooted(nodes, stack_base, db, blocks, roots)->Ok_0;
        let block = facts_about(db, blocks[0]).basic_block->0;
        let first = block_rooted(nodes, stack_base, blocks[0], block, roots);
        let rest = blocks.drop_first();
        lemma_blocks_extend(first.0, stack_base, db, rest, first.1);
        assert forall|j: int| 0 <= j < block.writes.len() implies (#[trigger] block.writes[j]).addr.raw()
            < base.len() by {
            assert(facts_about(db, blocks[0]).basic_block->0.writes[j].addr.raw() < base.len());
        }
        lemma_block_rooted(base, nodes, stack_base, blocks[0], block, roots);
        assert forall|k: int, j: int|
            0 <= k < rest.len() && 0 <= j < facts_about(db, rest[k]).basic_block->0.writes.len()
                implies (#[trigger] facts_about(db, rest[k]).basic_block->0.writes[j]).addr.raw()
            < base.len() by {
            assert(rest[k] == blocks[k + 1]);
        }
        lemma_blocks_rooted(base, first.0, stack_base, db, rest, first.1, root);
        let written = roots + roots_of_writes(base, stack_base, block.writes);
        let here = block_root(base, after.0, stack_base, db, blocks[0], root);
        // What the first block gives.
        assert(first.1.contains(root) <==> roots.contains(root) || here) by {
            if first.1.contains(root) {
                let i = choose|i: int| 0 <= i < first.1.len() && first.1[i] == root;
                if i < written.len() {
                    if block.successors.len() == 0 {
                        assert(first.1.drop_last()[i] == root);
                    }
                    if i < roots.len() {
                        assert(roots[i] == root);
                    } else {
                        assert(roots_of_writes(base, stack_base, block.writes)[i - roots.len()]
                            == root);
                    }
                } else {
                    assert(root == first.1.last());
                    assert(after.0[root.raw() as int] == first.0[root.raw() as int]);
                }
            }
            if roots.contains(root) {
                let i = choose|i: int| 0 <= i < roots.len() && roots[i] == root;
                assert(written[i] == root);
                if block.successors.len() == 0 {
                    assert(first.1.drop_last()[i] == root);
                    assert(first.1[i] == root);
                }
            }
            if here {
                let given = roots_of_writes(base, stack_base, block.writes);
                if given.contains(root) {
                    let i = choose|i: int| 0 <= i < given.len() && given[i] == root;
                    assert(written[roots.len() + i] == root);
                    if block.successors.len() == 0 {
                        assert(first.1.drop_last()[roots.len() + i] == root);
                        assert(first.1[roots.len() + i] == root);
                    }
                } else {
                    let last = first.1.last();
                    assert(after.0[last.raw() as int] == first.0[last.raw() as int]);
                    lemma_place_unique(after.0, root, last);
                }
            }
        }
        // What the other blocks give.
        assert((exists|k: int|
            0 <= k < rest.len() && block_root(base, after.0, stack_base, db, #[trigger] rest[k], root))
            ==> exists|k: int|
            0 <= k < blocks.len() && block_root(
                base,
                after.0,
                stack_base,
                db,
                #[trigger] blocks[k],
                root,
            )) by {
            if exists|k: int|
                0 <= k < rest.len() && block_root(
                    base,
                    after.0,
                    stack_base,
                    db,
                    #[trigger] rest[k],
                    root,
                ) {
                let k = choose|k: int|
                    0 <= k < rest.len() && block_root(
                        base,
                        after.0,
                        stack_base,
                        db,
                        #[trigger] rest[k],
                        root,
                    );
                assert(rest[k] == blocks[k + 1]);
            }
        }
        if exists|k: int|
            0 <= k < blocks.len() && block_root(
                base,
                after.0,
                stack_base,
                db,
                #[trigger] blocks[k],
                root,
            ) {
            let k = choose|k: int|
                0 <= k < blocks.len() && block_root(
                    base,
                    after.0,
                    stack_base,
                    db,
                    #[trigger] blocks[k],
                    root,
                );
            if k > 0 {
                assert(rest[k - 1] == blocks[k]);
            }
        }
    }
}

/// The roots of the trace are the roots that the basic blocks give: the
/// address and the data of every write that does not go to the stack frame
/// of the function itself, and the value of `r3` on leaving every basic
/// block without a successor.
pub proof fn lemma_rooted(
    nodes: Seq<Node<Name>>,
    db: Map<u32, FactsView>,
    blocks: Seq<u32>,
    entry_point: u32,
    root: ExprRef,
)
    requires
        table_wf(nodes),
        rooted(nodes, db, blocks, entry_point) is Ok,
        rooted(nodes, db, blocks, entry_point)->Ok_0.0.len() <= usize::MAX,
        forall|k: int, j: int|
            0 <= k < blocks.len() && 0 <= j < facts_about(db, blocks[k]).basic_block->0.writes.len()
                ==> (#[trigger] facts_about(db, blocks[k]).basic_block->0.writes[j]).addr.raw()
                < nodes.len(),
    ensures
        ({
            let stack_base = interned(nodes, stack_pointer(entry_point));
            let found = rooted(nodes, db, blocks, entry_point)->Ok_0;
            found.1.contains(root) <==> exists|k: int|
                0 <= k < blocks.len() && block_root(
                    stack_base.0,
                    found.0,
                    stack_base.1,
                    db,
                    #[trigger] blocks[k],
                    root,
                )
        }),
{
    let node = stack_pointer(entry_point);
    let stack_base = interned(nodes, node);
    lemma_blocks_extend(stack_base.0, stack_base.1, db, blocks, Seq::empty());
    if nodes.contains(node) {
        reveal(interned);
    } else {
        assert(nodes.len() < usize::MAX) by {
            reveal(interned);
        }
        lemma_interned(nodes, node);
    }
    lemma_interned_stands(nodes, node);
    lemma_blocks_rooted(stack_base.0, stack_base.0, stack_base.1, db, blocks, Seq::empty(), root);
}

} // verus!
