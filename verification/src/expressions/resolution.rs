//! The third pass: the resolution of variables.

use vstd::prelude::*;

use crate::expressions::execution::lemma_writes_valid_extends;
use crate::expressions::execution::writes_valid;
use crate::expressions::ExpressionError;
use crate::expressions::roots::returned_value;
use crate::expressions::variables::ResolveVariables;
use crate::fact::basic_block::BasicBlockFact;
use crate::fact::basic_block::facts_about;
use crate::fact::BlockView;
use crate::fact::FactsView;
use crate::fact_database::FactDatabase;
use crate::powerpc::gpr_constants::r3;
use crate::powerpc::register::Register;
use crate::powerpc_symbolic::AccessWidth;
use crate::powerpc_symbolic::Context;
use crate::powerpc_symbolic::Name;
use crate::powerpc_symbolic::Variable;
use crate::powerpc_symbolic::Write;
use crate::symbolic::context::extends;
use crate::symbolic::context::interned;
use crate::symbolic::expr::Node;
use crate::symbolic::expr_ref::ExprRef;
use crate::symbolic::rewrite::mapped;

verus! {

/// A memory write with its address and its data resolved, as far as the
/// depth sufficed.
#[derive(Clone, Copy, Debug, PartialEq, Eq, Structural)]
pub struct ResolvedWrite {
    pub width: AccessWidth,
    pub addr: Option<ExprRef>,
    pub data: Option<ExprRef>,
}

/// What a basic block leaves behind, resolved.
#[derive(Debug)]
pub struct ResolvedBlock {
    /// The address at which the block starts.
    pub addr: u32,
    /// The memory writes of the block, in order.
    pub writes: Vec<ResolvedWrite>,
    /// What the function returns through the block, if the block has no
    /// successor: the expression, as far as the depth sufficed.
    pub returned: Option<Option<ExprRef>>,
}

/// A [`ResolvedBlock`] as a value.
#[verifier::ext_equal]
pub ghost struct ResolvedBlockView {
    /// The address at which the block starts.
    pub addr: u32,
    /// The memory writes of the block, in order.
    pub writes: Seq<ResolvedWrite>,
    /// What the function returns through the block.
    pub returned: Option<Option<ExprRef>>,
}

impl View for ResolvedBlock {
    type V = ResolvedBlockView;

    open spec fn view(&self) -> ResolvedBlockView {
        ResolvedBlockView { addr: self.addr, writes: self.writes@, returned: self.returned }
    }
}

/// The blocks of a list as values.
pub open spec fn block_views(blocks: Seq<ResolvedBlock>) -> Seq<ResolvedBlockView> {
    Seq::new(blocks.len(), |i: int| blocks[i]@)
}

/// The table after a write was resolved, and the resolved write: its
/// address, then its data, rewritten with every variable replaced by what it
/// stands for.
pub open spec fn write_resolved(
    nodes: Seq<Node<Name>>,
    assignments: Map<ExprRef, ExprRef>,
    write: Write,
    depth: nat,
) -> (Seq<Node<Name>>, ResolvedWrite) {
    let addr = mapped(ResolveVariables, nodes, assignments, write.addr, depth);
    let data = mapped(ResolveVariables, addr.0, assignments, write.data, depth);
    (data.0, ResolvedWrite { width: write.width, addr: addr.1, data: data.1 })
}

/// The table after the writes were resolved, and the resolved writes, in
/// order, after the given ones.
pub open spec fn writes_resolved(
    nodes: Seq<Node<Name>>,
    assignments: Map<ExprRef, ExprRef>,
    writes: Seq<Write>,
    depth: nat,
    done: Seq<ResolvedWrite>,
) -> (Seq<Node<Name>>, Seq<ResolvedWrite>)
    decreases writes.len(),
{
    if writes.len() == 0 {
        (nodes, done)
    } else {
        let first = write_resolved(nodes, assignments, writes[0], depth);
        writes_resolved(first.0, assignments, writes.drop_first(), depth, done.push(first.1))
    }
}

/// The table after a basic block was resolved, and the resolved block: its
/// writes, and what the function returns through it if it has no successor.
pub open spec fn block_resolved(
    nodes: Seq<Node<Name>>,
    assignments: Map<ExprRef, ExprRef>,
    addr: u32,
    block: BlockView,
    depth: nat,
) -> (Seq<Node<Name>>, ResolvedBlockView) {
    let writes = writes_resolved(nodes, assignments, block.writes, depth, Seq::empty());
    if block.successors.len() == 0 {
        let variable = interned(writes.0, returned_value(addr));
        let returned = mapped(ResolveVariables, variable.0, assignments, variable.1, depth);
        (returned.0, ResolvedBlockView { addr, writes: writes.1, returned: Some(returned.1) })
    } else {
        (writes.0, ResolvedBlockView { addr, writes: writes.1, returned: None })
    }
}

/// The table after the basic blocks were resolved, and the resolved blocks
/// after the given ones.
pub open spec fn blocks_resolved(
    nodes: Seq<Node<Name>>,
    assignments: Map<ExprRef, ExprRef>,
    db: Map<u32, FactsView>,
    blocks: Seq<u32>,
    depth: nat,
    done: Seq<ResolvedBlockView>,
) -> Result<(Seq<Node<Name>>, Seq<ResolvedBlockView>), ExpressionError>
    decreases blocks.len(),
{
    if blocks.len() == 0 {
        Ok((nodes, done))
    } else {
        match facts_about(db, blocks[0]).basic_block {
            None => Err(ExpressionError::MissingBlock(blocks[0])),
            Some(block) => {
                let first = block_resolved(nodes, assignments, blocks[0], block, depth);
                blocks_resolved(
                    first.0,
                    assignments,
                    db,
                    blocks.drop_first(),
                    depth,
                    done.push(first.1),
                )
            },
        }
    }
}

/// The basic blocks resolve where the database holds each of them.
pub proof fn lemma_blocks_resolve(
    nodes: Seq<Node<Name>>,
    assignments: Map<ExprRef, ExprRef>,
    db: Map<u32, FactsView>,
    blocks: Seq<u32>,
    depth: nat,
    done: Seq<ResolvedBlockView>,
)
    requires
        forall|k: int|
            0 <= k < blocks.len() ==> (#[trigger] facts_about(db, blocks[k])).basic_block is Some,
    ensures
        blocks_resolved(nodes, assignments, db, blocks, depth, done) is Ok,
    decreases blocks.len(),
{
    if blocks.len() > 0 {
        let block = facts_about(db, blocks[0]).basic_block->0;
        let first = block_resolved(nodes, assignments, blocks[0], block, depth);
        let rest = blocks.drop_first();
        assert forall|k: int| 0 <= k < rest.len() implies (#[trigger] facts_about(
            db,
            rest[k],
        )).basic_block is Some by {
            assert(rest[k] == blocks[k + 1]);
        }
        lemma_blocks_resolve(first.0, assignments, db, rest, depth, done.push(first.1));
    }
}

/// Resolves the writes of a basic block.
fn resolve_writes(ctx: &mut Context, writes: &Vec<Write>, depth: usize) -> (r: Vec<ResolvedWrite>)
    requires
        old(ctx).wf(),
        forall|k: int|
            0 <= k < writes@.len() ==> old(ctx).valid((#[trigger] writes@[k]).addr) && old(
                ctx,
            ).valid(writes@[k].data),
    ensures
        final(ctx).wf(),
        final(ctx).assignments() == old(ctx).assignments(),
        final(ctx).next_number() == old(ctx).next_number(),
        extends(old(ctx).nodes(), final(ctx).nodes()),
        (final(ctx).nodes(), r@) == writes_resolved(
            old(ctx).nodes(),
            old(ctx).assignments(),
            writes@,
            depth as nat,
            Seq::empty(),
        ),
{
    let mut resolved_writes: Vec<ResolvedWrite> = Vec::new();
    let mut i: usize = 0;
    proof {
        assert(writes@.skip(0) =~= writes@);
    }
    while i < writes.len()
        invariant
            i <= writes.len(),
            ctx.wf(),
            ctx.assignments() == old(ctx).assignments(),
            ctx.next_number() == old(ctx).next_number(),
            extends(old(ctx).nodes(), ctx.nodes()),
            forall|k: int|
                0 <= k < writes@.len() ==> old(ctx).valid((#[trigger] writes@[k]).addr) && old(
                    ctx,
                ).valid(writes@[k].data),
            writes_resolved(
                old(ctx).nodes(),
                old(ctx).assignments(),
                writes@,
                depth as nat,
                Seq::empty(),
            ) == writes_resolved(
                ctx.nodes(),
                ctx.assignments(),
                writes@.skip(i as int),
                depth as nat,
                resolved_writes@,
            ),
        decreases writes.len() - i,
    {
        let write = writes[i];
        proof {
            assert(writes@.skip(i as int)[0] == write);
            assert(writes@.skip(i as int).drop_first() =~= writes@.skip(i + 1));
            assert(old(ctx).valid(writes@[i as int].addr));
            assert(old(ctx).valid(writes@[i as int].data));
        }
        let resolved_addr = ctx.map_leaves(write.addr, &ResolveVariables, depth);
        let resolved_data = ctx.map_leaves(write.data, &ResolveVariables, depth);
        resolved_writes.push(
            ResolvedWrite { width: write.width, addr: resolved_addr, data: resolved_data },
        );
        i += 1;
    }
    resolved_writes
}

/// Resolves what a basic block leaves behind: rewrites the address and the
/// data of each of its writes, and what the function returns through it,
/// with every variable replaced by what it stands for, as far as that can be
/// done without going deeper than `depth`.
pub fn resolve_block(ctx: &mut Context, db: &FactDatabase, addr: u32, depth: usize) -> (r: Result<
    ResolvedBlock,
    ExpressionError,
>)
    requires
        old(ctx).wf(),
        writes_valid(db@, old(ctx)),
    ensures
        final(ctx).wf(),
        final(ctx).assignments() == old(ctx).assignments(),
        final(ctx).next_number() == old(ctx).next_number(),
        extends(old(ctx).nodes(), final(ctx).nodes()),
        match facts_about(db@, addr).basic_block {
            None => r == Err::<ResolvedBlock, ExpressionError>(ExpressionError::MissingBlock(addr))
                && final(ctx).nodes() == old(ctx).nodes(),
            Some(block) => r is Ok && (final(ctx).nodes(), r->Ok_0@) == block_resolved(
                old(ctx).nodes(),
                old(ctx).assignments(),
                addr,
                block,
                depth as nat,
            ),
        },
{
    let (writes, is_exit) = match db.get_fact::<BasicBlockFact>(addr) {
        Some(block) => (vstd::slice::slice_to_vec(block.writes()), block.successors().len() == 0),
        None => {
            return Err(ExpressionError::MissingBlock(addr));
        },
    };
    proof {
        assert forall|k: int| 0 <= k < writes@.len() implies ctx.valid((#[trigger] writes@[k]).addr)
            && ctx.valid(writes@[k].data) by {
            assert(ctx.valid(facts_about(db@, addr).basic_block->0.writes[k].addr));
        }
    }
    let resolved_writes = resolve_writes(ctx, &writes, depth);
    let returned = if is_exit {
        let expr = ctx.variable_expr(
            Variable::RegisterLeaving { basic_block_addr: addr, register: Register::from(r3()) },
        );
        Some(ctx.map_leaves(expr, &ResolveVariables, depth))
    } else {
        None
    };
    Ok(ResolvedBlock { addr, writes: resolved_writes, returned })
}

/// The third pass: resolves what each of the basic blocks leaves behind.
pub fn resolve_blocks(ctx: &mut Context, db: &FactDatabase, blocks: &Vec<u32>, depth: usize) -> (r:
    Result<Vec<ResolvedBlock>, ExpressionError>)
    requires
        old(ctx).wf(),
        writes_valid(db@, old(ctx)),
    ensures
        final(ctx).wf(),
        final(ctx).assignments() == old(ctx).assignments(),
        final(ctx).next_number() == old(ctx).next_number(),
        extends(old(ctx).nodes(), final(ctx).nodes()),
        match blocks_resolved(
            old(ctx).nodes(),
            old(ctx).assignments(),
            db@,
            blocks@,
            depth as nat,
            Seq::empty(),
        ) {
            Ok(done) => r is Ok && final(ctx).nodes() == done.0 && block_views(r->Ok_0@) == done.1,
            Err(error) => r == Err::<Vec<ResolvedBlock>, ExpressionError>(error),
        },
{
    let mut resolved_blocks: Vec<ResolvedBlock> = Vec::new();
    let mut i: usize = 0;
    proof {
        assert(blocks@.skip(0) =~= blocks@);
        assert(block_views(resolved_blocks@) =~= Seq::<ResolvedBlockView>::empty());
    }
    while i < blocks.len()
        invariant
            i <= blocks.len(),
            ctx.wf(),
            writes_valid(db@, ctx),
            ctx.assignments() == old(ctx).assignments(),
            ctx.next_number() == old(ctx).next_number(),
            extends(old(ctx).nodes(), ctx.nodes()),
            blocks_resolved(
                old(ctx).nodes(),
                old(ctx).assignments(),
                db@,
                blocks@,
                depth as nat,
                Seq::empty(),
            ) == blocks_resolved(
                ctx.nodes(),
                ctx.assignments(),
                db@,
                blocks@.skip(i as int),
                depth as nat,
                block_views(resolved_blocks@),
            ),
        decreases blocks.len() - i,
    {
        proof {
            assert(blocks@.skip(i as int)[0] == blocks@[i as int]);
            assert(blocks@.skip(i as int).drop_first() =~= blocks@.skip(i + 1));
        }
        let ghost before = *ctx;
        let ghost views = block_views(resolved_blocks@);
        let block = match resolve_block(ctx, db, blocks[i], depth) {
            Ok(block) => block,
            Err(error) => {
                return Err(error);
            },
        };
        let ghost view = block@;
        resolved_blocks.push(block);
        proof {
            assert(block_views(resolved_blocks@) =~= views.push(view));
            lemma_writes_valid_extends(db@, &before, ctx);
        }
        i += 1;
    }
    Ok(resolved_blocks)
}

} // verus!
