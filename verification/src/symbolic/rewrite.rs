//! Rewriting an expression from its leaves up.

use vstd::prelude::*;

use crate::symbolic::context::Context;
use crate::symbolic::context::extends_without_variables;
use crate::symbolic::context::interned;
use crate::symbolic::context::node_ok;
use crate::symbolic::expr::Expr;
use crate::symbolic::expr::Node;
use crate::symbolic::expr_ref::ExprRef;
use crate::symbolic::nary::lemma_extends_twice;
use crate::symbolic::normal::add_normal;
use crate::symbolic::normal::bit_and_normal;
use crate::symbolic::normal::bit_or_normal;
use crate::symbolic::normal::equal_normal;
use crate::symbolic::normal::less_signed_normal;
use crate::symbolic::normal::less_unsigned_normal;
use crate::symbolic::normal::mul_normal;
use crate::symbolic::normal::not_normal;
use crate::symbolic::normal::phi_normal;
use crate::symbolic::variable::VariableName;

verus! {

/// A map from the leaves of a context to expressions of the same context.
/// The map may build the expression that it gives: it may add nodes to the
/// context, none of them a variable, and leaves the assignments as they are.
pub trait LeafMap<V: VariableName>: Sized {
    /// The table that mapping a leaf leaves behind, and the expression that
    /// the map gives for the leaf.
    spec fn image(
        &self,
        nodes: Seq<Node<V>>,
        assignments: Map<ExprRef, ExprRef>,
        leaf: ExprRef,
    ) -> (Seq<Node<V>>, ExprRef);

    /// Computes [`LeafMap::image`].
    fn apply(&self, ctx: &mut Context<V>, leaf: ExprRef) -> (r: ExprRef)
        requires
            old(ctx).wf(),
            old(ctx).valid(leaf),
            old(ctx).node(leaf).is_leaf(),
        ensures
            final(ctx).wf(),
            final(ctx).assignments() == old(ctx).assignments(),
            extends_without_variables(old(ctx).nodes(), final(ctx).nodes()),
            (final(ctx).nodes(), r) == self.image(old(ctx).nodes(), old(ctx).assignments(), leaf),
            final(ctx).valid(r),
    ;
}

/// The table and the reference that stand for a node of the kind of `shape`
/// over other operands, in normal form.
pub open spec fn rebuilt<V>(table: Seq<Node<V>>, shape: Node<V>, operands: Seq<ExprRef>) -> (
    Seq<Node<V>>,
    ExprRef,
) {
    match shape {
        Node::Literal(_) | Node::Variable(_) => interned(table, shape),
        Node::Read(_) => interned(table, Node::Read(operands[0])),
        Node::Phi(_) => phi_normal(table, operands),
        Node::Add(_) => add_normal(table, operands),
        Node::Mul(_) => mul_normal(table, operands),
        Node::BitOr(_) => bit_or_normal(table, operands),
        Node::BitAnd(_) => bit_and_normal(table, operands),
        Node::Not(_) => not_normal(table, operands[0]),
        Node::Equal(_, _) => equal_normal(table, operands[0], operands[1]),
        Node::LessSigned(_, _) => less_signed_normal(table, operands[0], operands[1]),
        Node::LessUnsigned(_, _) => less_unsigned_normal(table, operands[0], operands[1]),
    }
}

/// The table that rewriting `e` leaves behind, and the reference that it
/// gives if it can be done without going deeper than `depth`. A leaf is
/// replaced by its image under `f`, in the table that `f` leaves behind. If
/// what is then at hand is a leaf, that is the result: the image of a leaf
/// is not mapped again. Else its operands are rewritten, one after the other
/// and one level deeper, and the node is built anew over them. Where the
/// depth does not suffice, the table is left as it is at that point.
pub open spec fn mapped<V: VariableName, F: LeafMap<V>>(
    f: F,
    nodes: Seq<Node<V>>,
    assignments: Map<ExprRef, ExprRef>,
    e: ExprRef,
    depth: nat,
) -> (Seq<Node<V>>, Option<ExprRef>)
    decreases depth, 0nat,
{
    let start = if nodes[e.raw() as int].is_leaf() {
        f.image(nodes, assignments, e)
    } else {
        (nodes, e)
    };
    let shape = start.0[start.1.raw() as int];
    if shape.is_leaf() {
        (start.0, Some(start.1))
    } else if depth == 0 {
        (start.0, None)
    } else {
        let below = mapped_list(f, start.0, assignments, shape.operands(), (depth - 1) as nat);
        match below.1 {
            None => (below.0, None),
            Some(operands) => {
                let built = rebuilt(below.0, shape, operands);
                (built.0, Some(built.1))
            },
        }
    }
}

/// The table that rewriting each of `refs` in turn leaves behind, and the
/// references that it gives if none of them needs to go deeper than `depth`.
pub open spec fn mapped_list<V: VariableName, F: LeafMap<V>>(
    f: F,
    nodes: Seq<Node<V>>,
    assignments: Map<ExprRef, ExprRef>,
    refs: Seq<ExprRef>,
    depth: nat,
) -> (Seq<Node<V>>, Option<Seq<ExprRef>>)
    decreases depth, refs.len() + 1,
{
    if refs.len() == 0 {
        (nodes, Some(Seq::empty()))
    } else {
        let done = mapped_list(f, nodes, assignments, refs.drop_last(), depth);
        match done.1 {
            None => done,
            Some(before) => {
                let last = mapped(f, done.0, assignments, refs.last(), depth);
                match last.1 {
                    None => (last.0, None),
                    Some(r) => (last.0, Some(before.push(r))),
                }
            },
        }
    }
}

/// Where the first `i` of `refs` cannot be rewritten, `refs` cannot, and
/// the table is left as it is at that point.
proof fn lemma_list_fails<V: VariableName, F: LeafMap<V>>(
    f: F,
    nodes: Seq<Node<V>>,
    assignments: Map<ExprRef, ExprRef>,
    refs: Seq<ExprRef>,
    depth: nat,
    i: int,
)
    requires
        0 <= i <= refs.len(),
        mapped_list(f, nodes, assignments, refs.take(i), depth).1 is None,
    ensures
        mapped_list(f, nodes, assignments, refs, depth) == mapped_list(
            f,
            nodes,
            assignments,
            refs.take(i),
            depth,
        ),
    decreases refs.len() - i,
{
    if i == refs.len() {
        assert(refs.take(i) =~= refs);
    } else {
        assert(refs.take(i + 1).drop_last() =~= refs.take(i));
        lemma_list_fails(f, nodes, assignments, refs, depth, i + 1);
    }
}

impl<V: VariableName> Context<V> {
    /// Rewrites an expression by mapping its leaves with `f` and building
    /// every node on the way up anew, if that can be done without going
    /// deeper than `depth`. The image of a leaf is not mapped again, but
    /// its operands are rewritten.
    pub fn map_leaves<F: LeafMap<V>>(&mut self, expr: ExprRef, f: &F, depth: usize) -> (r: Option<
        ExprRef,
    >)
        requires
            old(self).wf(),
            old(self).valid(expr),
        ensures
            final(self).wf(),
            final(self).assignments() == old(self).assignments(),
            extends_without_variables(old(self).nodes(), final(self).nodes()),
            (final(self).nodes(), r) == mapped(
                *f,
                old(self).nodes(),
                old(self).assignments(),
                expr,
                depth as nat,
            ),
            r is Some ==> final(self).valid(r->0),
        decreases depth, 0nat,
    {
        let ghost nodes = self.nodes();
        proof {
            assert(extends_without_variables(nodes, nodes));
        }
        // First, map the expression if it's a leaf.
        let is_leaf = match self.get_expr(expr) {
            Expr::Literal(_) | Expr::Variable(_) => true,
            _ => false,
        };
        let expr = if is_leaf {
            f.apply(self, expr)
        } else {
            expr
        };
        let ghost start = self.nodes();
        // Second, even if it was just mapped, recurse into its subexpressions.
        let operands = self.get_expr_leaves(expr);
        let ghost shape = self.node(expr);
        let kind: u8 = match self.get_expr(expr) {
            Expr::Literal(_) | Expr::Variable(_) => 0,
            Expr::Read(_) => 1,
            Expr::Phi(_) => 2,
            Expr::Add(_) => 3,
            Expr::Mul(_) => 4,
            Expr::BitOr(_) => 5,
            Expr::BitAnd(_) => 6,
            Expr::Not(_) => 7,
            Expr::Equal(_, _) => 8,
            Expr::LessSigned(_, _) => 9,
            Expr::LessUnsigned(_, _) => 10,
        };
        if kind == 0 {
            // Already mapped once, don't map it again.
            return Some(expr);
        }
        if depth == 0 {
            return None;
        }
        proof {
            self.lemma_wf();
            assert(node_ok(start, shape, expr.raw() as int));
        }
        let below = match self.map_leaves_list(&operands, f, depth - 1) {
            Some(below) => below,
            None => {
                proof {
                    lemma_extends_twice(nodes, start, self.nodes());
                }
                return None;
            },
        };
        let ghost table = self.nodes();
        assert(below@.len() == shape.operands().len());
        let r = if kind == 1 {
            self.read_expr(below[0])
        } else if kind == 2 {
            self.phi_expr(below)
        } else if kind == 3 {
            self.add_expr(below)
        } else if kind == 4 {
            self.mul_expr(below)
        } else if kind == 5 {
            self.bit_or_expr(below)
        } else if kind == 6 {
            self.bit_and_expr(below)
        } else if kind == 7 {
            self.not_expr(below[0])
        } else if kind == 8 {
            self.equal_expr(below[0], below[1])
        } else if kind == 9 {
            self.less_signed_expr(below[0], below[1])
        } else {
            self.less_unsigned_expr(below[0], below[1])
        };
        proof {
            lemma_extends_twice(nodes, start, table);
            lemma_extends_twice(nodes, table, self.nodes());
        }
        Some(r)
    }

    /// Rewrites each of the expressions in turn.
    fn map_leaves_list<F: LeafMap<V>>(&mut self, refs: &Vec<ExprRef>, f: &F, depth: usize) -> (r:
        Option<Vec<ExprRef>>)
        requires
            old(self).wf(),
            forall|k: int| 0 <= k < refs@.len() ==> old(self).valid(#[trigger] refs@[k]),
        ensures
            final(self).wf(),
            final(self).assignments() == old(self).assignments(),
            extends_without_variables(old(self).nodes(), final(self).nodes()),
            ({
                let result = mapped_list(
                    *f,
                    old(self).nodes(),
                    old(self).assignments(),
                    refs@,
                    depth as nat,
                );
                &&& final(self).nodes() == result.0
                &&& match result.1 {
                    Some(operands) => r is Some && r->0@ == operands,
                    None => r is None,
                }
            }),
            r is Some ==> r->0@.len() == refs@.len() && forall|k: int|
                0 <= k < r->0@.len() ==> final(self).valid(#[trigger] r->0@[k]),
        decreases depth, 1nat,
    {
        let ghost nodes = self.nodes();
        let ghost assignments = self.assignments();
        let mut out: Vec<ExprRef> = Vec::new();
        let mut i: usize = 0;
        proof {
            assert(extends_without_variables(nodes, nodes));
            assert(refs@.take(0) =~= Seq::<ExprRef>::empty());
        }
        while i < refs.len()
            invariant
                i <= refs.len(),
                self.wf(),
                nodes == old(self).nodes(),
                assignments == old(self).assignments(),
                self.assignments() == assignments,
                extends_without_variables(nodes, self.nodes()),
                forall|k: int| 0 <= k < refs@.len() ==> (#[trigger] refs@[k]).raw() < nodes.len(),
                mapped_list(*f, nodes, assignments, refs@.take(i as int), depth as nat) == (
                    self.nodes(),
                    Some(out@),
                ),
                out@.len() == i,
                forall|k: int| 0 <= k < out@.len() ==> self.valid(#[trigger] out@[k]),
            decreases refs.len() - i,
        {
            let ghost table = self.nodes();
            let ghost before = out@;
            proof {
                assert(refs@.take(i + 1).drop_last() =~= refs@.take(i as int));
                assert(refs@.take(i + 1).last() == refs@[i as int]);
            }
            match self.map_leaves(refs[i], f, depth) {
                Some(r) => {
                    out.push(r);
                    proof {
                        lemma_extends_twice(nodes, table, self.nodes());
                        assert forall|k: int| 0 <= k < out@.len() implies self.valid(
                            #[trigger] out@[k],
                        ) by {
                            if k < before.len() {
                                assert(out@[k] == before[k]);
                                assert(before[k].raw() < table.len());
                            }
                        }
                    }
                },
                None => {
                    proof {
                        lemma_extends_twice(nodes, table, self.nodes());
                        lemma_list_fails(*f, nodes, assignments, refs@, depth as nat, i + 1);
                    }
                    return None;
                },
            }
            i += 1;
        }
        proof {
            assert(refs@.take(refs@.len() as int) =~= refs@);
        }
        Some(out)
    }
}

} // verus!
