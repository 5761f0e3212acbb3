//! A context that hands out numbered variables.

use vstd::prelude::*;
use vstd::string::*;

use crate::symbolic::context::Context;
use crate::symbolic::context::extends;
use crate::symbolic::context::extends_without_variables;
use crate::symbolic::context::interned;
use crate::symbolic::expr::Expr;
use crate::symbolic::expr::Node;
use crate::symbolic::expr_ref::ExprRef;
use crate::symbolic::normal::add_normal;
use crate::symbolic::normal::bit_and_normal;
use crate::symbolic::normal::bit_or_normal;
use crate::symbolic::normal::equal_normal;
use crate::symbolic::normal::less_signed_normal;
use crate::symbolic::normal::less_unsigned_normal;
use crate::symbolic::normal::mul_normal;
use crate::symbolic::normal::not_normal;
use crate::symbolic::normal::phi_normal;
use crate::symbolic::rewrite::LeafMap;
use crate::symbolic::rewrite::mapped;
use crate::symbolic::variable::VariableName;

verus! {

/// A variable that is either a number or some other type of variable.
#[derive(Clone, Copy, Debug, PartialEq, Eq, Hash)]
pub enum NumberedVariable<N> {
    Numbered(usize),
    Named(N),
}

impl<N: VariableName> VariableName for NumberedVariable<N> {
    fn same(&self, other: &Self) -> (r: bool) {
        match (self, other) {
            (NumberedVariable::Numbered(a), NumberedVariable::Numbered(b)) => *a == *b,
            (NumberedVariable::Named(a), NumberedVariable::Named(b)) => a.same(b),
            _ => false,
        }
    }

    open spec fn code(&self) -> u64 {
        match self {
            NumberedVariable::Numbered(number) => crate::symbolic::fingerprint::mixed(
                1,
                *number as u64,
            ),
            NumberedVariable::Named(name) => crate::symbolic::fingerprint::mixed(2, name.code()),
        }
    }

    fn to_code(&self) -> (r: u64) {
        match self {
            NumberedVariable::Numbered(number) => crate::symbolic::fingerprint::mix(
                1,
                *number as u64,
            ),
            NumberedVariable::Named(name) => crate::symbolic::fingerprint::mix(2, name.to_code()),
        }
    }

    open spec fn text(&self) -> Seq<char> {
        match self {
            NumberedVariable::Numbered(number) => "v_"@ + crate::text::decimal_text(
                *number as nat,
            ),
            NumberedVariable::Named(name) => name.text(),
        }
    }

    fn to_string(&self) -> (r: String) {
        match self {
            NumberedVariable::Numbered(number) => {
                let mut out = String::from_str("v_");
                crate::text::push_number(&mut out, *number as u64, 10);
                out
            },
            NumberedVariable::Named(name) => name.to_string(),
        }
    }
}

/// The number of a node that is a numbered variable.
pub open spec fn number_of<N>(node: Node<NumberedVariable<N>>) -> Option<usize> {
    match node {
        Node::Variable(NumberedVariable::Numbered(number)) => Some(number),
        _ => None,
    }
}

/// Whether every numbered variable of a table has a number below `next`, and
/// the table holds at least `next` nodes.
pub open spec fn numbering<N>(nodes: Seq<Node<NumberedVariable<N>>>, next: usize) -> bool {
    &&& next <= nodes.len()
    &&& forall|i: int|
        0 <= i < nodes.len() && number_of(#[trigger] nodes[i]) is Some ==> number_of(nodes[i])->0
            < next
}

/// A table that grows by nodes that are no numbered variables keeps its
/// numbering.
pub proof fn lemma_numbering_kept<N>(
    before: Seq<Node<NumberedVariable<N>>>,
    after: Seq<Node<NumberedVariable<N>>>,
    next: usize,
)
    requires
        numbering(before, next),
        extends(before, after),
        forall|i: int| before.len() <= i < after.len() ==> number_of(#[trigger] after[i]) is None,
    ensures
        numbering(after, next),
{
    assert forall|i: int|
        0 <= i < after.len() && number_of(#[trigger] after[i]) is Some implies number_of(
        after[i],
    )->0 < next by {
        if i < before.len() {
            assert(before[i] == after[i]);
        }
    }
}

/// A wrapper around [`Context`] that provides
/// [`next_numbered_variable_expr`](Self::next_numbered_variable_expr).
pub struct NumberedContext<N> {
    ctx: Context<NumberedVariable<N>>,
    next_variable_number: usize,
}

impl<N: VariableName> NumberedContext<N> {
    /// The context inside.
    pub closed spec fn context(&self) -> Context<NumberedVariable<N>> {
        self.ctx
    }

    /// The number that the next numbered variable gets.
    pub closed spec fn next_number(&self) -> usize {
        self.next_variable_number
    }

    /// The table of nodes of the context inside.
    pub open spec fn nodes(&self) -> Seq<Node<NumberedVariable<N>>> {
        self.context().nodes()
    }

    /// What has been assigned to which variable.
    pub open spec fn assignments(&self) -> Map<ExprRef, ExprRef> {
        self.context().assignments()
    }

    /// Whether the reference stands for a node of this context.
    pub open spec fn valid(&self, e: ExprRef) -> bool {
        self.context().valid(e)
    }

    /// The node that a valid reference stands for.
    pub open spec fn node(&self, e: ExprRef) -> Node<NumberedVariable<N>> {
        self.context().node(e)
    }

    /// The context inside is well formed and no numbered variable in it has
    /// a number that is still to be handed out.
    pub open spec fn wf(&self) -> bool {
        &&& self.context().wf()
        &&& numbering(self.nodes(), self.next_number())
    }

    pub fn new() -> (r: Self)
        ensures
            r.wf(),
            r.nodes() == Seq::<Node<NumberedVariable<N>>>::empty(),
            r.assignments() == Map::<ExprRef, ExprRef>::empty(),
            r.next_number() == 0,
    {
        Self { ctx: Context::new(), next_variable_number: 0 }
    }

    /// The context inside, to read from.
    pub fn inner(&self) -> (r: &Context<NumberedVariable<N>>)
        ensures
            *r == self.context(),
    {
        &self.ctx
    }

    pub fn variable_expr(&mut self, name: N) -> (r: ExprRef)
        requires
            old(self).wf(),
        ensures
            final(self).wf(),
            final(self).next_number() == old(self).next_number(),
            (final(self).nodes(), r) == interned(
                old(self).nodes(),
                Node::Variable(NumberedVariable::Named(name)),
            ),
            final(self).assignments() == old(self).assignments(),
            final(self).valid(r),
            final(self).node(r) == Node::Variable(NumberedVariable::Named(name)),
            extends(old(self).nodes(), final(self).nodes()),
    {
        let r = self.ctx.variable_expr(NumberedVariable::Named(name));
        proof {
            reveal(interned);
            lemma_numbering_kept(old(self).nodes(), self.nodes(), self.next_number());
        }
        r
    }

    /// A variable that the context did not hold before: the numbered
    /// variable with the next number.
    pub fn next_numbered_variable_expr(&mut self) -> (r: ExprRef)
        requires
            old(self).wf(),
        ensures
            final(self).wf(),
            final(self).next_number() == old(self).next_number() + 1,
            final(self).nodes() == old(self).nodes().push(
                Node::Variable(NumberedVariable::Numbered(old(self).next_number())),
            ),
            r.raw() == old(self).nodes().len(),
            final(self).assignments() == old(self).assignments(),
            final(self).valid(r),
            !old(self).valid(r),
    {
        let number = self.next_variable_number;
        let ghost node = Node::Variable(NumberedVariable::<N>::Numbered(number));
        proof {
            reveal(interned);
            let nodes = self.nodes();
            if nodes.contains(node) {
                let i = choose|i: int| 0 <= i < nodes.len() && nodes[i] == node;
                assert(number_of(nodes[i]) == Some(number));
            }
        }
        let r = self.ctx.variable_expr(NumberedVariable::Numbered(number));
        let grown = self.ctx.len();
        self.next_variable_number = number + 1;
        proof {
            let before = old(self).nodes();
            let after = self.nodes();
            assert forall|i: int|
                0 <= i < after.len() && number_of(#[trigger] after[i]) is Some implies number_of(
                after[i],
            )->0 < number + 1 by {
                if i < before.len() {
                    assert(before[i] == after[i]);
                }
            }
        }
        r
    }

    pub fn get_expr(&self, index: ExprRef) -> (r: &Expr<NumberedVariable<N>>)
        requires
            self.valid(index),
        ensures
            r@ == self.node(index),
    {
        self.ctx.get_expr(index)
    }

    pub fn is_variable(&self, variable: ExprRef) -> (r: bool)
        requires
            self.valid(variable),
        ensures
            r == (self.node(variable) is Variable),
    {
        self.ctx.is_variable(variable)
    }

    pub fn get_variable_assignment(&self, variable: ExprRef) -> (r: Option<ExprRef>)
        requires
            self.wf(),
            self.valid(variable),
            self.node(variable) is Variable,
        ensures
            r == self.assignments().get(variable),
            r is Some ==> self.valid(r->0),
    {
        self.ctx.get_variable_assignment(variable)
    }

    pub fn assign_variable(&mut self, variable: ExprRef, assignment: ExprRef)
        requires
            old(self).wf(),
            old(self).valid(variable),
            old(self).node(variable) is Variable,
            old(self).valid(assignment),
        ensures
            final(self).wf(),
            final(self).next_number() == old(self).next_number(),
            final(self).nodes() == old(self).nodes(),
            final(self).assignments() == old(self).assignments().insert(variable, assignment),
    {
        self.ctx.assign_variable(variable, assignment);
    }

    pub fn get_expr_leaves(&self, expr: ExprRef) -> (r: Vec<ExprRef>)
        requires
            self.wf(),
            self.valid(expr),
        ensures
            r@ == self.node(expr).operands(),
            forall|k: int| 0 <= k < r@.len() ==> self.valid(#[trigger] r@[k]),
    {
        self.ctx.get_expr_leaves(expr)
    }

    pub fn literal_value(&self, e: ExprRef) -> (r: Option<u32>)
        requires
            self.valid(e),
        ensures
            r == crate::symbolic::context::literal_at(self.nodes(), e),
    {
        self.ctx.literal_value(e)
    }

    pub fn map_leaves<F: LeafMap<NumberedVariable<N>>>(
        &mut self,
        expr: ExprRef,
        f: &F,
        depth: usize,
    ) -> (r: Option<ExprRef>)
        requires
            old(self).wf(),
            old(self).valid(expr),
        ensures
            final(self).wf(),
            final(self).next_number() == old(self).next_number(),
            final(self).assignments() == old(self).assignments(),
            extends_without_variables(old(self).nodes(), final(self).nodes()),
            (final(self).nodes(), r) == mapped(
                *f,
                old(self).nodes(),
                old(self).assignments(),
                expr,
                depth as nat,
            ),
            r is Some ==> final(self).valid(r->0),
    {
        let r = self.ctx.map_leaves(expr, f, depth);
        proof {
            lemma_numbering_kept(old(self).nodes(), self.nodes(), self.next_number());
        }
        r
    }

    pub fn literal_expr(&mut self, literal: u32) -> (r: ExprRef)
        requires
            old(self).wf(),
        ensures
            final(self).wf(),
            final(self).next_number() == old(self).next_number(),
            (final(self).nodes(), r) == interned(old(self).nodes(), Node::<NumberedVariable<N>>::Literal(literal)),
            final(self).assignments() == old(self).assignments(),
            final(self).valid(r),
            final(self).node(r) == Node::<NumberedVariable<N>>::Literal(literal),
            extends_without_variables(old(self).nodes(), final(self).nodes()),
    {
        let r = self.ctx.literal_expr(literal);
        proof {
            lemma_numbering_kept(old(self).nodes(), self.nodes(), self.next_number());
        }
        r
    }

    pub fn read_expr(&mut self, addr: ExprRef) -> (r: ExprRef)
        requires
            old(self).wf(),
            old(self).valid(addr),
        ensures
            final(self).wf(),
            final(self).next_number() == old(self).next_number(),
            (final(self).nodes(), r) == interned(old(self).nodes(), Node::<NumberedVariable<N>>::Read(addr)),
            final(self).assignments() == old(self).assignments(),
            final(self).valid(r),
            final(self).node(r) == Node::<NumberedVariable<N>>::Read(addr),
            extends_without_variables(old(self).nodes(), final(self).nodes()),
    {
        let r = self.ctx.read_expr(addr);
        proof {
            lemma_numbering_kept(old(self).nodes(), self.nodes(), self.next_number());
        }
        r
    }

    pub fn phi_expr(&mut self, variables: Vec<ExprRef>) -> (r: ExprRef)
        requires
            old(self).wf(),
            forall|k: int| 0 <= k < variables@.len() ==> old(self).valid(#[trigger] variables@[k]),
        ensures
            final(self).wf(),
            final(self).next_number() == old(self).next_number(),
            (final(self).nodes(), r) == phi_normal(old(self).nodes(), variables@),
            final(self).assignments() == old(self).assignments(),
            final(self).valid(r),
            final(self).node(r) is Phi,
            extends_without_variables(old(self).nodes(), final(self).nodes()),
    {
        let r = self.ctx.phi_expr(variables);
        proof {
            lemma_numbering_kept(old(self).nodes(), self.nodes(), self.next_number());
        }
        r
    }

    pub fn add_expr(&mut self, exprs: Vec<ExprRef>) -> (r: ExprRef)
        requires
            old(self).wf(),
            forall|k: int| 0 <= k < exprs@.len() ==> old(self).valid(#[trigger] exprs@[k]),
        ensures
            final(self).wf(),
            final(self).next_number() == old(self).next_number(),
            (final(self).nodes(), r) == add_normal(old(self).nodes(), exprs@),
            final(self).assignments() == old(self).assignments(),
            final(self).valid(r),
            extends_without_variables(old(self).nodes(), final(self).nodes()),
    {
        let r = self.ctx.add_expr(exprs);
        proof {
            lemma_numbering_kept(old(self).nodes(), self.nodes(), self.next_number());
        }
        r
    }

    pub fn mul_expr(&mut self, exprs: Vec<ExprRef>) -> (r: ExprRef)
        requires
            old(self).wf(),
            forall|k: int| 0 <= k < exprs@.len() ==> old(self).valid(#[trigger] exprs@[k]),
        ensures
            final(self).wf(),
            final(self).next_number() == old(self).next_number(),
            (final(self).nodes(), r) == mul_normal(old(self).nodes(), exprs@),
            final(self).assignments() == old(self).assignments(),
            final(self).valid(r),
            extends_without_variables(old(self).nodes(), final(self).nodes()),
    {
        let r = self.ctx.mul_expr(exprs);
        proof {
            lemma_numbering_kept(old(self).nodes(), self.nodes(), self.next_number());
        }
        r
    }

    pub fn bit_or_expr(&mut self, exprs: Vec<ExprRef>) -> (r: ExprRef)
        requires
            old(self).wf(),
            exprs@.len() > 0,
            forall|k: int| 0 <= k < exprs@.len() ==> old(self).valid(#[trigger] exprs@[k]),
        ensures
            final(self).wf(),
            final(self).next_number() == old(self).next_number(),
            (final(self).nodes(), r) == bit_or_normal(old(self).nodes(), exprs@),
            final(self).assignments() == old(self).assignments(),
            final(self).valid(r),
            extends_without_variables(old(self).nodes(), final(self).nodes()),
    {
        let r = self.ctx.bit_or_expr(exprs);
        proof {
            lemma_numbering_kept(old(self).nodes(), self.nodes(), self.next_number());
        }
        r
    }

    pub fn bit_and_expr(&mut self, exprs: Vec<ExprRef>) -> (r: ExprRef)
        requires
            old(self).wf(),
            exprs@.len() > 0,
            forall|k: int| 0 <= k < exprs@.len() ==> old(self).valid(#[trigger] exprs@[k]),
        ensures
            final(self).wf(),
            final(self).next_number() == old(self).next_number(),
            (final(self).nodes(), r) == bit_and_normal(old(self).nodes(), exprs@),
            final(self).assignments() == old(self).assignments(),
            final(self).valid(r),
            extends_without_variables(old(self).nodes(), final(self).nodes()),
    {
        let r = self.ctx.bit_and_expr(exprs);
        proof {
            lemma_numbering_kept(old(self).nodes(), self.nodes(), self.next_number());
        }
        r
    }

    pub fn not_expr(&mut self, expr: ExprRef) -> (r: ExprRef)
        requires
            old(self).wf(),
            old(self).valid(expr),
        ensures
            final(self).wf(),
            final(self).next_number() == old(self).next_number(),
            (final(self).nodes(), r) == not_normal(old(self).nodes(), expr),
            final(self).assignments() == old(self).assignments(),
            final(self).valid(r),
            extends_without_variables(old(self).nodes(), final(self).nodes()),
    {
        let r = self.ctx.not_expr(expr);
        proof {
            lemma_numbering_kept(old(self).nodes(), self.nodes(), self.next_number());
        }
        r
    }

    pub fn equal_expr(&mut self, lhs: ExprRef, rhs: ExprRef) -> (r: ExprRef)
        requires
            old(self).wf(),
            old(self).valid(lhs),
            old(self).valid(rhs),
        ensures
            final(self).wf(),
            final(self).next_number() == old(self).next_number(),
            (final(self).nodes(), r) == equal_normal(old(self).nodes(), lhs, rhs),
            final(self).assignments() == old(self).assignments(),
            final(self).valid(r),
            extends_without_variables(old(self).nodes(), final(self).nodes()),
    {
        let r = self.ctx.equal_expr(lhs, rhs);
        proof {
            lemma_numbering_kept(old(self).nodes(), self.nodes(), self.next_number());
        }
        r
    }

    pub fn less_signed_expr(&mut self, lhs: ExprRef, rhs: ExprRef) -> (r: ExprRef)
        requires
            old(self).wf(),
            old(self).valid(lhs),
            old(self).valid(rhs),
        ensures
            final(self).wf(),
            final(self).next_number() == old(self).next_number(),
            (final(self).nodes(), r) == less_signed_normal(old(self).nodes(), lhs, rhs),
            final(self).assignments() == old(self).assignments(),
            final(self).valid(r),
            extends_without_variables(old(self).nodes(), final(self).nodes()),
    {
        let r = self.ctx.less_signed_expr(lhs, rhs);
        proof {
            lemma_numbering_kept(old(self).nodes(), self.nodes(), self.next_number());
        }
        r
    }

    pub fn less_unsigned_expr(&mut self, lhs: ExprRef, rhs: ExprRef) -> (r: ExprRef)
        requires
            old(self).wf(),
            old(self).valid(lhs),
            old(self).valid(rhs),
        ensures
            final(self).wf(),
            final(self).next_number() == old(self).next_number(),
            (final(self).nodes(), r) == less_unsigned_normal(old(self).nodes(), lhs, rhs),
            final(self).assignments() == old(self).assignments(),
            final(self).valid(r),
            extends_without_variables(old(self).nodes(), final(self).nodes()),
    {
        let r = self.ctx.less_unsigned_expr(lhs, rhs);
        proof {
            lemma_numbering_kept(old(self).nodes(), self.nodes(), self.next_number());
        }
        r
    }
}

impl<N: VariableName> Default for NumberedContext<N> {
    /// A context that holds nothing and has handed out no number.
    fn default() -> (r: Self)
        ensures
            r.wf(),
            r.nodes() == Seq::<Node<NumberedVariable<N>>>::empty(),
            r.assignments() == Map::<ExprRef, ExprRef>::empty(),
            r.next_number() == 0,
    {
        Self::new()
    }
}

} // verus!
