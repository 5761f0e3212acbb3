use vstd::prelude::*;

use crate::symbolic::expr_ref::ExprRef;
use crate::symbolic::variable::VariableName;

verus! {

/// One node of the expression graph. Operands are references to other nodes
/// of the same context.
#[derive(Clone, Debug, PartialEq, Eq, Hash)]
pub enum Expr<V> {
    Literal(u32),
    Variable(V),
    Read(ExprRef),
    Phi(Vec<ExprRef>),
    Add(Vec<ExprRef>),
    Mul(Vec<ExprRef>),
    BitOr(Vec<ExprRef>),
    BitAnd(Vec<ExprRef>),
    Not(ExprRef),
    Equal(ExprRef, ExprRef),
    LessSigned(ExprRef, ExprRef),
    LessUnsigned(ExprRef, ExprRef),
}

/// The mathematical value of an [`Expr`]: the same node with its operands as
/// a sequence.
pub ghost enum Node<V> {
    Literal(u32),
    Variable(V),
    Read(ExprRef),
    Phi(Seq<ExprRef>),
    Add(Seq<ExprRef>),
    Mul(Seq<ExprRef>),
    BitOr(Seq<ExprRef>),
    BitAnd(Seq<ExprRef>),
    Not(ExprRef),
    Equal(ExprRef, ExprRef),
    LessSigned(ExprRef, ExprRef),
    LessUnsigned(ExprRef, ExprRef),
}

impl<V> Node<V> {
    /// The operands of the node, in the order in which it holds them.
    pub open spec fn operands(self) -> Seq<ExprRef> {
        match self {
            Node::Literal(_) | Node::Variable(_) => Seq::empty(),
            Node::Read(param) | Node::Not(param) => seq![param],
            Node::Phi(params)
            | Node::Add(params)
            | Node::Mul(params)
            | Node::BitOr(params)
            | Node::BitAnd(params) => params,
            Node::Equal(lhs, rhs) | Node::LessSigned(lhs, rhs) | Node::LessUnsigned(lhs, rhs) => {
                seq![lhs, rhs]
            },
        }
    }

    /// Whether the node is a leaf of the graph: a literal or a variable.
    pub open spec fn is_leaf(self) -> bool {
        self is Literal || self is Variable
    }
}

impl<V> View for Expr<V> {
    type V = Node<V>;

    open spec fn view(&self) -> Node<V> {
        match self {
            Expr::Literal(literal) => Node::Literal(*literal),
            Expr::Variable(variable) => Node::Variable(*variable),
            Expr::Read(addr) => Node::Read(*addr),
            Expr::Phi(params) => Node::Phi(params@),
            Expr::Add(params) => Node::Add(params@),
            Expr::Mul(params) => Node::Mul(params@),
            Expr::BitOr(params) => Node::BitOr(params@),
            Expr::BitAnd(params) => Node::BitAnd(params@),
            Expr::Not(param) => Node::Not(*param),
            Expr::Equal(lhs, rhs) => Node::Equal(*lhs, *rhs),
            Expr::LessSigned(lhs, rhs) => Node::LessSigned(*lhs, *rhs),
            Expr::LessUnsigned(lhs, rhs) => Node::LessUnsigned(*lhs, *rhs),
        }
    }
}

/// Whether two lists hold the same references in the same order.
fn same_refs(a: &Vec<ExprRef>, b: &Vec<ExprRef>) -> (r: bool)
    ensures
        r == (a@ == b@),
{
    if a.len() != b.len() {
        return false;
    }
    let mut i: usize = 0;
    while i < a.len()
        invariant
            a.len() == b.len(),
            i <= a.len(),
            forall|k: int| 0 <= k < i ==> a@[k] == b@[k],
        decreases a.len() - i,
    {
        if a[i] != b[i] {
            return false;
        }
        i += 1;
    }
    assert(a@ =~= b@);
    true
}

impl<V: VariableName> Expr<V> {
    /// Whether the two expressions are the same node.
    pub fn same(&self, other: &Self) -> (r: bool)
        ensures
            r == (self@ == other@),
    {
        match (self, other) {
            (Expr::Literal(a), Expr::Literal(b)) => *a == *b,
            (Expr::Variable(a), Expr::Variable(b)) => a.same(b),
            (Expr::Read(a), Expr::Read(b)) => *a == *b,
            (Expr::Phi(a), Expr::Phi(b)) => same_refs(a, b),
            (Expr::Add(a), Expr::Add(b)) => same_refs(a, b),
            (Expr::Mul(a), Expr::Mul(b)) => same_refs(a, b),
            (Expr::BitOr(a), Expr::BitOr(b)) => same_refs(a, b),
            (Expr::BitAnd(a), Expr::BitAnd(b)) => same_refs(a, b),
            (Expr::Not(a), Expr::Not(b)) => *a == *b,
            (Expr::Equal(a, c), Expr::Equal(b, d)) => *a == *b && *c == *d,
            (Expr::LessSigned(a, c), Expr::LessSigned(b, d)) => *a == *b && *c == *d,
            (Expr::LessUnsigned(a, c), Expr::LessUnsigned(b, d)) => *a == *b && *c == *d,
            _ => false,
        }
    }
}

} // verus!
