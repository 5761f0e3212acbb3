//! The constructors of expressions, each of which hands out a node in
//! normal form.

use vstd::prelude::*;

use crate::symbolic::context::Context;
use crate::symbolic::context::extends;
use crate::symbolic::context::extends_without_variables;
use crate::symbolic::context::interned;
use crate::symbolic::context::literal_at;
use crate::symbolic::context::node_ok;
use crate::symbolic::expr::Expr;
use crate::symbolic::expr::Node;
use crate::symbolic::expr_ref::ExprRef;
use crate::symbolic::normal::equal_normal;
use crate::symbolic::normal::less_signed_normal;
use crate::symbolic::normal::less_unsigned_normal;
use crate::symbolic::normal::not_normal;
use crate::symbolic::variable::VariableName;

verus! {

impl<V: VariableName> Context<V> {
    /// The literal that a reference stands for, if it stands for one.
    pub fn literal_value(&self, e: ExprRef) -> (r: Option<u32>)
        requires
            self.valid(e),
        ensures
            r == literal_at(self.nodes(), e),
    {
        match self.get_expr(e) {
            Expr::Literal(literal) => Some(*literal),
            _ => None,
        }
    }

    pub fn literal_expr(&mut self, literal: u32) -> (r: ExprRef)
        requires
            old(self).wf(),
        ensures
            final(self).wf(),
            (final(self).nodes(), r) == interned(old(self).nodes(), Node::<V>::Literal(literal)),
            final(self).assignments() == old(self).assignments(),
            final(self).valid(r),
            final(self).node(r) == Node::<V>::Literal(literal),
            extends_without_variables(old(self).nodes(), final(self).nodes()),
    {
        self.intern_expr(Expr::Literal(literal))
    }

    pub fn variable_expr(&mut self, variable: V) -> (r: ExprRef)
        requires
            old(self).wf(),
        ensures
            final(self).wf(),
            (final(self).nodes(), r) == interned(old(self).nodes(), Node::Variable(variable)),
            final(self).assignments() == old(self).assignments(),
            final(self).valid(r),
            final(self).node(r) == Node::Variable(variable),
            extends(old(self).nodes(), final(self).nodes()),
    {
        self.intern_expr(Expr::Variable(variable))
    }

    /// The expression for what memory holds at `addr`.
    pub fn read_expr(&mut self, addr: ExprRef) -> (r: ExprRef)
        requires
            old(self).wf(),
            old(self).valid(addr),
        ensures
            final(self).wf(),
            (final(self).nodes(), r) == interned(old(self).nodes(), Node::<V>::Read(addr)),
            final(self).assignments() == old(self).assignments(),
            final(self).valid(r),
            final(self).node(r) == Node::<V>::Read(addr),
            extends_without_variables(old(self).nodes(), final(self).nodes()),
    {
        proof {
            assert(Node::<V>::Read(addr).operands()[0] == addr);
        }
        self.intern_expr(Expr::Read(addr))
    }

    pub fn not_expr(&mut self, expr: ExprRef) -> (r: ExprRef)
        requires
            old(self).wf(),
            old(self).valid(expr),
        ensures
            final(self).wf(),
            (final(self).nodes(), r) == not_normal(old(self).nodes(), expr),
            final(self).assignments() == old(self).assignments(),
            final(self).valid(r),
            extends_without_variables(old(self).nodes(), final(self).nodes()),
    {
        proof {
            self.lemma_wf();
        }
        match self.get_expr(expr) {
            Expr::Literal(literal) => {
                let literal = *literal;
                self.intern_expr(Expr::Literal(!literal))
            },
            Expr::Not(inner) => {
                let inner = *inner;
                proof {
                    let nodes = self.nodes();
                    assert(node_ok(nodes, nodes[expr.raw() as int], expr.raw() as int));
                    assert(nodes[expr.raw() as int].operands()[0] == inner);
                    assert(extends_without_variables(nodes, nodes));
                }
                inner
            },
            _ => {
                proof {
                    assert(Node::<V>::Not(expr).operands()[0] == expr);
                }
                self.intern_expr(Expr::Not(expr))
            },
        }
    }

    pub fn equal_expr(&mut self, lhs: ExprRef, rhs: ExprRef) -> (r: ExprRef)
        requires
            old(self).wf(),
            old(self).valid(lhs),
            old(self).valid(rhs),
        ensures
            final(self).wf(),
            (final(self).nodes(), r) == equal_normal(old(self).nodes(), lhs, rhs),
            final(self).assignments() == old(self).assignments(),
            final(self).valid(r),
            extends_without_variables(old(self).nodes(), final(self).nodes()),
    {
        // Identical expressions are equal.
        if lhs == rhs {
            return self.literal_expr(1);
        }
        // Different literals are unequal.

        if self.literal_value(lhs).is_some() && self.literal_value(rhs).is_some() {
            return self.literal_expr(0);
        }
        // Normal form: terms are sorted by their indices.

        if lhs.0 < rhs.0 {
            proof {
                assert(Node::<V>::Equal(lhs, rhs).operands()[0] == lhs);
                assert(Node::<V>::Equal(lhs, rhs).operands()[1] == rhs);
            }
            self.intern_expr(Expr::Equal(lhs, rhs))
        } else {
            proof {
                assert(Node::<V>::Equal(rhs, lhs).operands()[0] == rhs);
                assert(Node::<V>::Equal(rhs, lhs).operands()[1] == lhs);
            }
            self.intern_expr(Expr::Equal(rhs, lhs))
        }
    }

    pub fn less_signed_expr(&mut self, lhs: ExprRef, rhs: ExprRef) -> (r: ExprRef)
        requires
            old(self).wf(),
            old(self).valid(lhs),
            old(self).valid(rhs),
        ensures
            final(self).wf(),
            (final(self).nodes(), r) == less_signed_normal(old(self).nodes(), lhs, rhs),
            final(self).assignments() == old(self).assignments(),
            final(self).valid(r),
            extends_without_variables(old(self).nodes(), final(self).nodes()),
    {
        // Identical expressions are not less than each other.
        if lhs == rhs {
            return self.literal_expr(0);
        }
        // Compare literals.

        if let (Some(a), Some(b)) = (self.literal_value(lhs), self.literal_value(rhs)) {
            let a: i64 = if a < 0x8000_0000 {
                a as i64
            } else {
                a as i64 - 0x1_0000_0000
            };
            let b: i64 = if b < 0x8000_0000 {
                b as i64
            } else {
                b as i64 - 0x1_0000_0000
            };
            return self.literal_expr(
                if a < b {
                    1
                } else {
                    0
                },
            );
        }
        proof {
            assert(Node::<V>::LessSigned(lhs, rhs).operands()[0] == lhs);
            assert(Node::<V>::LessSigned(lhs, rhs).operands()[1] == rhs);
        }
        self.intern_expr(Expr::LessSigned(lhs, rhs))
    }

    pub fn less_unsigned_expr(&mut self, lhs: ExprRef, rhs: ExprRef) -> (r: ExprRef)
        requires
            old(self).wf(),
            old(self).valid(lhs),
            old(self).valid(rhs),
        ensures
            final(self).wf(),
            (final(self).nodes(), r) == less_unsigned_normal(old(self).nodes(), lhs, rhs),
            final(self).assignments() == old(self).assignments(),
            final(self).valid(r),
            extends_without_variables(old(self).nodes(), final(self).nodes()),
    {
        // Identical expressions are not less than each other.
        if lhs == rhs {
            return self.literal_expr(0);
        }
        // Compare literals.

        if let (Some(a), Some(b)) = (self.literal_value(lhs), self.literal_value(rhs)) {
            return self.literal_expr(
                if a < b {
                    1
                } else {
                    0
                },
            );
        }
        proof {
            assert(Node::<V>::LessUnsigned(lhs, rhs).operands()[0] == lhs);
            assert(Node::<V>::LessUnsigned(lhs, rhs).operands()[1] == rhs);
        }
        self.intern_expr(Expr::LessUnsigned(lhs, rhs))
    }

    /// The operands of an expression.
    pub fn get_expr_leaves(&self, expr: ExprRef) -> (r: Vec<ExprRef>)
        requires
            self.wf(),
            self.valid(expr),
        ensures
            r@ == self.node(expr).operands(),
            forall|k: int| 0 <= k < r@.len() ==> self.valid(#[trigger] r@[k]),
    {
        proof {
            self.lemma_wf();
            let nodes = self.nodes();
            assert(node_ok(nodes, nodes[expr.raw() as int], expr.raw() as int));
        }
        let leaves = match self.get_expr(expr) {
            Expr::Literal(_) | Expr::Variable(_) => Vec::new(),
            Expr::Read(param) | Expr::Not(param) => vec![*param],
            Expr::Phi(params)
            | Expr::Add(params)
            | Expr::Mul(params)
            | Expr::BitOr(params)
            | Expr::BitAnd(params) => params.clone(),
            Expr::Equal(lhs, rhs) | Expr::LessSigned(lhs, rhs) | Expr::LessUnsigned(lhs, rhs) => {
                vec![*lhs, *rhs]
            },
        };
        assert(leaves@ =~= self.node(expr).operands());
        leaves
    }
}

} // verus!
