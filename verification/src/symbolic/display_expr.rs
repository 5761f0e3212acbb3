//! Expressions as text.

use vstd::prelude::*;
use vstd::string::*;

use crate::symbolic::context::Context;
use crate::symbolic::context::node_ok;
use crate::symbolic::expr::Expr;
use crate::symbolic::expr::Node;
use crate::symbolic::expr_ref::ExprRef;
use crate::symbolic::variable::VariableName;
use crate::text::address_text;
use crate::text::push_address;

verus! {

/// The name of the function that stands for a node with operands.
pub open spec fn function_name<V>(node: Node<V>) -> Seq<char> {
    match node {
        Node::Literal(_) | Node::Variable(_) => ""@,
        Node::Read(_) => "read"@,
        Node::Phi(_) => "phi"@,
        Node::Add(_) => "add"@,
        Node::Mul(_) => "mul"@,
        Node::BitOr(_) => "bit_or"@,
        Node::BitAnd(_) => "bit_and"@,
        Node::Not(_) => "not"@,
        Node::Equal(_, _) => "equal"@,
        Node::LessSigned(_, _) => "less_i"@,
        Node::LessUnsigned(_, _) => "less_u"@,
    }
}

/// An expression as text: a literal as `0x` and eight digits, a variable
/// by its name, and any other node as a function of its operands.
pub open spec fn expr_text<V: VariableName>(nodes: Seq<Node<V>>, e: ExprRef) -> Seq<char>
    decreases e.raw() + 1, 0nat,
{
    if e.raw() >= nodes.len() {
        ""@
    } else {
        match nodes[e.raw() as int] {
            Node::Literal(literal) => address_text(literal),
            Node::Variable(variable) => variable.text(),
            node => function_name(node) + "("@ + params_text(
                nodes,
                node.operands(),
                e.raw() as nat,
            ) + ")"@,
        }
    }
}

/// The operands of a node as text, with `, ` between them. Each of them
/// stands before `bound` in the table.
pub open spec fn params_text<V: VariableName>(nodes: Seq<Node<V>>, params: Seq<ExprRef>, bound: nat) -> Seq<
    char,
>
    decreases bound, params.len() + 1,
{
    if params.len() == 0 {
        Seq::empty()
    } else {
        params_text(nodes, params.drop_last(), bound) + (if params.len() > 1 {
            ", "@
        } else {
            Seq::empty()
        }) + (if params.last().raw() < bound {
            expr_text(nodes, params.last())
        } else {
            Seq::empty()
        })
    }
}

/// An expression of a context, to be written as text.
pub struct DisplayExpr<'ctx, V> {
    pub ctx: &'ctx Context<V>,
    pub index: ExprRef,
}

impl<'ctx, V: VariableName> DisplayExpr<'ctx, V> {
    pub fn to_string(&self) -> (r: String)
        requires
            self.ctx.wf(),
            self.ctx.valid(self.index),
        ensures
            r@ == expr_text(self.ctx.nodes(), self.index),
    {
        self.ctx.expr_string(self.index)
    }
}

impl<V: VariableName> Context<V> {
    /// An expression of the context, to be written as text.
    pub fn display_expr(&self, index: ExprRef) -> (r: DisplayExpr<'_, V>)
        ensures
            *r.ctx == *self,
            r.index == index,
    {
        DisplayExpr { ctx: self, index }
    }

    /// An expression as text.
    pub fn expr_string(&self, index: ExprRef) -> (r: String)
        requires
            self.wf(),
            self.valid(index),
        ensures
            r@ == expr_text(self.nodes(), index),
        decreases index.raw() + 1, 0nat,
    {
        proof {
            self.lemma_wf();
            let nodes = self.nodes();
            assert(node_ok(nodes, nodes[index.raw() as int], index.raw() as int));
        }
        let name = match self.get_expr(index) {
            Expr::Literal(literal) => {
                let mut out = String::new();
                push_address(&mut out, *literal);
                proof {
                    assert(Seq::<char>::empty() + address_text(*literal) =~= address_text(
                        *literal,
                    ));
                }
                return out;
            },
            Expr::Variable(variable) => {
                return variable.to_string();
            },
            Expr::Read(_) => "read",
            Expr::Phi(_) => "phi",
            Expr::Add(_) => "add",
            Expr::Mul(_) => "mul",
            Expr::BitOr(_) => "bit_or",
            Expr::BitAnd(_) => "bit_and",
            Expr::Not(_) => "not",
            Expr::Equal(_, _) => "equal",
            Expr::LessSigned(_, _) => "less_i",
            Expr::LessUnsigned(_, _) => "less_u",
        };
        let params = self.get_expr_leaves(index);
        let mut out = String::from_str(name);
        out.append("(");
        out.append(self.params_string(&params, index.to_raw()).as_str());
        out.append(")");
        out
    }

    /// The operands of a node as text.
    fn params_string(&self, params: &Vec<ExprRef>, bound: usize) -> (r: String)
        requires
            self.wf(),
            forall|k: int| 0 <= k < params@.len() ==> (#[trigger] params@[k]).raw() < bound,
            bound <= self.nodes().len(),
        ensures
            r@ == params_text(self.nodes(), params@, bound as nat),
        decreases bound, params@.len() + 1,
    {
        let mut list = String::new();
        let mut i: usize = 0;
        while i < params.len()
            invariant
                i <= params.len(),
                self.wf(),
                bound <= self.nodes().len(),
                forall|k: int| 0 <= k < params@.len() ==> (#[trigger] params@[k]).raw() < bound,
                list@ == params_text(self.nodes(), params@.take(i as int), bound as nat),
            decreases params.len() - i,
        {
            proof {
                assert(params@.take(i + 1).drop_last() =~= params@.take(i as int));
                assert(params@.take(i + 1).last() == params@[i as int]);
            }
            let ghost before = list@;
            if i > 0 {
                list.append(", ");
            } else {
                proof {
                    assert(before + Seq::<char>::empty() =~= before);
                }
            }
            list.append(self.expr_string(params[i]).as_str());
            i += 1;
        }
        proof {
            assert(params@.take(params@.len() as int) =~= params@);
        }
        list
    }
}

} // verus!
