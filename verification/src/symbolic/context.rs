use std::collections::HashMap;
use vstd::prelude::*;

use crate::symbolic::expr::Expr;
use crate::symbolic::expr::Node;
use crate::symbolic::expr_ref::ExprRef;
use crate::symbolic::fingerprint::node_code;
use crate::symbolic::variable::VariableName;

verus! {

/// Whether the references come in ascending order of their indices; equal
/// neighbours are allowed.
pub open spec fn ordered(refs: Seq<ExprRef>) -> bool {
    forall|i: int, j: int| 0 <= i < j < refs.len() ==> refs[i].raw() <= refs[j].raw()
}

/// Whether the references come in strictly ascending order of their indices.
pub open spec fn strictly_ordered(refs: Seq<ExprRef>) -> bool {
    forall|i: int, j: int| 0 <= i < j < refs.len() ==> refs[i].raw() < refs[j].raw()
}

/// The literal that a reference stands for in a table, if it stands for one.
pub open spec fn literal_at<V>(nodes: Seq<Node<V>>, e: ExprRef) -> Option<u32> {
    if e.raw() < nodes.len() {
        match nodes[e.raw() as int] {
            Node::Literal(literal) => Some(literal),
            _ => None,
        }
    } else {
        None
    }
}

/// Whether a node may stand in a table at place `at`, whose earlier places
/// are `nodes`: its operands stand before it, and it is in the normal form
/// that the constructors of [`Context`] give to a node of its kind.
pub open spec fn node_ok<V>(nodes: Seq<Node<V>>, node: Node<V>, at: int) -> bool {
    &&& at <= nodes.len()
    &&& forall|k: int| 0 <= k < node.operands().len() ==> (#[trigger] node.operands()[k]).raw() < at
    &&& match node {
        Node::Literal(_) | Node::Variable(_) | Node::Read(_) => true,
        Node::Phi(params) => {
            &&& ordered(params)
            &&& forall|k: int|
                0 <= k < params.len() ==> !(nodes[(#[trigger] params[k]).raw() as int] is Phi)
        },
        Node::Add(params) => {
            &&& params.len() >= 2
            &&& ordered(params)
            &&& forall|k: int|
                0 <= k < params.len() ==> !(nodes[(#[trigger] params[k]).raw() as int] is Add)
            &&& forall|k: int|
                0 <= k < params.len() ==> literal_at(nodes, #[trigger] params[k]) != Some(0u32)
            &&& forall|j: int, k: int|
                0 <= j < k < params.len() ==> !(literal_at(nodes, #[trigger] params[j]) is Some
                    && literal_at(nodes, #[trigger] params[k]) is Some)
        },
        Node::Mul(params) => {
            &&& params.len() >= 2
            &&& ordered(params)
            &&& forall|k: int|
                0 <= k < params.len() ==> !(nodes[(#[trigger] params[k]).raw() as int] is Mul)
            &&& forall|k: int|
                0 <= k < params.len() ==> literal_at(nodes, #[trigger] params[k]) != Some(0u32)
                    && literal_at(nodes, params[k]) != Some(1u32)
            &&& forall|j: int, k: int|
                0 <= j < k < params.len() ==> !(literal_at(nodes, #[trigger] params[j]) is Some
                    && literal_at(nodes, #[trigger] params[k]) is Some)
        },
        Node::BitOr(params) | Node::BitAnd(params) => {
            &&& params.len() >= 2
            &&& strictly_ordered(params)
        },
        Node::Not(param) => {
            &&& !(nodes[param.raw() as int] is Literal)
            &&& !(nodes[param.raw() as int] is Not)
        },
        Node::Equal(lhs, rhs) => {
            &&& lhs.raw() < rhs.raw()
            &&& !(nodes[lhs.raw() as int] is Literal && nodes[rhs.raw() as int] is Literal)
        },
        Node::LessSigned(lhs, rhs) | Node::LessUnsigned(lhs, rhs) => {
            &&& lhs != rhs
            &&& !(nodes[lhs.raw() as int] is Literal && nodes[rhs.raw() as int] is Literal)
        },
    }
}

/// Whether a table is one that a [`Context`] can hold: no node stands in it
/// twice, and each node is in normal form over nodes that stand before it.
pub open spec fn table_wf<V>(nodes: Seq<Node<V>>) -> bool {
    &&& forall|i: int| 0 <= i < nodes.len() ==> node_ok(nodes, #[trigger] nodes[i], i)
    &&& forall|i: int, j: int| 0 <= i < j < nodes.len() ==> nodes[i] != nodes[j]
}

/// The table and the reference that interning `node` in `nodes` gives: the
/// place where the node stands already, or else the table with the node at
/// its end.
#[verifier::opaque]
pub open spec fn interned<V>(nodes: Seq<Node<V>>, node: Node<V>) -> (Seq<Node<V>>, ExprRef) {
    if nodes.contains(node) {
        (nodes, ExprRef(nodes.index_of(node) as usize))
    } else {
        (nodes.push(node), ExprRef(nodes.len() as usize))
    }
}

/// Whether `after` is `before` with further nodes at its end.
pub open spec fn extends<V>(before: Seq<Node<V>>, after: Seq<Node<V>>) -> bool {
    before.is_prefix_of(after)
}

/// Whether `after` is `before` with further nodes at its end, none of them a
/// variable.
pub open spec fn extends_without_variables<V>(before: Seq<Node<V>>, after: Seq<Node<V>>) -> bool {
    &&& before.is_prefix_of(after)
    &&& forall|i: int| before.len() <= i < after.len() ==> !(#[trigger] after[i] is Variable)
}

/// A node that may stand at some place of a table may stand at the same
/// place of any longer one.
pub proof fn lemma_node_ok_extends<V>(before: Seq<Node<V>>, after: Seq<Node<V>>, node: Node<V>, at: int)
    requires
        extends(before, after),
        node_ok(before, node, at),
    ensures
        node_ok(after, node, at),
{
    assert forall|e: ExprRef| e.raw() < at implies after[e.raw() as int] == before[e.raw() as int]
        && literal_at(after, e) == literal_at(before, e) by {}
    match node {
        Node::Phi(params) => {
            assert forall|k: int| 0 <= k < params.len() implies !(after[(
            #[trigger] params[k]).raw() as int] is Phi) by {
                assert(node.operands()[k] == params[k]);
            }
        },
        Node::Add(params) => {
            assert forall|k: int| 0 <= k < params.len() implies (#[trigger] params[k]).raw()
                < at by {
                assert(node.operands()[k] == params[k]);
            }
        },
        Node::Mul(params) => {
            assert forall|k: int| 0 <= k < params.len() implies (#[trigger] params[k]).raw()
                < at by {
                assert(node.operands()[k] == params[k]);
            }
        },
        Node::Not(param) => {
            assert(node.operands()[0] == param);
        },
        Node::Equal(lhs, rhs) | Node::LessSigned(lhs, rhs) | Node::LessUnsigned(lhs, rhs) => {
            assert(node.operands()[0] == lhs);
            assert(node.operands()[1] == rhs);
        },
        _ => {},
    }
}

/// Interning a node that may stand at the end of a well-formed table gives
/// a well-formed table in which the reference stands for the node.
pub proof fn lemma_interned<V>(nodes: Seq<Node<V>>, node: Node<V>)
    requires
        table_wf(nodes),
        node_ok(nodes, node, nodes.len() as int),
        nodes.len() < usize::MAX,
        !nodes.contains(node),
    ensures
        table_wf(interned(nodes, node).0),
        extends(nodes, interned(nodes, node).0),
        interned(nodes, node).1.raw() < interned(nodes, node).0.len(),
        interned(nodes, node).0[interned(nodes, node).1.raw() as int] == node,
        interned(nodes, node).0.len() <= nodes.len() + 1,
        !(node is Variable) ==> extends_without_variables(nodes, interned(nodes, node).0),
{
    reveal(interned);
    let after = interned(nodes, node).0;
    if nodes.contains(node) {
    } else {
        assert forall|i: int| 0 <= i < after.len() implies node_ok(
            after,
            #[trigger] after[i],
            i,
        ) by {
            if i < nodes.len() {
                lemma_node_ok_extends(nodes, after, nodes[i], i);
            } else {
                lemma_node_ok_extends(nodes, after, node, i);
            }
        }
        assert forall|i: int, j: int| 0 <= i < j < after.len() implies after[i] != after[j] by {
            if j == nodes.len() {
                assert(nodes[i] == after[i]);
            }
        }
    }
}

/// Interning a node gives a table that begins with the old one, and a
/// reference that stands for the node in it.
pub proof fn lemma_interned_stands<V>(nodes: Seq<Node<V>>, node: Node<V>)
    requires
        interned(nodes, node).0.len() <= usize::MAX,
    ensures
        extends(nodes, interned(nodes, node).0),
        interned(nodes, node).1.raw() < interned(nodes, node).0.len(),
        interned(nodes, node).0[interned(nodes, node).1.raw() as int] == node,
{
    reveal(interned);
}

/// In a well-formed table a node stands at one place only.
pub proof fn lemma_place_unique<V>(nodes: Seq<Node<V>>, a: ExprRef, b: ExprRef)
    requires
        table_wf(nodes),
        a.raw() < nodes.len(),
        b.raw() < nodes.len(),
        nodes[a.raw() as int] == nodes[b.raw() as int],
    ensures
        a == b,
{
    if a.raw() < b.raw() {
        assert(nodes[a.raw() as int] != nodes[b.raw() as int]);
    } else if b.raw() < a.raw() {
        assert(nodes[b.raw() as int] != nodes[a.raw() as int]);
    }
}

/// Interning a node that stands at place `at` of a well-formed table gives
/// that place back and leaves the table as it is.
pub proof fn lemma_interned_present<V>(nodes: Seq<Node<V>>, at: ExprRef)
    requires
        table_wf(nodes),
        at.raw() < nodes.len(),
    ensures
        interned(nodes, nodes[at.raw() as int]) == (nodes, at),
{
    reveal(interned);
    let node = nodes[at.raw() as int];
    assert(nodes.contains(node));
    let found = nodes.index_of(node);
    lemma_place_unique(nodes, at, ExprRef(found as usize));
}

/// An interned graph of expressions: each node stands in it once, so two
/// references are equal exactly if they stand for the same expression.
pub struct Context<V> {
    /// The nodes, each at the index of its reference.
    exprs_by_index: Vec<Expr<V>>,
    /// The indices of the nodes, filed under the numbers of the nodes. The
    /// key is a number and not the node itself: what a hash map finds again
    /// is known of keys of a primitive type only, not of a node with its
    /// lists of operands.
    indices_by_code: HashMap<u64, Vec<usize>>,
    /// What is assigned to the variables, by the index of the variable.
    variable_assignments: HashMap<usize, ExprRef>,
}

/// Whether a place is filed under a number.
pub open spec fn filed_under(files: Map<u64, Vec<usize>>, code: u64, place: int) -> bool {
    files.contains_key(code) && exists|k: int|
        0 <= k < files[code]@.len() && #[trigger] files[code]@[k] == place
}

/// Whether each node of the table is filed under its number, and nothing
/// is filed that is no place of the table.
pub open spec fn filed<V: VariableName>(nodes: Seq<Node<V>>, files: Map<u64, Vec<usize>>) -> bool {
    &&& forall|i: int|
        0 <= i < nodes.len() ==> #[trigger] filed_under(files, node_code(nodes[i]), i)
    &&& forall|code: u64, k: int|
        files.contains_key(code) && 0 <= k < files[code]@.len() ==> (#[trigger] files[code]@[k])
            < nodes.len()
}

impl<V: VariableName> Context<V> {
    /// The table of nodes: the node of reference `r` stands at `r.raw()`.
    pub closed spec fn nodes(&self) -> Seq<Node<V>> {
        Seq::new(self.exprs_by_index@.len(), |i: int| self.exprs_by_index@[i]@)
    }

    /// What has been assigned to which variable.
    pub closed spec fn assignments(&self) -> Map<ExprRef, ExprRef> {
        Map::new(
            |variable: ExprRef| self.variable_assignments@.contains_key(variable.raw()),
            |variable: ExprRef| self.variable_assignments@[variable.raw()],
        )
    }

    /// Whether the reference stands for a node of this context.
    pub open spec fn valid(&self, e: ExprRef) -> bool {
        e.raw() < self.nodes().len()
    }

    /// The node that a valid reference stands for.
    pub open spec fn node(&self, e: ExprRef) -> Node<V> {
        self.nodes()[e.raw() as int]
    }

    /// The table is well formed, only variables of the table have an
    /// assignment, and what is assigned is in the table.
    pub closed spec fn wf(&self) -> bool {
        &&& table_wf(self.nodes())
        &&& filed(self.nodes(), self.indices_by_code@)
        &&& forall|variable: ExprRef| #[trigger]
            self.assignments().contains_key(variable) ==> {
                &&& self.valid(variable)
                &&& self.node(variable) is Variable
                &&& self.valid(self.assignments()[variable])
            }
    }

    /// What the predicate `wf` says, for those who cannot see inside it.
    pub proof fn lemma_wf(&self)
        requires
            self.wf(),
        ensures
            table_wf(self.nodes()),
            self.nodes().len() <= usize::MAX,
            forall|variable: ExprRef| #[trigger]
                self.assignments().contains_key(variable) ==> {
                    &&& self.valid(variable)
                    &&& self.node(variable) is Variable
                    &&& self.valid(self.assignments()[variable])
                },
    {
        assert(self.exprs_by_index.len() == self.exprs_by_index@.len());
    }

    pub fn new() -> (r: Self)
        ensures
            r.wf(),
            r.nodes() == Seq::<Node<V>>::empty(),
            r.assignments() == Map::<ExprRef, ExprRef>::empty(),
    {
        let r = Self {
            exprs_by_index: Vec::new(),
            indices_by_code: HashMap::new(),
            variable_assignments: HashMap::new(),
        };
        assert(r.nodes() =~= Seq::<Node<V>>::empty());
        assert(r.assignments() =~= Map::<ExprRef, ExprRef>::empty());
        r
    }

    /// How many nodes the context holds.
    pub fn len(&self) -> (r: usize)
        ensures
            r == self.nodes().len(),
    {
        self.exprs_by_index.len()
    }

    pub fn get_expr(&self, index: ExprRef) -> (r: &Expr<V>)
        requires
            self.valid(index),
        ensures
            r@ == self.node(index),
    {
        &self.exprs_by_index[index.0]
    }

    pub fn is_variable(&self, variable: ExprRef) -> (r: bool)
        requires
            self.valid(variable),
        ensures
            r == (self.node(variable) is Variable),
    {
        match &self.exprs_by_index[variable.0] {
            Expr::Variable(_) => true,
            _ => false,
        }
    }

    /// What was last assigned to the variable, if anything was.
    pub fn get_variable_assignment(&self, variable: ExprRef) -> (r: Option<ExprRef>)
        requires
            self.wf(),
            self.valid(variable),
            self.node(variable) is Variable,
        ensures
            r == self.assignments().get(variable),
            r is Some ==> self.valid(r->0),
    {
        broadcast use vstd::std_specs::hash::group_hash_axioms;

        match self.variable_assignments.get(&variable.0) {
            Some(assignment) => {
                assert(self.assignments().contains_key(variable));
                Some(*assignment)
            },
            None => None,
        }
    }

    /// Assigns an expression to a variable; a later assignment overrides an
    /// earlier one.
    pub fn assign_variable(&mut self, variable: ExprRef, assignment: ExprRef)
        requires
            old(self).wf(),
            old(self).valid(variable),
            old(self).node(variable) is Variable,
            old(self).valid(assignment),
        ensures
            final(self).wf(),
            final(self).nodes() == old(self).nodes(),
            final(self).assignments() == old(self).assignments().insert(variable, assignment),
    {
        broadcast use vstd::std_specs::hash::group_hash_axioms;

        self.variable_assignments.insert(variable.0, assignment);
        assert(self.nodes() =~= old(self).nodes());
        assert(self.assignments() =~= old(self).assignments().insert(variable, assignment)) by {
            assert forall|v: ExprRef|
                self.assignments().contains_key(v) == old(self).assignments().insert(
                    variable,
                    assignment,
                ).contains_key(v) by {
                if v.raw() == variable.raw() {
                    assert(v == variable);
                }
            }
        }
    }

    /// Every variable of the context with its reference, in the order of
    /// the references.
    pub fn iter_variables(&self) -> (r: Vec<(ExprRef, &V)>)
        ensures
            forall|k: int|
                0 <= k < r@.len() ==> self.valid((#[trigger] r@[k]).0) && self.node(r@[k].0)
                    == Node::Variable(*r@[k].1),
            forall|j: int, k: int| 0 <= j < k < r@.len() ==> r@[j].0.raw() < r@[k].0.raw(),
            forall|e: ExprRef|
                self.valid(e) && self.node(e) is Variable ==> exists|k: int|
                    0 <= k < r@.len() && (#[trigger] r@[k]).0 == e,
    {
        let mut variables: Vec<(ExprRef, &V)> = Vec::new();
        let mut index: usize = 0;
        while index < self.exprs_by_index.len()
            invariant
                index <= self.exprs_by_index.len(),
                forall|k: int|
                    0 <= k < variables@.len() ==> (#[trigger] variables@[k]).0.raw() < index
                        && self.node(variables@[k].0) == Node::Variable(*variables@[k].1),
                forall|j: int, k: int|
                    0 <= j < k < variables@.len() ==> variables@[j].0.raw() < variables@[k].0.raw(),
                forall|e: ExprRef|
                    e.raw() < index && self.node(e) is Variable ==> exists|k: int|
                        0 <= k < variables@.len() && (#[trigger] variables@[k]).0 == e,
            decreases self.exprs_by_index.len() - index,
        {
            let ghost before = variables@;
            match &self.exprs_by_index[index] {
                Expr::Variable(variable) => {
                    variables.push((ExprRef(index), variable));
                    proof {
                        assert forall|e: ExprRef|
                            e.raw() < index + 1 && self.node(e) is Variable implies exists|k: int|
                            0 <= k < variables@.len() && (#[trigger] variables@[k]).0 == e by {
                            if e.raw() < index {
                                let k = choose|k: int|
                                    0 <= k < before.len() && (#[trigger] before[k]).0 == e;
                                assert(variables@[k].0 == e);
                            } else {
                                assert(variables@[before.len() as int].0 == e);
                            }
                        }
                    }
                },
                _ => {
                    proof {
                        assert forall|e: ExprRef|
                            e.raw() < index + 1 && self.node(e) is Variable implies exists|k: int|
                            0 <= k < variables@.len() && (#[trigger] variables@[k]).0 == e by {
                            assert(e.raw() < index);
                        }
                    }
                },
            }
            index += 1;
        }
        variables
    }

    /// Puts a node that the table does not hold at its end, and files it
    /// under its number.
    fn insert_unique_expr(&mut self, expr: Expr<V>, code: u64) -> (r: ExprRef)
        requires
            old(self).wf(),
            !old(self).nodes().contains(expr@),
            node_ok(old(self).nodes(), expr@, old(self).nodes().len() as int),
            code == node_code(expr@),
        ensures
            final(self).wf(),
            final(self).nodes() == old(self).nodes().push(expr@),
            final(self).assignments() == old(self).assignments(),
            r.raw() == old(self).nodes().len(),
            (final(self).nodes(), r) == interned(old(self).nodes(), expr@),
    {
        broadcast use vstd::std_specs::hash::group_hash_axioms;

        let ghost node = expr@;
        let ghost before = self.nodes();
        let ghost files = self.indices_by_code@;
        let index = self.exprs_by_index.len();
        self.exprs_by_index.push(expr);
        let grown = self.exprs_by_index.len();
        proof {
            reveal(interned);
            assert(grown == index + 1);
            lemma_interned(before, node);
        }
        let bucket = self.indices_by_code.entry(code).or_insert(Vec::new());
        let ghost listed = bucket@;
        bucket.push(index);
        proof {
            let after = self.nodes();
            assert(after =~= before.push(node));
            assert(self.assignments() =~= old(self).assignments());
            let filed_now = self.indices_by_code@;
            assert(filed_now == files.insert(code, filed_now[code]));
            assert(filed_now[code]@ == listed.push(index));
            assert(listed == if files.contains_key(code) {
                files[code]@
            } else {
                Seq::<usize>::empty()
            });
            assert forall|i: int| 0 <= i < after.len() implies #[trigger] filed_under(
                filed_now,
                node_code(after[i]),
                i,
            ) by {
                if i < before.len() {
                    assert(after[i] == before[i]);
                    let here = node_code(before[i]);
                    assert(filed_under(files, here, i));
                    let k = choose|k: int|
                        0 <= k < files[here]@.len() && #[trigger] files[here]@[k] == i;
                    if here == code {
                        assert(filed_now[code]@[k] == i);
                    } else {
                        assert(filed_now[here]@[k] == i);
                    }
                } else {
                    assert(filed_now[code]@[listed.len() as int] == index);
                }
            }
            assert forall|other: u64, k: int|
                filed_now.contains_key(other) && 0 <= k < filed_now[other]@.len() implies (
            #[trigger] filed_now[other]@[k]) < after.len() by {
                if other == code {
                    if k < listed.len() {
                        assert(filed_now[code]@[k] == listed[k]);
                        assert(files[code]@[k] < before.len());
                    }
                } else {
                    assert(files[other]@[k] < before.len());
                }
            }
        }
        ExprRef(index)
    }

    /// The place of a node among the places that are filed under its
    /// number, if it stands at one of them.
    fn find_expr(&self, expr: &Expr<V>, code: u64) -> (r: Option<usize>)
        requires
            filed(self.nodes(), self.indices_by_code@),
            code == node_code(expr@),
        ensures
            match r {
                Some(index) => index < self.nodes().len() && self.nodes()[index as int] == expr@,
                None => !self.nodes().contains(expr@),
            },
    {
        broadcast use vstd::std_specs::hash::group_hash_axioms;

        let ghost nodes = self.nodes();
        let ghost files = self.indices_by_code@;
        match self.indices_by_code.get(&code) {
            Some(bucket) => {
                let mut k: usize = 0;
                while k < bucket.len()
                    invariant
                        k <= bucket.len(),
                        nodes == self.nodes(),
                        files.contains_key(code),
                        *bucket == files[code],
                        forall|j: int|
                            0 <= j < bucket@.len() ==> (#[trigger] bucket@[j]) < nodes.len(),
                        forall|j: int| 0 <= j < k ==> nodes[(#[trigger] bucket@[j]) as int] != expr@,
                    decreases bucket.len() - k,
                {
                    let index = bucket[k];
                    if self.exprs_by_index[index].same(expr) {
                        assert(nodes[index as int] == expr@);
                        return Some(index);
                    }
                    k += 1;
                }
                proof {
                    if nodes.contains(expr@) {
                        let i = choose|i: int| 0 <= i < nodes.len() && nodes[i] == expr@;
                        assert(filed_under(files, node_code(nodes[i]), i));
                        let j = choose|j: int|
                            0 <= j < files[code]@.len() && #[trigger] files[code]@[j] == i;
                        assert(nodes[bucket@[j] as int] != expr@);
                    }
                }
                None
            },
            None => {
                proof {
                    if nodes.contains(expr@) {
                        let i = choose|i: int| 0 <= i < nodes.len() && nodes[i] == expr@;
                        assert(filed_under(files, node_code(nodes[i]), i));
                    }
                }
                None
            },
        }
    }

    /// The reference of a node: the one it has, or a new one at the end of
    /// the table.
    pub(crate) fn intern_expr(&mut self, expr: Expr<V>) -> (r: ExprRef)
        requires
            old(self).wf(),
            node_ok(old(self).nodes(), expr@, old(self).nodes().len() as int),
        ensures
            final(self).wf(),
            (final(self).nodes(), r) == interned(old(self).nodes(), expr@),
            final(self).assignments() == old(self).assignments(),
            final(self).valid(r),
            final(self).node(r) == expr@,
            extends(old(self).nodes(), final(self).nodes()),
            !(expr@ is Variable) ==> extends_without_variables(
                old(self).nodes(),
                final(self).nodes(),
            ),
    {
        let code = expr.code();
        proof {
            assert(filed(self.nodes(), self.indices_by_code@));
        }
        match self.find_expr(&expr, code) {
            Some(index) => {
                proof {
                    lemma_interned_present(self.nodes(), ExprRef(index));
                    assert(extends_without_variables(self.nodes(), self.nodes()));
                }
                ExprRef(index)
            },
            None => {
                let ghost node = expr@;
                let r = self.insert_unique_expr(expr, code);
                proof {
                    let before = old(self).nodes();
                    let after = self.nodes();
                    assert(before.is_prefix_of(after));
                    if !(node is Variable) {
                        assert forall|i: int| before.len() <= i < after.len() implies !(
                        #[trigger] after[i] is Variable) by {}
                    }
                }
                r
            },
        }
    }
}

impl<V: VariableName> Default for Context<V> {
    /// A context that holds nothing.
    fn default() -> (r: Self)
        ensures
            r.wf(),
            r.nodes() == Seq::<Node<V>>::empty(),
            r.assignments() == Map::<ExprRef, ExprRef>::empty(),
    {
        Self::new()
    }
}

} // verus!
