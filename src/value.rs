use vstd::prelude::*;

use crate::differentiable::Differentiable;
use crate::operations::{
    local_grads, operand_in, operand_pair, operand_target, operation_in, with_node, Operand, Operation,
};

verus! {

/// A node of the computation graph.
#[derive(Clone, Copy, Debug)]
pub struct Node<T> {
    /// The node's scalar value.
    pub data: T,
    /// The gradient accumulator; `None` when the node does not track gradients.
    pub grad: Option<T>,
    /// The operation that produced the node; `None` for a leaf.
    pub operation: Option<Operation<T>>,
}

/// A handle naming one node of a [`Graph`]. Two handles are equal exactly
/// when they name the same node.
#[derive(Clone, Copy, Debug, PartialEq, Eq, Structural)]
pub struct Value {
    id: usize,
}

/// The arena that owns every node. Nodes are only ever appended, and an
/// operation only refers to nodes that existed before it, so the graph is
/// acyclic by construction.
pub struct Graph<T> {
    nodes: Vec<Node<T>>,
}

impl<T> View for Graph<T> {
    type V = Seq<Node<T>>;

    closed spec fn view(&self) -> Seq<Node<T>> {
        self.nodes@
    }
}

/// The node at index `i` only refers to nodes that come before it.
pub open spec fn node_wf<T>(n: Node<T>, i: int) -> bool {
    match n.operation {
        Some(op) => operation_in(op, i),
        None => true,
    }
}

/// Every node only refers to earlier nodes.
pub open spec fn graph_wf<T>(s: Seq<Node<T>>) -> bool {
    forall|i: int| 0 <= i < s.len() ==> node_wf(#[trigger] s[i], i)
}

/// The node `n` with its gradient accumulator replaced by `grad`.
pub open spec fn with_grad<T>(n: Node<T>, grad: Option<T>) -> Node<T> {
    Node { data: n.data, grad, operation: n.operation }
}

/// The graph `s` with `d` added to the accumulator of node `j`, which tracks
/// gradients.
pub open spec fn accumulated<T: Differentiable>(s: Seq<Node<T>>, j: int, d: T) -> Seq<Node<T>> {
    s.update(j, with_grad(s[j], Some(s[j].grad->Some_0.spec_plus(d))))
}

/// A backward pass works on a state: the graph, and one mark per node that
/// says whether the node is active, that is, whether it has to pass its
/// gradient on when its turn comes.
///
/// Node `j` receives the contribution `d`: if it tracks gradients, `d` is
/// added to its accumulator and the node becomes active.
pub open spec fn give<T: Differentiable>(
    st: (Seq<Node<T>>, Seq<bool>),
    j: int,
    d: T,
) -> (Seq<Node<T>>, Seq<bool>) {
    if 0 <= j < st.0.len() && st.0[j].grad is Some {
        (accumulated(st.0, j, d), st.1.update(j, true))
    } else {
        st
    }
}

/// The gradient that node `i` passes on when its turn comes: its accumulated
/// gradient, or the seed for an output that does not track gradients.
pub open spec fn incoming<T: Differentiable>(s: Seq<Node<T>>, i: int) -> T {
    match s[i].grad {
        Some(v) => v,
        None => T::spec_eye(),
    }
}

/// Node `i` passes the gradient `g` on: a leaf sends nothing; an intermediate
/// node sends each operand its local partial derivative times `g`. When both
/// operands borrow the same node, that node receives the sum of the two
/// contributions at once.
pub open spec fn send<T: Differentiable>(
    st: (Seq<Node<T>>, Seq<bool>),
    i: int,
    g: T,
) -> (Seq<Node<T>>, Seq<bool>) {
    match st.0[i].operation {
        None => st,
        Some(op) => {
            let (d1, d2) = local_grads(st.0, op, g);
            let ta = operand_target(operand_pair(op).0);
            let tb = operand_target(operand_pair(op).1);
            if op is Neg {
                give(st, ta, d1)
            } else if ta >= 0 && ta == tb {
                give(st, ta, d1.spec_plus(d2))
            } else {
                give(give(st, ta, d1), tb, d2)
            }
        },
    }
}

/// Nodes `k - 1` down to `0` take their turns, each once: an active node
/// passes on its accumulated gradient. Only later nodes can refer to a node,
/// so by its turn it has received every contribution of the pass.
pub open spec fn sweep<T: Differentiable>(st: (Seq<Node<T>>, Seq<bool>), k: int) -> (
    Seq<Node<T>>,
    Seq<bool>,
)
    decreases k,
{
    if k <= 0 {
        st
    } else {
        let i = k - 1;
        let next = if st.1[i] {
            send(st, i, incoming(st.0, i))
        } else {
            st
        };
        sweep(next, i)
    }
}

/// The graph `s` with the accumulator of node `y`, if it tracks gradients,
/// set to the multiplicative identity.
pub open spec fn seeded<T: Differentiable>(s: Seq<Node<T>>, y: int) -> Seq<Node<T>> {
    if s[y].grad is Some {
        s.update(y, with_grad(s[y], Some(T::spec_eye())))
    } else {
        s
    }
}

/// The activity marks that start a backward pass from node `y` over `n` nodes:
/// only `y` is active.
pub open spec fn start_marks(n: nat, y: int) -> Seq<bool> {
    Seq::new(n, |k: int| k == y)
}

/// The graph after a backward pass from node `y`: `y` is seeded with the
/// multiplicative identity and is the only active node; then `y` and every
/// node before it take their turns.
pub open spec fn backward_pass<T: Differentiable>(s: Seq<Node<T>>, y: int) -> Seq<Node<T>> {
    sweep((seeded(s, y), start_marks(s.len(), y)), y + 1).0
}

/// The two graphs differ at most in the values held by gradient accumulators.
pub open spec fn same_shape<T>(a: Seq<Node<T>>, b: Seq<Node<T>>) -> bool {
    &&& a.len() == b.len()
    &&& forall|k: int|
        #![trigger a[k]]
        #![trigger b[k]]
        0 <= k < a.len() ==> {
            &&& a[k].data == b[k].data
            &&& a[k].operation == b[k].operation
            &&& (a[k].grad is Some <==> b[k].grad is Some)
        }
}

/// Graphs that differ only in gradient values are well formed together.
pub proof fn lemma_same_shape_wf<T>(a: Seq<Node<T>>, b: Seq<Node<T>>)
    requires
        graph_wf(a),
        same_shape(a, b),
    ensures
        graph_wf(b),
{
    assert forall|i: int| 0 <= i < b.len() implies node_wf(#[trigger] b[i], i) by {
        assert(node_wf(a[i], i));
    }
}

/// Differing only in gradient values is transitive.
pub proof fn lemma_same_shape_trans<T>(a: Seq<Node<T>>, b: Seq<Node<T>>, c: Seq<Node<T>>)
    requires
        same_shape(a, b),
        same_shape(b, c),
    ensures
        same_shape(a, c),
{
    assert forall|k: int| 0 <= k < a.len() implies {
        &&& a[k].data == c[k].data
        &&& a[k].operation == c[k].operation
        &&& (a[k].grad is Some <==> c[k].grad is Some)
    } by {
        assert(b[k].data == c[k].data);
    }
}

/// A node's turn changes only gradient values, of nodes before it, and
/// activity marks.
pub proof fn lemma_send_shape<T: Differentiable>(st: (Seq<Node<T>>, Seq<bool>), i: int, g: T)
    requires
        graph_wf(st.0),
        0 <= i < st.0.len(),
        st.1.len() == st.0.len(),
    ensures
        same_shape(st.0, send(st, i, g).0),
        send(st, i, g).1.len() == st.1.len(),
        forall|j: int| i <= j < st.0.len() ==> #[trigger] send(st, i, g).0[j] == st.0[j],
        forall|j: int| i <= j < st.0.len() ==> #[trigger] send(st, i, g).1[j] == st.1[j],
{
    assert(node_wf(st.0[i], i));
}

/// Turns from node `k - 1` down change only gradient values, of nodes before
/// `k`, and activity marks.
pub proof fn lemma_sweep_shape<T: Differentiable>(st: (Seq<Node<T>>, Seq<bool>), k: int)
    requires
        graph_wf(st.0),
        k <= st.0.len(),
        st.1.len() == st.0.len(),
    ensures
        same_shape(st.0, sweep(st, k).0),
        sweep(st, k).1.len() == st.1.len(),
        forall|j: int| k <= j < st.0.len() ==> #[trigger] sweep(st, k).0[j] == st.0[j],
        forall|j: int| k <= j < st.0.len() ==> #[trigger] sweep(st, k).1[j] == st.1[j],
    decreases k,
{
    if k > 0 {
        let i = k - 1;
        let next = if st.1[i] {
            send(st, i, incoming(st.0, i))
        } else {
            st
        };
        if st.1[i] {
            lemma_send_shape(st, i, incoming(st.0, i));
        }
        lemma_same_shape_wf(st.0, next.0);
        lemma_sweep_shape(next, i);
    }
}


impl<T: Differentiable> Graph<T> {
    /// The well-formedness of the arena: every node only refers to earlier ones.
    pub open spec fn wf(&self) -> bool {
        graph_wf(self@)
    }

    /// An empty graph.
    pub fn new() -> (r: Self)
        ensures
            r.wf(),
            r@ == Seq::<Node<T>>::empty(),
    {
        Graph { nodes: Vec::new() }
    }

    /// The number of nodes.
    pub fn len(&self) -> (r: usize)
        ensures
            r == self@.len(),
    {
        self.nodes.len()
    }

    /// Appends `node` and returns its handle.
    pub(crate) fn insert(&mut self, node: Node<T>) -> (r: Value)
        requires
            old(self).wf(),
            node_wf(node, old(self)@.len() as int),
        ensures
            final(self).wf(),
            final(self)@ == old(self)@.push(node),
            r.index() == old(self)@.len(),
    {
        let id = self.nodes.len();
        self.nodes.push(node);
        assert forall|i: int| 0 <= i < self@.len() implies node_wf(#[trigger] self@[i], i) by {
            if i < id {
                assert(node_wf(old(self)@[i], i));
            }
        }
        Value { id }
    }

    /// The node at index `i`.
    pub(crate) fn node(&self, i: usize) -> (r: Node<T>)
        requires
            i < self@.len(),
        ensures
            r == self@[i as int],
    {
        self.nodes[i]
    }

    /// Replaces the gradient accumulator of node `i`.
    fn put_grad(&mut self, i: usize, grad: Option<T>)
        requires
            old(self).wf(),
            i < old(self)@.len(),
        ensures
            final(self).wf(),
            final(self)@ == old(self)@.update(i as int, with_grad(old(self)@[i as int], grad)),
    {
        let n = self.nodes[i];
        self.nodes.set(i, Node { data: n.data, grad, operation: n.operation });
        assert forall|k: int| 0 <= k < self@.len() implies node_wf(#[trigger] self@[k], k) by {
            assert(node_wf(old(self)@[k], k));
        }
    }

    /// Node `j` receives the contribution `d`.
    /// Operand `o` receives the contribution `d`.
    fn give(&mut self, active: &mut Vec<bool>, o: Operand<T>, d: T)
        requires
            old(self).wf(),
            old(active)@.len() == old(self)@.len(),
            operand_in(o, old(self)@.len() as int),
        ensures
            final(self).wf(),
            (final(self)@, final(active)@) == give((old(self)@, old(active)@), operand_target(o), d),
            same_shape(old(self)@, final(self)@),
            final(active)@.len() == final(self)@.len(),
    {
        if let Operand::Ref(v) = o {
            let n = self.nodes[v.id];
            if let Some(acc) = n.grad {
                self.put_grad(v.id, Some(acc.plus(d)));
                active.set(v.id, true);
            }
        }
    }

    /// Node `i` passes the gradient `g` on to its operands.
    fn send(&mut self, active: &mut Vec<bool>, i: usize, g: T)
        requires
            old(self).wf(),
            old(active)@.len() == old(self)@.len(),
            i < old(self)@.len(),
        ensures
            final(self).wf(),
            (final(self)@, final(active)@) == send((old(self)@, old(active)@), i as int, g),
            same_shape(old(self)@, final(self)@),
            final(active)@.len() == final(self)@.len(),
    {
        let n = self.nodes[i];
        assert(node_wf(self@[i as int], i as int));
        match n.operation {
            None => {},
            Some(op) => {
                let (d1, d2) = op.backward(self, g);
                let (a, b) = op.operands();
                match op {
                    Operation::Neg(_) => {
                        self.give(active, a, d1);
                    },
                    _ => {
                        let same = match (a, b) {
                            (Operand::Ref(x), Operand::Ref(y)) => x.id == y.id,
                            _ => false,
                        };
                        if same {
                            self.give(active, a, d1.plus(d2));
                        } else {
                            self.give(active, a, d1);
                            self.give(active, b, d2);
                        }
                    },
                }
            },
        }
    }


    /// Appends the sum of two operands.
    pub fn add(&mut self, lhs: Operand<T>, rhs: Operand<T>) -> (r: Value)
        requires
            old(self).wf(),
            operation_in(Operation::Add(lhs, rhs), old(self)@.len() as int),
        ensures
            final(self).wf(),
            final(self)@ == with_node(old(self)@, Operation::Add(lhs, rhs)),
            r.index() == old(self)@.len(),
    {
        Operation::Add(lhs, rhs).forward(self)
    }

    /// Appends the difference of two operands.
    pub fn sub(&mut self, lhs: Operand<T>, rhs: Operand<T>) -> (r: Value)
        requires
            old(self).wf(),
            operation_in(Operation::Sub(lhs, rhs), old(self)@.len() as int),
        ensures
            final(self).wf(),
            final(self)@ == with_node(old(self)@, Operation::Sub(lhs, rhs)),
            r.index() == old(self)@.len(),
    {
        Operation::Sub(lhs, rhs).forward(self)
    }

    /// Appends the product of two operands.
    pub fn mul(&mut self, lhs: Operand<T>, rhs: Operand<T>) -> (r: Value)
        requires
            old(self).wf(),
            operation_in(Operation::Mul(lhs, rhs), old(self)@.len() as int),
        ensures
            final(self).wf(),
            final(self)@ == with_node(old(self)@, Operation::Mul(lhs, rhs)),
            r.index() == old(self)@.len(),
    {
        Operation::Mul(lhs, rhs).forward(self)
    }

    /// Appends the quotient of two operands.
    pub fn div(&mut self, lhs: Operand<T>, rhs: Operand<T>) -> (r: Value)
        requires
            old(self).wf(),
            operation_in(Operation::Div(lhs, rhs), old(self)@.len() as int),
        ensures
            final(self).wf(),
            final(self)@ == with_node(old(self)@, Operation::Div(lhs, rhs)),
            r.index() == old(self)@.len(),
    {
        Operation::Div(lhs, rhs).forward(self)
    }

    /// Appends the negation of an operand.
    pub fn neg(&mut self, operand: Operand<T>) -> (r: Value)
        requires
            old(self).wf(),
            operation_in(Operation::Neg(operand), old(self)@.len() as int),
        ensures
            final(self).wf(),
            final(self)@ == with_node(old(self)@, Operation::Neg(operand)),
            r.index() == old(self)@.len(),
    {
        Operation::Neg(operand).forward(self)
    }
}

impl Value {
    /// The index of the node in its graph.
    pub closed spec fn index(self) -> nat {
        self.id as nat
    }

    /// Appends a leaf node that tracks gradients, with a zero accumulator.
    pub fn new<T: Differentiable>(g: &mut Graph<T>, data: T) -> (r: Value)
        requires
            old(g).wf(),
        ensures
            final(g).wf(),
            final(g)@ == old(g)@.push(Node { data, grad: Some(T::spec_zero()), operation: None }),
            r.index() == old(g)@.len(),
    {
        g.insert(Node { data, grad: Some(T::zero_grad()), operation: None })
    }

    /// Appends a constant leaf node, which does not track gradients.
    pub fn coeff<T: Differentiable>(g: &mut Graph<T>, data: T) -> (r: Value)
        requires
            old(g).wf(),
        ensures
            final(g).wf(),
            final(g)@ == old(g)@.push(Node { data, grad: None, operation: None }),
            r.index() == old(g)@.len(),
    {
        g.insert(Node { data, grad: None, operation: None })
    }

    /// The node's current value.
    pub fn data<T: Differentiable>(&self, g: &Graph<T>) -> (r: T)
        requires
            self.index() < g@.len(),
        ensures
            r == g@[self.index() as int].data,
    {
        g.node(self.id).data
    }

    /// The node's accumulated gradient, or `None` when it does not track gradients.
    pub fn grad<T: Differentiable>(&self, g: &Graph<T>) -> (r: Option<T>)
        requires
            self.index() < g@.len(),
        ensures
            r == g@[self.index() as int].grad,
    {
        g.node(self.id).grad
    }

    /// Resets the node's accumulator to zero; a node that does not track
    /// gradients is left as it is. Other nodes are not touched.
    pub fn zero_grad<T: Differentiable>(&self, g: &mut Graph<T>)
        requires
            old(g).wf(),
            self.index() < old(g)@.len(),
        ensures
            final(g).wf(),
            final(g)@ == old(g)@.update(
                self.index() as int,
                with_grad(
                    old(g)@[self.index() as int],
                    if old(g)@[self.index() as int].grad is Some {
                        Some(T::spec_zero())
                    } else {
                        None
                    },
                ),
            ),
    {
        self.set_grad(g, T::zero_grad());
    }

    /// Overwrites the node's accumulator with `grad`, if it tracks gradients.
    pub(crate) fn set_grad<T: Differentiable>(&self, g: &mut Graph<T>, grad: T)
        requires
            old(g).wf(),
            self.index() < old(g)@.len(),
        ensures
            final(g).wf(),
            final(g)@ == old(g)@.update(
                self.index() as int,
                with_grad(
                    old(g)@[self.index() as int],
                    if old(g)@[self.index() as int].grad is Some {
                        Some(grad)
                    } else {
                        None
                    },
                ),
            ),
    {
        if g.node(self.id).grad.is_some() {
            g.put_grad(self.id, Some(grad));
        } else {
            proof {
                assert(old(g)@.update(
                    self.index() as int,
                    with_grad(old(g)@[self.index() as int], None),
                ) =~= old(g)@);
            }
        }
    }

    /// Turns gradient tracking on or off. Turning it on for a node that does
    /// not track gradients starts a zero accumulator; turning it on again
    /// keeps the current one; turning it off drops it.
    pub fn requires_grad<T: Differentiable>(&self, g: &mut Graph<T>, val: bool)
        requires
            old(g).wf(),
            self.index() < old(g)@.len(),
        ensures
            final(g).wf(),
            final(g)@ == old(g)@.update(
                self.index() as int,
                with_grad(
                    old(g)@[self.index() as int],
                    if !val {
                        None
                    } else if old(g)@[self.index() as int].grad is None {
                        Some(T::spec_zero())
                    } else {
                        old(g)@[self.index() as int].grad
                    },
                ),
            ),
    {
        let current = g.node(self.id).grad;
        if val && current.is_none() {
            g.put_grad(self.id, Some(T::zero_grad()));
        } else if !val {
            g.put_grad(self.id, None);
        } else {
            proof {
                let i = self.index() as int;
                assert(old(g)@.update(i, with_grad(old(g)@[i], old(g)@[i].grad)) =~= old(g)@);
            }
        }
    }

    /// Runs a backward pass from this node: seeds its accumulator with the
    /// multiplicative identity and accumulates into every tracked ancestor the
    /// chain rule's contributions. Accumulators are added to, never reset.
    /// Runs a backward pass from this node: seeds its accumulator with the
    /// multiplicative identity, then lets this node and every node before it
    /// take their turns, latest first. A node that has received a contribution
    /// passes its accumulated gradient on to its operands, once. Accumulators
    /// are added to, never reset.
    pub fn backward<T: Differentiable>(&self, g: &mut Graph<T>)
        requires
            old(g).wf(),
            self.index() < old(g)@.len(),
        ensures
            final(g).wf(),
            final(g)@ == backward_pass(old(g)@, self.index() as int),
            same_shape(old(g)@, final(g)@),
    {
        let eye = T::eye_grad();
        self.set_grad(g, eye);
        let ghost y = self.index() as int;
        let ghost start_graph = g@;
        proof {
            if old(g)@[y].grad is None {
                assert(g@ == old(g)@);
            }
            assert(start_graph == seeded(old(g)@, y));
        }
        let n = g.len();
        let mut active: Vec<bool> = Vec::new();
        let mut j: usize = 0;
        while j < n
            invariant
                n == g@.len(),
                j <= n,
                y == self.index(),
                active@ =~= Seq::new(j as nat, |t: int| t == y),
            decreases n - j,
        {
            let ghost before = active@;
            active.push(j == self.id);
            assert(active@ =~= Seq::new((j + 1) as nat, |t: int| t == y)) by {
                assert(active@ =~= before.push(j as int == y));
            }
            j = j + 1;
        }
        let ghost start = (start_graph, active@);
        assert(active@ =~= start_marks(old(g)@.len(), y));
        let mut k: usize = self.id + 1;
        while k > 0
            invariant
                g.wf(),
                active@.len() == g@.len(),
                k <= y + 1,
                y < g@.len(),
                y == self.index(),
                eye == T::spec_eye(),
                sweep((g@, active@), k as int) == sweep(start, y + 1),
                same_shape(old(g)@, g@),
            decreases k,
        {
            let i = k - 1;
            let ghost st = (g@, active@);
            assert(sweep(st, k as int) == sweep(
                if st.1[i as int] {
                    send(st, i as int, incoming(st.0, i as int))
                } else {
                    st
                },
                i as int,
            ));
            if active[i] {
                let passed = match g.node(i).grad {
                    Some(v) => v,
                    None => eye,
                };
                assert(passed == incoming(st.0, i as int));
                g.send(&mut active, i, passed);
                proof {
                    lemma_same_shape_trans(old(g)@, st.0, g@);
                }
            }
            assert(sweep((g@, active@), i as int) == sweep(st, k as int));
            k = i;
        }
        assert(sweep((g@, active@), 0) == (g@, active@));

    }

    /// borrowed nodes.
    pub fn pow<T: Differentiable>(&self, g: &mut Graph<T>, exponent: Value) -> (r: Value)
        requires
            old(g).wf(),
            self.index() < old(g)@.len(),
            exponent.index() < old(g)@.len(),
        ensures
            final(g).wf(),
            final(g)@ == with_node(old(g)@, Operation::Pow(Operand::Ref(*self), Operand::Ref(exponent))),
            r.index() == old(g)@.len(),
    {
        Operation::Pow(Operand::Ref(*self), Operand::Ref(exponent)).forward(g)
    }
}

} // verus!
