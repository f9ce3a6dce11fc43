use vstd::prelude::*;

use crate::differentiable::Differentiable;
use crate::value::{Graph, Node, Value};

verus! {

/// One input of a recorded operation.
#[derive(Clone, Copy, Debug)]
pub enum Operand<T> {
    /// A borrowed node of the graph: gradients flow back into it.
    Ref(Value),
    /// A constant snapshot of a value consumed by the operation: it carries no
    /// gradient and is never traversed.
    Value(T),
}

/// The operation that produced an intermediate node, with its operands.
#[derive(Clone, Copy, Debug)]
pub enum Operation<T> {
    Add(Operand<T>, Operand<T>),
    Sub(Operand<T>, Operand<T>),
    Mul(Operand<T>, Operand<T>),
    Div(Operand<T>, Operand<T>),
    Pow(Operand<T>, Operand<T>),
    Neg(Operand<T>),
}

/// The operand refers to a node among the first `len` nodes, if it refers to one.
pub open spec fn operand_in<T>(o: Operand<T>, len: int) -> bool {
    match o {
        Operand::Ref(v) => v.index() < len,
        Operand::Value(_) => true,
    }
}

/// The index of the node that the operand borrows, or -1 for a snapshot.
pub open spec fn operand_target<T>(o: Operand<T>) -> int {
    match o {
        Operand::Ref(v) => v.index() as int,
        Operand::Value(_) => -1,
    }
}

/// The current value of an operand in the graph `s`.
pub open spec fn operand_data<T>(s: Seq<Node<T>>, o: Operand<T>) -> T {
    match o {
        Operand::Ref(v) => s[v.index() as int].data,
        Operand::Value(t) => t,
    }
}

/// The operand pair of an operation; the unary negation repeats its operand.
pub open spec fn operand_pair<T>(op: Operation<T>) -> (Operand<T>, Operand<T>) {
    match op {
        Operation::Add(a, b) => (a, b),
        Operation::Sub(a, b) => (a, b),
        Operation::Mul(a, b) => (a, b),
        Operation::Div(a, b) => (a, b),
        Operation::Pow(a, b) => (a, b),
        Operation::Neg(a) => (a, a),
    }
}

/// Every operand of the operation refers to one of the first `len` nodes.
pub open spec fn operation_in<T>(op: Operation<T>, len: int) -> bool {
    operand_in(operand_pair(op).0, len) && operand_in(operand_pair(op).1, len)
}

/// The value that the operation computes from its operands' current values.
pub open spec fn forward_data<T: Differentiable>(s: Seq<Node<T>>, op: Operation<T>) -> T {
    let a = operand_data(s, operand_pair(op).0);
    let b = operand_data(s, operand_pair(op).1);
    match op {
        Operation::Add(_, _) => a.spec_plus(b),
        Operation::Sub(_, _) => a.spec_minus(b),
        Operation::Mul(_, _) => a.spec_times(b),
        Operation::Div(_, _) => a.spec_divide(b),
        Operation::Pow(_, _) => a.spec_pow(b),
        Operation::Neg(_) => a.spec_negate(),
    }
}

/// The contributions that the operation sends to its two operands when the
/// gradient `g` arrives at its result: each operand's local partial
/// derivative, multiplied by `g`.
///
/// | operation | first operand `a`   | second operand `b` |
/// |-----------|---------------------|--------------------|
/// | Add       | eye                 | eye                |
/// | Sub       | eye                 | -eye               |
/// | Mul       | b                   | a                  |
/// | Div       | eye / b             | -a / (b * b)       |
/// | Pow       | b * a^(b - eye)     | a^b * log(a)       |
/// | Neg       | -eye                | (the same)         |
pub open spec fn local_grads<T: Differentiable>(s: Seq<Node<T>>, op: Operation<T>, g: T) -> (T, T) {
    let a = operand_data(s, operand_pair(op).0);
    let b = operand_data(s, operand_pair(op).1);
    let eye = T::spec_eye();
    match op {
        Operation::Add(_, _) => (g.spec_times(eye), g.spec_times(eye)),
        Operation::Sub(_, _) => (g.spec_times(eye), g.spec_negate().spec_times(eye)),
        Operation::Mul(_, _) => (g.spec_times(b), g.spec_times(a)),
        Operation::Div(_, _) => (
            g.spec_divide(b),
            g.spec_negate().spec_times(a).spec_divide(b.spec_times(b)),
        ),
        Operation::Pow(_, _) => (
            g.spec_times(b.spec_times(a.spec_pow(b.spec_minus(eye)))),
            g.spec_times(a.spec_pow(b).spec_times(a.spec_log())),
        ),
        Operation::Neg(_) => (eye.spec_negate().spec_times(g), eye.spec_negate().spec_times(g)),
    }
}

impl<T: Differentiable> Operand<T> {
    /// The operand's current value: the borrowed node's data, or the snapshot.
    pub fn data(&self, g: &Graph<T>) -> (r: T)
        requires
            operand_in(*self, g@.len() as int),
        ensures
            r == operand_data(g@, *self),
    {
        match *self {
            Operand::Ref(v) => v.data(g),
            Operand::Value(t) => t,
        }
    }

    /// The node that the operand borrows; a snapshot refers to none.
    pub fn value(&self) -> (r: Option<Value>)
        ensures
            r == (match *self {
                Operand::Ref(v) => Some(v),
                Operand::Value(_) => None::<Value>,
            }),
    {
        match *self {
            Operand::Ref(v) => Some(v),
            Operand::Value(_) => None,
        }
    }
}

impl<T: Differentiable> Operation<T> {
    /// The operand pair; the unary negation repeats its operand.
    pub fn operands(&self) -> (r: (Operand<T>, Operand<T>))
        ensures
            r == operand_pair(*self),
    {
        match *self {
            Operation::Add(a, b) => (a, b),
            Operation::Sub(a, b) => (a, b),
            Operation::Mul(a, b) => (a, b),
            Operation::Div(a, b) => (a, b),
            Operation::Pow(a, b) => (a, b),
            Operation::Neg(a) => (a, a),
        }
    }

    /// Computes the result of the operation from its operands' current values.
    pub fn evaluate(&self, g: &Graph<T>) -> (r: T)
        requires
            operation_in(*self, g@.len() as int),
        ensures
            r == forward_data(g@, *self),
    {
        let (lhs, rhs) = self.operands();
        let a = lhs.data(g);
        let b = rhs.data(g);
        match *self {
            Operation::Add(_, _) => a.plus(b),
            Operation::Sub(_, _) => a.minus(b),
            Operation::Mul(_, _) => a.times(b),
            Operation::Div(_, _) => a.divide(b),
            Operation::Pow(_, _) => a.pow(b),
            Operation::Neg(_) => a.negate(),
        }
    }

    /// Records the operation in `g` as a new tracked node holding its result.
    /// The operands are read, never changed.
    pub fn forward(self, g: &mut Graph<T>) -> (r: Value)
        requires
            old(g).wf(),
            operation_in(self, old(g)@.len() as int),
        ensures
            final(g).wf(),
            final(g)@ == with_node(old(g)@, self),
            r.index() == old(g)@.len(),
    {
        let data = self.evaluate(g);
        g.insert(Node { data, grad: Some(T::zero_grad()), operation: Some(self) })
    }

    /// The gradients that the operation sends to its two operands when `grad`
    /// arrives at its result.
    pub fn backward(&self, g: &Graph<T>, grad: T) -> (r: (T, T))
        requires
            operation_in(*self, g@.len() as int),
        ensures
            r == local_grads(g@, *self, grad),
    {
        let (lhs, rhs) = self.operands();
        let a = lhs.data(g);
        let b = rhs.data(g);
        let eye = T::eye_grad();
        match *self {
            Operation::Add(_, _) => (grad.times(eye), grad.times(eye)),
            Operation::Sub(_, _) => (grad.times(eye), grad.negate().times(eye)),
            Operation::Mul(_, _) => (grad.times(b), grad.times(a)),
            Operation::Div(_, _) => (grad.divide(b), grad.negate().times(a).divide(b.times(b))),
            Operation::Pow(_, _) => (
                grad.times(b.times(a.pow(b.minus(eye)))),
                grad.times(a.pow(b).times(a.log())),
            ),
            Operation::Neg(_) => {
                let d = eye.negate().times(grad);
                (d, d)
            },
        }
    }
}

/// The graph `s` with one more node: the tracked result of `op`, with a zero
/// gradient.
pub open spec fn with_node<T: Differentiable>(s: Seq<Node<T>>, op: Operation<T>) -> Seq<Node<T>> {
    s.push(Node { data: forward_data(s, op), grad: Some(T::spec_zero()), operation: Some(op) })
}

} // verus!
