use vstd::prelude::*;

use crate::differentiable::Differentiable;
use crate::operations::{
    local_grads, operand_pair, operand_target, operation_in, with_node, Operand, Operation,
};
use crate::value::{
    accumulated, backward_pass, give, graph_wf, incoming, lemma_same_shape_trans,
    lemma_same_shape_wf, lemma_send_shape, lemma_sweep_shape, node_wf, same_shape, seeded, send, start_marks, sweep, Node, Value,
};

verus! {

/// Adding a node whose operands are in range keeps the graph well formed.
proof fn lemma_with_node_wf<T: Differentiable>(s: Seq<Node<T>>, op: Operation<T>)
    requires
        graph_wf(s),
        operation_in(op, s.len() as int),
    ensures
        graph_wf(with_node(s, op)),
{
    let t = with_node(s, op);
    assert forall|i: int| 0 <= i < t.len() implies node_wf(#[trigger] t[i], i) by {
        if i < s.len() {
            assert(node_wf(s[i], i));
        }
    }
}

/// A contribution changes only a gradient value.
proof fn lemma_give_shape<T: Differentiable>(st: (Seq<Node<T>>, Seq<bool>), j: int, d: T)
    requires
        graph_wf(st.0),
        st.1.len() == st.0.len(),
    ensures
        same_shape(st.0, give(st, j, d).0),
        graph_wf(give(st, j, d).0),
        give(st, j, d).1.len() == st.1.len(),
{
    if 0 <= j < st.0.len() && st.0[j].grad is Some {
        assert(same_shape(st.0, accumulated(st.0, j, d)));
    }
    lemma_same_shape_wf(st.0, give(st, j, d).0);
}

/// Turns of inactive nodes change nothing: the sweep from `k` reaches node
/// `m` unchanged when every node between them is inactive.
proof fn lemma_sweep_skip<T: Differentiable>(st: (Seq<Node<T>>, Seq<bool>), k: int, m: int)
    requires
        0 <= m < k,
        forall|i: int| m < i < k ==> !#[trigger] st.1[i],
    ensures
        sweep(st, k) == sweep(st, m + 1),
    decreases k,
{
    if k > m + 1 {
        lemma_sweep_skip(st, k - 1, m);
    }
}

/// When every active node before `k` is a leaf, the remaining turns change
/// nothing.
proof fn lemma_sweep_idle<T: Differentiable>(st: (Seq<Node<T>>, Seq<bool>), k: int)
    requires
        0 <= k <= st.0.len(),
        forall|i: int| 0 <= i < k && #[trigger] st.1[i] ==> st.0[i].operation is None,
    ensures
        sweep(st, k) == st,
    decreases k,
{
    if k > 0 {
        lemma_sweep_idle(st, k - 1);
    }
}

/// Node `i`, and every node after it, is the same at the end of the sweep
/// from `k` when no node between `i` and `k` is active: only later nodes
/// send contributions to a node.
proof fn lemma_sweep_keeps<T: Differentiable>(st: (Seq<Node<T>>, Seq<bool>), k: int, i: int)
    requires
        graph_wf(st.0),
        st.1.len() == st.0.len(),
        0 <= i < k <= st.0.len(),
        forall|m: int| i < m < k ==> !#[trigger] st.1[m],
    ensures
        sweep(st, k).0[i] == st.0[i],
{
    lemma_sweep_skip(st, k, i);
    let next = if st.1[i] {
        send(st, i, incoming(st.0, i))
    } else {
        st
    };
    if st.1[i] {
        lemma_send_shape(st, i, incoming(st.0, i));
    }
    lemma_same_shape_wf(st.0, next.0);
    lemma_sweep_shape(next, i);
}

/// The state after the turn of the newest node, in a backward pass from it.
proof fn lemma_newest_turn<T: Differentiable>(s: Seq<Node<T>>, op: Operation<T>)
    requires
        graph_wf(s),
        operation_in(op, s.len() as int),
    ensures
        ({
            let t = with_node(s, op);
            let n = s.len() as int;
            let st0 = (seeded(t, n), start_marks(t.len(), n));
            &&& backward_pass(t, n) == sweep(send(st0, n, T::spec_eye()), n).0
            &&& graph_wf(st0.0)
            &&& st0.1.len() == st0.0.len()
            &&& st0.0.len() == n + 1
            &&& st0.0[n].operation == Some(op)
            &&& forall|k: int| 0 <= k < n ==> #[trigger] st0.0[k] == s[k]
            &&& forall|k: int| 0 <= k < n ==> !#[trigger] st0.1[k]
        }),
{
    let t = with_node(s, op);
    let n = s.len() as int;
    lemma_with_node_wf(s, op);
    assert(same_shape(t, seeded(t, n)));
    lemma_same_shape_wf(t, seeded(t, n));
}

/// Zero is a left identity of addition and the multiplicative identity is a
/// right identity of multiplication, as for every ordinary number type.
pub open spec fn unit_laws<T: Differentiable>() -> bool {
    &&& forall|a: T| #[trigger] T::spec_zero().spec_plus(a) == a
    &&& forall|a: T| #[trigger] a.spec_times(T::spec_eye()) == a
}

/// Summing a tracked node with itself and running a backward pass from the
/// sum adds both of the addition's contributions to that node, once each: the
/// unit seed times the local derivative of each position.
pub proof fn law_self_sum<T: Differentiable>(s: Seq<Node<T>>, x: Value)
    requires
        graph_wf(s),
        x.index() < s.len(),
        s[x.index() as int].grad is Some,
    ensures
        ({
            let op = Operation::Add(Operand::Ref(x), Operand::Ref(x));
            let e = T::spec_eye().spec_times(T::spec_eye());
            backward_pass(with_node(s, op), s.len() as int)[x.index() as int].grad == Some(
                s[x.index() as int].grad->Some_0.spec_plus(e.spec_plus(e)),
            )
        }),
{
    let op = Operation::<T>::Add(Operand::Ref(x), Operand::Ref(x));
    let n = s.len() as int;
    let xi = x.index() as int;
    lemma_newest_turn(s, op);
    let t = with_node(s, op);
    let st0 = (seeded(t, n), start_marks(t.len(), n));
    let (d1, d2) = local_grads(st0.0, op, T::spec_eye());
    assert(operand_target(operand_pair(op).0) == xi);
    let st1 = give(st0, xi, d1.spec_plus(d2));
    assert(send(st0, n, T::spec_eye()) == st1);
    lemma_give_shape(st0, xi, d1.spec_plus(d2));
    lemma_sweep_keeps(st1, n, xi);
}

/// With the unit laws, a node that starts from zero holds `eye + eye` after a
/// backward pass from its sum with itself.
pub proof fn law_self_sum_is_two<T: Differentiable>(s: Seq<Node<T>>, x: Value)
    requires
        unit_laws::<T>(),
        graph_wf(s),
        x.index() < s.len(),
        s[x.index() as int].grad == Some(T::spec_zero()),
    ensures
        ({
            let op = Operation::Add(Operand::Ref(x), Operand::Ref(x));
            backward_pass(with_node(s, op), s.len() as int)[x.index() as int].grad == Some(
                T::spec_eye().spec_plus(T::spec_eye()),
            )
        }),
{
    law_self_sum(s, x);
    let eye = T::spec_eye();
    assert(eye.spec_times(eye) == eye);
    assert(T::spec_zero().spec_plus(eye.spec_plus(eye)) == eye.spec_plus(eye));
}

/// Summing an intermediate product `m = p * q` of two distinct tracked leaves
/// with itself: `m` receives both contributions of the sum at once, and then
/// passes its accumulated gradient on to `p` and `q` in a single turn.
pub proof fn law_self_sum_of_product<T: Differentiable>(
    s: Seq<Node<T>>,
    p: Value,
    q: Value,
    m: Value,
)
    requires
        graph_wf(s),
        p.index() < s.len(),
        q.index() < s.len(),
        p.index() != q.index(),
        s[p.index() as int].grad is Some,
        s[q.index() as int].grad is Some,
        s[p.index() as int].operation is None,
        s[q.index() as int].operation is None,
        m.index() == s.len(),
    ensures
        ({
            let t1 = with_node(s, Operation::Mul(Operand::Ref(p), Operand::Ref(q)));
            let t2 = with_node(t1, Operation::Add(Operand::Ref(m), Operand::Ref(m)));
            let r = backward_pass(t2, t1.len() as int);
            let e = T::spec_eye().spec_times(T::spec_eye());
            let gm = T::spec_zero().spec_plus(e.spec_plus(e));
            &&& r[m.index() as int].grad == Some(gm)
            &&& r[p.index() as int].grad == Some(
                s[p.index() as int].grad->Some_0.spec_plus(gm.spec_times(s[q.index() as int].data)),
            )
            &&& r[q.index() as int].grad == Some(
                s[q.index() as int].grad->Some_0.spec_plus(gm.spec_times(s[p.index() as int].data)),
            )
        }),
{
    let eye = T::spec_eye();
    let e = eye.spec_times(eye);
    let (pi, qi) = (p.index() as int, q.index() as int);
    let n = s.len() as int;
    let inner = Operation::<T>::Mul(Operand::Ref(p), Operand::Ref(q));
    let outer = Operation::<T>::Add(Operand::Ref(m), Operand::Ref(m));
    lemma_with_node_wf(s, inner);
    let t1 = with_node(s, inner);
    lemma_newest_turn(t1, outer);
    let t2 = with_node(t1, outer);
    let st0 = (seeded(t2, n + 1), start_marks(t2.len(), n + 1));
    assert(local_grads(st0.0, outer, eye) == (e, e));
    assert(operand_target(operand_pair(outer).0) == n);
    let st1 = give(st0, n, e.spec_plus(e));
    assert(send(st0, n + 1, eye) == st1);
    lemma_give_shape(st0, n, e.spec_plus(e));
    let gm = T::spec_zero().spec_plus(e.spec_plus(e));
    assert(st1.0[n].grad == Some(gm));
    // the product's turn, with its accumulated gradient
    assert(incoming(st1.0, n) == gm);
    assert(local_grads(st1.0, inner, gm) == (
        gm.spec_times(s[qi].data),
        gm.spec_times(s[pi].data),
    ));
    assert(operand_target(operand_pair(inner).0) == pi);
    assert(operand_target(operand_pair(inner).1) == qi);
    let st2 = give(st1, pi, gm.spec_times(s[qi].data));
    let st3 = give(st2, qi, gm.spec_times(s[pi].data));
    assert(send(st1, n, gm) == st3);
    assert(sweep(st1, n + 1) == sweep(st3, n));
    lemma_sweep_idle(st3, n);
}

/// With the unit laws, and leaves starting from zero: summing `m = p * q` with
/// itself gives `m` the gradient `eye + eye`, and `p` and `q` that gradient
/// times the other's value, the product traversed once.
pub proof fn law_self_sum_of_product_is_two<T: Differentiable>(
    s: Seq<Node<T>>,
    p: Value,
    q: Value,
    m: Value,
)
    requires
        unit_laws::<T>(),
        graph_wf(s),
        p.index() < s.len(),
        q.index() < s.len(),
        p.index() != q.index(),
        s[p.index() as int].grad == Some(T::spec_zero()),
        s[q.index() as int].grad == Some(T::spec_zero()),
        s[p.index() as int].operation is None,
        s[q.index() as int].operation is None,
        m.index() == s.len(),
    ensures
        ({
            let t1 = with_node(s, Operation::Mul(Operand::Ref(p), Operand::Ref(q)));
            let t2 = with_node(t1, Operation::Add(Operand::Ref(m), Operand::Ref(m)));
            let r = backward_pass(t2, t1.len() as int);
            let two = T::spec_eye().spec_plus(T::spec_eye());
            &&& r[m.index() as int].grad == Some(two)
            &&& r[p.index() as int].grad == Some(two.spec_times(s[q.index() as int].data))
            &&& r[q.index() as int].grad == Some(two.spec_times(s[p.index() as int].data))
        }),
{
    law_self_sum_of_product(s, p, q, m);
    let eye = T::spec_eye();
    let two = eye.spec_plus(eye);
    assert(eye.spec_times(eye) == eye);
    assert(T::spec_zero().spec_plus(two) == two);
    assert(T::spec_zero().spec_plus(two.spec_times(s[q.index() as int].data)) == two.spec_times(
        s[q.index() as int].data,
    ));
    assert(T::spec_zero().spec_plus(two.spec_times(s[p.index() as int].data)) == two.spec_times(
        s[p.index() as int].data,
    ));
}

/// Reusing an operand: with two distinct tracked leaves `x` and `y`, building
/// `z = x + y` and then running a backward pass from `z + x` gives `x` the
/// contribution it receives directly plus the one that `z` passes on, and
/// gives `y` only the one that `z` passes on.
pub proof fn law_reused_operand<T: Differentiable>(s: Seq<Node<T>>, x: Value, y: Value, z: Value)
    requires
        graph_wf(s),
        x.index() < s.len(),
        y.index() < s.len(),
        x.index() != y.index(),
        s[x.index() as int].grad is Some,
        s[y.index() as int].grad is Some,
        s[x.index() as int].operation is None,
        s[y.index() as int].operation is None,
        z.index() == s.len(),
    ensures
        ({
            let t1 = with_node(s, Operation::Add(Operand::Ref(x), Operand::Ref(y)));
            let t2 = with_node(t1, Operation::Add(Operand::Ref(z), Operand::Ref(x)));
            let r = backward_pass(t2, t1.len() as int);
            let eye = T::spec_eye();
            let e = eye.spec_times(eye);
            let gz = T::spec_zero().spec_plus(e);
            &&& r[z.index() as int].grad == Some(gz)
            &&& r[x.index() as int].grad == Some(
                s[x.index() as int].grad->Some_0.spec_plus(e).spec_plus(gz.spec_times(eye)),
            )
            &&& r[y.index() as int].grad == Some(
                s[y.index() as int].grad->Some_0.spec_plus(gz.spec_times(eye)),
            )
        }),
{
    let eye = T::spec_eye();
    let e = eye.spec_times(eye);
    let (xi, yi) = (x.index() as int, y.index() as int);
    let n = s.len() as int;
    let inner = Operation::<T>::Add(Operand::Ref(x), Operand::Ref(y));
    let outer = Operation::<T>::Add(Operand::Ref(z), Operand::Ref(x));
    lemma_with_node_wf(s, inner);
    let t1 = with_node(s, inner);
    lemma_newest_turn(t1, outer);
    let t2 = with_node(t1, outer);
    let st0 = (seeded(t2, n + 1), start_marks(t2.len(), n + 1));
    assert(local_grads(st0.0, outer, eye) == (e, e));
    assert(operand_target(operand_pair(outer).0) == n);
    assert(operand_target(operand_pair(outer).1) == xi);
    let st1 = give(st0, n, e);
    let st2 = give(st1, xi, e);
    assert(send(st0, n + 1, eye) == st2);
    lemma_give_shape(st0, n, e);
    lemma_give_shape(st1, xi, e);
    let gz = T::spec_zero().spec_plus(e);
    assert(st2.0[n].grad == Some(gz));
    // the sum's turn, with its accumulated gradient
    assert(incoming(st2.0, n) == gz);
    assert(local_grads(st2.0, inner, gz) == (gz.spec_times(eye), gz.spec_times(eye)));
    assert(operand_target(operand_pair(inner).0) == xi);
    assert(operand_target(operand_pair(inner).1) == yi);
    let st3 = give(st2, xi, gz.spec_times(eye));
    let st4 = give(st3, yi, gz.spec_times(eye));
    assert(send(st2, n, gz) == st4);
    assert(sweep(st2, n + 1) == sweep(st4, n));
    lemma_sweep_idle(st4, n);
}

/// With the unit laws, and leaves starting from zero: after `z = x + y` and a
/// backward pass from `z + x`, `x` holds `eye + eye`, and `y` and `z` hold
/// `eye`.
pub proof fn law_reused_operand_is_two<T: Differentiable>(
    s: Seq<Node<T>>,
    x: Value,
    y: Value,
    z: Value,
)
    requires
        unit_laws::<T>(),
        graph_wf(s),
        x.index() < s.len(),
        y.index() < s.len(),
        x.index() != y.index(),
        s[x.index() as int].grad == Some(T::spec_zero()),
        s[y.index() as int].grad == Some(T::spec_zero()),
        s[x.index() as int].operation is None,
        s[y.index() as int].operation is None,
        z.index() == s.len(),
    ensures
        ({
            let t1 = with_node(s, Operation::Add(Operand::Ref(x), Operand::Ref(y)));
            let t2 = with_node(t1, Operation::Add(Operand::Ref(z), Operand::Ref(x)));
            let r = backward_pass(t2, t1.len() as int);
            let eye = T::spec_eye();
            &&& r[z.index() as int].grad == Some(eye)
            &&& r[x.index() as int].grad == Some(eye.spec_plus(eye))
            &&& r[y.index() as int].grad == Some(eye)
        }),
{
    law_reused_operand(s, x, y, z);
    let eye = T::spec_eye();
    assert(eye.spec_times(eye) == eye);
    assert(T::spec_zero().spec_plus(eye) == eye);
}

/// A difference of two distinct tracked leaves sends the unit seed times the
/// local derivative `eye` to the first and times `-eye` to the second.
pub proof fn law_difference<T: Differentiable>(s: Seq<Node<T>>, x: Value, y: Value)
    requires
        graph_wf(s),
        x.index() < s.len(),
        y.index() < s.len(),
        x.index() != y.index(),
        s[x.index() as int].grad is Some,
        s[y.index() as int].grad is Some,
        s[x.index() as int].operation is None,
        s[y.index() as int].operation is None,
    ensures
        ({
            let op = Operation::Sub(Operand::Ref(x), Operand::Ref(y));
            let r = backward_pass(with_node(s, op), s.len() as int);
            let eye = T::spec_eye();
            &&& r[x.index() as int].grad == Some(
                s[x.index() as int].grad->Some_0.spec_plus(eye.spec_times(eye)),
            )
            &&& r[y.index() as int].grad == Some(
                s[y.index() as int].grad->Some_0.spec_plus(eye.spec_negate().spec_times(eye)),
            )
        }),
{
    let eye = T::spec_eye();
    let (xi, yi) = (x.index() as int, y.index() as int);
    let op = Operation::<T>::Sub(Operand::Ref(x), Operand::Ref(y));
    let n = s.len() as int;
    lemma_newest_turn(s, op);
    let t = with_node(s, op);
    let st0 = (seeded(t, n), start_marks(t.len(), n));
    let (d1, d2) = local_grads(st0.0, op, eye);
    assert(operand_target(operand_pair(op).0) == xi);
    assert(operand_target(operand_pair(op).1) == yi);
    let st1 = give(st0, xi, d1);
    let st2 = give(st1, yi, d2);
    assert(send(st0, n, eye) == st2);
    lemma_sweep_idle(st2, n);
}

/// With the unit laws, and leaves starting from zero, a backward pass from
/// `x - y` leaves `eye` on `x` and `-eye` on `y`.
pub proof fn law_difference_is_signed_unit<T: Differentiable>(s: Seq<Node<T>>, x: Value, y: Value)
    requires
        unit_laws::<T>(),
        graph_wf(s),
        x.index() < s.len(),
        y.index() < s.len(),
        x.index() != y.index(),
        s[x.index() as int].grad == Some(T::spec_zero()),
        s[y.index() as int].grad == Some(T::spec_zero()),
        s[x.index() as int].operation is None,
        s[y.index() as int].operation is None,
    ensures
        ({
            let op = Operation::Sub(Operand::Ref(x), Operand::Ref(y));
            let r = backward_pass(with_node(s, op), s.len() as int);
            &&& r[x.index() as int].grad == Some(T::spec_eye())
            &&& r[y.index() as int].grad == Some(T::spec_eye().spec_negate())
        }),
{
    law_difference(s, x, y);
    let eye = T::spec_eye();
    assert(eye.spec_times(eye) == eye);
    assert(eye.spec_negate().spec_times(eye) == eye.spec_negate());
    assert(T::spec_zero().spec_plus(eye) == eye);
    assert(T::spec_zero().spec_plus(eye.spec_negate()) == eye.spec_negate());
}

/// Dividing a tracked node by itself and running a backward pass from the
/// quotient adds to that node the sum of both quotient-rule contributions,
/// `eye / a` and `-eye * a / (a * a)` for its value `a`, in one step.
pub proof fn law_self_quotient<T: Differentiable>(s: Seq<Node<T>>, x: Value)
    requires
        graph_wf(s),
        x.index() < s.len(),
        s[x.index() as int].grad is Some,
    ensures
        ({
            let op = Operation::Div(Operand::Ref(x), Operand::Ref(x));
            let eye = T::spec_eye();
            let a = s[x.index() as int].data;
            backward_pass(with_node(s, op), s.len() as int)[x.index() as int].grad == Some(
                s[x.index() as int].grad->Some_0.spec_plus(
                    eye.spec_divide(a).spec_plus(
                        eye.spec_negate().spec_times(a).spec_divide(a.spec_times(a)),
                    ),
                ),
            )
        }),
{
    let op = Operation::<T>::Div(Operand::Ref(x), Operand::Ref(x));
    let n = s.len() as int;
    let xi = x.index() as int;
    lemma_newest_turn(s, op);
    let t = with_node(s, op);
    let st0 = (seeded(t, n), start_marks(t.len(), n));
    let (d1, d2) = local_grads(st0.0, op, T::spec_eye());
    assert(operand_target(operand_pair(op).0) == xi);
    let st1 = give(st0, xi, d1.spec_plus(d2));
    assert(send(st0, n, T::spec_eye()) == st1);
    lemma_give_shape(st0, xi, d1.spec_plus(d2));
    lemma_sweep_keeps(st1, n, xi);
}

/// With the unit laws, for a node starting from zero whose value `a` makes
/// the two quotient-rule contributions cancel (`eye / a - a / (a * a)` is
/// zero, as in exact arithmetic for every nonzero `a`), a backward pass from
/// `x / x` leaves zero on `x`.
pub proof fn law_self_quotient_is_zero<T: Differentiable>(s: Seq<Node<T>>, x: Value)
    requires
        unit_laws::<T>(),
        graph_wf(s),
        x.index() < s.len(),
        s[x.index() as int].grad == Some(T::spec_zero()),
        ({
            let eye = T::spec_eye();
            let a = s[x.index() as int].data;
            eye.spec_divide(a).spec_plus(
                eye.spec_negate().spec_times(a).spec_divide(a.spec_times(a)),
            ) == T::spec_zero()
        }),
    ensures
        ({
            let op = Operation::Div(Operand::Ref(x), Operand::Ref(x));
            backward_pass(with_node(s, op), s.len() as int)[x.index() as int].grad == Some(
                T::spec_zero(),
            )
        }),
{
    law_self_quotient(s, x);
    assert(T::spec_zero().spec_plus(T::spec_zero()) == T::spec_zero());
}

/// Two states that differ only in gradient values, with the same activity
/// marks, and agree on the accumulator of node `k`, still agree on it after
/// node `i` passes the same gradient on.
proof fn lemma_send_agree<T: Differentiable>(
    st1: (Seq<Node<T>>, Seq<bool>),
    st2: (Seq<Node<T>>, Seq<bool>),
    i: int,
    g: T,
    k: int,
)
    requires
        graph_wf(st1.0),
        same_shape(st1.0, st2.0),
        st1.1 == st2.1,
        st1.1.len() == st1.0.len(),
        0 <= i < st1.0.len(),
        0 <= k < st1.0.len(),
        st1.0[k].grad == st2.0[k].grad,
    ensures
        same_shape(send(st1, i, g).0, send(st2, i, g).0),
        send(st1, i, g).1 == send(st2, i, g).1,
        send(st1, i, g).0[k].grad == send(st2, i, g).0[k].grad,
{
    assert(node_wf(st1.0[i], i));
    assert(st1.0[i].operation == st2.0[i].operation);
    match st1.0[i].operation {
        None => {},
        Some(op) => {
            let (a, b) = operand_pair(op);
            assert(operand_target(a) >= 0 ==> st1.0[operand_target(a)].data
                == st2.0[operand_target(a)].data);
            assert(operand_target(b) >= 0 ==> st1.0[operand_target(b)].data
                == st2.0[operand_target(b)].data);
            assert(local_grads(st1.0, op, g) == local_grads(st2.0, op, g));
            let (d1, d2) = local_grads(st1.0, op, g);
            let ta = operand_target(a);
            let tb = operand_target(b);
            if !(op is Neg) && !(ta >= 0 && ta == tb) {
                let u1 = give(st1, ta, d1);
                let u2 = give(st2, ta, d1);
                assert(same_shape(u1.0, u2.0));
                assert(u1.0[k].grad == u2.0[k].grad);
            }
        },
    }
}

/// Two states that differ only in gradient values, with the same activity
/// marks, agreeing on the accumulator of every intermediate node and of node
/// `j`, still agree on node `j` after the turns from `k - 1` down.
proof fn lemma_sweep_agree<T: Differentiable>(
    st1: (Seq<Node<T>>, Seq<bool>),
    st2: (Seq<Node<T>>, Seq<bool>),
    k: int,
    j: int,
)
    requires
        graph_wf(st1.0),
        same_shape(st1.0, st2.0),
        st1.1 == st2.1,
        st1.1.len() == st1.0.len(),
        k <= st1.0.len(),
        forall|m: int|
            0 <= m < st1.0.len() && (#[trigger] st1.0[m]).operation is Some ==> st1.0[m].grad
                == st2.0[m].grad,
        0 <= j < st1.0.len(),
        st1.0[j].grad == st2.0[j].grad,
    ensures
        sweep(st1, k).0[j].grad == sweep(st2, k).0[j].grad,
    decreases k,
{
    if k > 0 {
        let i = k - 1;
        if st1.1[i] && st1.0[i].operation is Some {
            let g = incoming(st1.0, i);
            assert(incoming(st2.0, i) == g);
            let n1 = send(st1, i, g);
            let n2 = send(st2, i, g);
            lemma_send_agree(st1, st2, i, g, j);
            assert forall|m: int|
                0 <= m < n1.0.len() && (#[trigger] n1.0[m]).operation is Some implies n1.0[m].grad
                == n2.0[m].grad by {
                lemma_send_shape(st1, i, g);
                assert(st1.0[m].operation is Some);
                lemma_send_agree(st1, st2, i, g, m);
            }
            lemma_send_shape(st1, i, g);
            lemma_same_shape_wf(st1.0, n1.0);
            lemma_sweep_agree(n1, n2, i, j);
        } else {
            assert(sweep(st1, k) == sweep(st1, i));
            assert(sweep(st2, k) == sweep(st2, i));
            lemma_sweep_agree(st1, st2, i, j);
        }
    }
}

/// Zeroing every reused node before a repeated pass: two graphs with the
/// same values, operations and tracked nodes, whose intermediate nodes hold
/// the same accumulators (for instance all reset to zero, in a fresh graph
/// and in the same graph after earlier passes), end a backward pass from the
/// same node with the same accumulator on every node that held the same one
/// before, in particular on every leaf zeroed in both.
pub proof fn law_zeroed_nodes_repeat<T: Differentiable>(s1: Seq<Node<T>>, s2: Seq<Node<T>>, y: int)
    requires
        graph_wf(s1),
        same_shape(s1, s2),
        0 <= y < s1.len(),
        forall|m: int|
            0 <= m < s1.len() && (#[trigger] s1[m]).operation is Some ==> s1[m].grad == s2[m].grad,
    ensures
        forall|k: int|
            0 <= k < s1.len() && s1[k].grad == s2[k].grad ==> #[trigger] backward_pass(s1, y)[k].grad
                == backward_pass(s2, y)[k].grad,
{
    let st1 = (seeded(s1, y), start_marks(s1.len(), y));
    let st2 = (seeded(s2, y), start_marks(s2.len(), y));
    assert(same_shape(s1, st1.0));
    assert(same_shape(st1.0, st2.0));
    lemma_same_shape_wf(s1, st1.0);
    assert forall|m: int|
        0 <= m < st1.0.len() && (#[trigger] st1.0[m]).operation is Some implies st1.0[m].grad
        == st2.0[m].grad by {
        assert(s1[m].operation is Some);
    }
    assert forall|k: int|
        0 <= k < s1.len() && s1[k].grad == s2[k].grad implies #[trigger] backward_pass(s1, y)[k].grad
        == backward_pass(s2, y)[k].grad by {
        assert(st1.0[k].grad == st2.0[k].grad);
        lemma_sweep_agree(st1, st2, y + 1, k);
    }
}

/// A node that does not track gradients still does not after a backward
/// pass; the pass changes no value, no operation and no node after its start.
pub proof fn law_backward_changes_only_gradients<T: Differentiable>(s: Seq<Node<T>>, y: int)
    requires
        graph_wf(s),
        0 <= y < s.len(),
    ensures
        same_shape(s, backward_pass(s, y)),
        forall|k: int|
            0 <= k < s.len() && s[k].grad is None ==> #[trigger] backward_pass(s, y)[k].grad is None,
        forall|k: int| y < k < s.len() ==> #[trigger] backward_pass(s, y)[k] == s[k],
{
    let st0 = (seeded(s, y), start_marks(s.len(), y));
    assert(same_shape(s, st0.0));
    lemma_same_shape_wf(s, st0.0);
    lemma_sweep_shape(st0, y + 1);
    lemma_same_shape_trans(s, st0.0, backward_pass(s, y));
}

/// The activity marks at the end of a backward pass from node `y`: the nodes
/// that took an active turn, passing their gradient on.
pub open spec fn backward_marks<T: Differentiable>(s: Seq<Node<T>>, y: int) -> Seq<bool> {
    sweep((seeded(s, y), start_marks(s.len(), y)), y + 1).1
}

/// What node `c` sends to node `j` when it passes the gradient `g` on: its
/// local partial derivative with respect to `j` times `g`, summed over both
/// positions when both borrow `j`; `None` when `c`'s operation does not
/// borrow `j`.
pub open spec fn sent<T: Differentiable>(s: Seq<Node<T>>, c: int, j: int, g: T) -> Option<T> {
    match s[c].operation {
        None => None,
        Some(op) => {
            let (d1, d2) = local_grads(s, op, g);
            let ta = operand_target(operand_pair(op).0);
            let tb = operand_target(operand_pair(op).1);
            if op is Neg {
                if ta == j {
                    Some(d1)
                } else {
                    None
                }
            } else if ta == j && tb == j {
                Some(d1.spec_plus(d2))
            } else if ta == j {
                Some(d1)
            } else if tb == j {
                Some(d2)
            } else {
                None
            }
        },
    }
}

/// The accumulator of node `j`, starting from its value in `start`, once the
/// active nodes `c` from `y` down have each added what they send to `j` when
/// passing on their gradient in `r`.
pub open spec fn received<T: Differentiable>(
    start: Seq<Node<T>>,
    r: Seq<Node<T>>,
    m: Seq<bool>,
    y: int,
    j: int,
    c: int,
) -> Option<T>
    decreases y + 1 - c,
{
    if c > y {
        start[j].grad
    } else {
        let prev = received(start, r, m, y, j, c + 1);
        let d = if m[c] {
            sent(start, c, j, incoming(r, c))
        } else {
            None
        };
        match (prev, d) {
            (Some(a), Some(v)) => Some(a.spec_plus(v)),
            _ => prev,
        }
    }
}

/// The effect of one turn on one node.
proof fn lemma_send_effect<T: Differentiable>(
    st: (Seq<Node<T>>, Seq<bool>),
    i: int,
    g: T,
    j: int,
)
    requires
        graph_wf(st.0),
        st.1.len() == st.0.len(),
        0 <= i < st.0.len(),
        0 <= j < st.0.len(),
    ensures
        send(st, i, g).0[j].grad == match (st.0[j].grad, sent(st.0, i, j, g)) {
            (Some(a), Some(v)) => Some(a.spec_plus(v)),
            _ => st.0[j].grad,
        },
{
    assert(node_wf(st.0[i], i));
    match st.0[i].operation {
        None => {},
        Some(op) => {
            let (d1, d2) = local_grads(st.0, op, g);
            let ta = operand_target(operand_pair(op).0);
            let tb = operand_target(operand_pair(op).1);
            if !(op is Neg) && !(ta >= 0 && ta == tb) {
                lemma_give_shape(st, ta, d1);
            }
        },
    }
}

/// What a node sends depends on values and operations alone.
proof fn lemma_sent_same_shape<T: Differentiable>(
    a: Seq<Node<T>>,
    b: Seq<Node<T>>,
    c: int,
    j: int,
    g: T,
)
    requires
        graph_wf(a),
        same_shape(a, b),
        0 <= c < a.len(),
    ensures
        sent(a, c, j, g) == sent(b, c, j, g),
{
    assert(node_wf(a[c], c));
    assert(a[c].operation == b[c].operation);
    match a[c].operation {
        None => {},
        Some(op) => {
            let (x, z) = operand_pair(op);
            assert(operand_target(x) >= 0 ==> a[operand_target(x)].data == b[operand_target(
                x,
            )].data);
            assert(operand_target(z) >= 0 ==> a[operand_target(z)].data == b[operand_target(
                z,
            )].data);
            assert(local_grads(a, op, g) == local_grads(b, op, g));
        },
    }
}

/// Once the turns from `y` down to `k` are accounted for in every
/// accumulator, the remaining turns account for the rest.
proof fn lemma_chain<T: Differentiable>(
    st: (Seq<Node<T>>, Seq<bool>),
    k: int,
    start: Seq<Node<T>>,
    r: Seq<Node<T>>,
    m: Seq<bool>,
    y: int,
)
    requires
        graph_wf(start),
        same_shape(start, st.0),
        st.1.len() == st.0.len(),
        0 <= k <= y + 1,
        y < st.0.len(),
        sweep(st, k) == (r, m),
        forall|j: int|
            0 <= j < st.0.len() ==> #[trigger] st.0[j].grad == received(start, r, m, y, j, k),
    ensures
        forall|j: int| 0 <= j < st.0.len() ==> #[trigger] r[j].grad == received(start, r, m, y, j, 0),
    decreases k,
{
    lemma_same_shape_wf(start, st.0);
    if k == 0 {
        assert(sweep(st, 0) == st);
    } else {
        let i = k - 1;
        let g = incoming(st.0, i);
        let next = if st.1[i] {
            send(st, i, g)
        } else {
            st
        };
        assert(sweep(st, k) == sweep(next, i));
        if st.1[i] {
            lemma_send_shape(st, i, g);
        }
        lemma_same_shape_wf(st.0, next.0);
        lemma_sweep_shape(next, i);
        assert(m[i] == st.1[i]);
        assert(r[i] == st.0[i]);
        assert(incoming(r, i) == g);
        assert forall|j: int| 0 <= j < next.0.len() implies #[trigger] next.0[j].grad == received(
            start,
            r,
            m,
            y,
            j,
            i,
        ) by {
            assert(st.0[j].grad == received(start, r, m, y, j, k));
            if st.1[i] {
                lemma_send_effect(st, i, g, j);
                lemma_sent_same_shape(start, st.0, i, j, g);
            }
        }
        lemma_same_shape_trans(start, st.0, next.0);
        lemma_chain(next, i, start, r, m, y);
    }
}

/// The chain rule, in its local form: after a backward pass from `y`, the
/// accumulator of every node is its value at the start of the pass (with `y`
/// seeded) plus, for each node that took an active turn and borrows it, that
/// node's local partial derivative with respect to it times that node's own
/// accumulated gradient at the end of the pass. On a fresh graph, where every
/// intermediate node starts from zero, a node's accumulated gradient is thus
/// the sum over its consumers of their gradient times their local derivative.
pub proof fn law_chain_rule<T: Differentiable>(s: Seq<Node<T>>, y: int)
    requires
        graph_wf(s),
        0 <= y < s.len(),
    ensures
        forall|j: int|
            0 <= j < s.len() ==> #[trigger] backward_pass(s, y)[j].grad == received(
                seeded(s, y),
                backward_pass(s, y),
                backward_marks(s, y),
                y,
                j,
                0,
            ),
{
    let st0 = (seeded(s, y), start_marks(s.len(), y));
    assert(same_shape(s, st0.0));
    lemma_same_shape_wf(s, st0.0);
    assert(same_shape(st0.0, st0.0));
    let fin = sweep(st0, y + 1);
    lemma_chain(st0, y + 1, st0.0, fin.0, fin.1, y);
}

} // verus!
