use micrograd::{Differentiable, Float, Graph, Operand, Operation, Value};

#[derive(Clone, Copy, Debug, PartialEq)]
struct F64(f64);

impl Float for F64 {
    fn pow(self, n: Self) -> Self {
        F64(self.0.powf(n.0))
    }

    fn log(self) -> Self {
        F64(self.0.ln())
    }

    fn spec_pow(self, n: Self) -> Self {
        self.pow(n)
    }

    fn spec_log(self) -> Self {
        self.log()
    }
}

impl Differentiable for F64 {
    fn zero_grad() -> Self {
        F64(0f64)
    }

    fn eye_grad() -> Self {
        F64(1f64)
    }

    fn plus(self, rhs: Self) -> Self {
        F64(self.0 + rhs.0)
    }

    fn minus(self, rhs: Self) -> Self {
        F64(self.0 - rhs.0)
    }

    fn times(self, rhs: Self) -> Self {
        F64(self.0 * rhs.0)
    }

    fn divide(self, rhs: Self) -> Self {
        F64(self.0 / rhs.0)
    }

    fn negate(self) -> Self {
        F64(-self.0)
    }

    fn spec_zero() -> Self {
        Self::zero_grad()
    }

    fn spec_eye() -> Self {
        Self::eye_grad()
    }

    fn spec_plus(self, rhs: Self) -> Self {
        self.plus(rhs)
    }

    fn spec_minus(self, rhs: Self) -> Self {
        self.minus(rhs)
    }

    fn spec_times(self, rhs: Self) -> Self {
        self.times(rhs)
    }

    fn spec_divide(self, rhs: Self) -> Self {
        self.divide(rhs)
    }

    fn spec_negate(self) -> Self {
        self.negate()
    }
}

fn leaf(g: &mut Graph<F64>, x: f64) -> Value {
    Value::new(g, F64(x))
}

fn grad_of(x: Value, g: &Graph<F64>) -> Option<f64> {
    x.grad(g).map(|v| v.0)
}

fn by_ref(v: Value) -> Operand<F64> {
    Operand::Ref(v)
}

#[test]
fn self_sum_counts_both_positions() {
    let mut g = Graph::new();
    let x = leaf(&mut g, 3.0);
    g.add(by_ref(x), by_ref(x)).backward(&mut g);
    assert_eq!(grad_of(x, &g), Some(2.0));

    // the node summed with itself may be an intermediate one
    let a = leaf(&mut g, 1.5);
    let b = leaf(&mut g, 2.0);
    let m = g.mul(by_ref(a), by_ref(b));
    g.add(by_ref(m), by_ref(m)).backward(&mut g);
    assert_eq!(grad_of(m, &g), Some(2.0));
    assert_eq!(grad_of(a, &g), Some(4.0));
    assert_eq!(grad_of(b, &g), Some(3.0));
}

#[test]
fn reused_operand_accumulates_over_paths() {
    let mut g = Graph::new();
    let x = leaf(&mut g, 7.0);
    let y = leaf(&mut g, -2.0);
    let z = g.add(by_ref(x), by_ref(y));
    g.add(by_ref(z), by_ref(x)).backward(&mut g);
    assert_eq!(grad_of(x, &g), Some(2.0));
    assert_eq!(grad_of(y, &g), Some(1.0));
    assert_eq!(grad_of(z, &g), Some(1.0));
}

#[test]
fn difference_is_asymmetric() {
    let mut g = Graph::new();
    let x = leaf(&mut g, 10.0);
    let y = leaf(&mut g, 4.0);
    let d = g.sub(by_ref(x), by_ref(y));
    assert_eq!(d.data(&g), F64(6.0));
    d.backward(&mut g);
    assert_eq!(grad_of(x, &g), Some(1.0));
    assert_eq!(grad_of(y, &g), Some(-1.0));
}

#[test]
fn product_rule_at_thirteen_and_two() {
    let mut g = Graph::new();
    let x = leaf(&mut g, 13.0);
    let y = leaf(&mut g, 2.0);
    let z = g.mul(by_ref(x), by_ref(y));
    let out = g.mul(by_ref(z), by_ref(x));
    assert_eq!(out.data(&g), F64(338.0));
    out.backward(&mut g);
    assert_eq!(grad_of(x, &g), Some(52.0));
    assert_eq!(grad_of(y, &g), Some(169.0));
}

#[test]
fn self_quotient_cancels() {
    for v in [4.0, 3.0, 7.0, -2.5] {
        let mut g = Graph::new();
        let x = leaf(&mut g, v);
        let q = g.div(by_ref(x), by_ref(x));
        assert_eq!(q.data(&g), F64(1.0));
        q.backward(&mut g);
        assert_eq!(grad_of(x, &g), Some(0.0));
    }
}

#[test]
fn power_chain_matches_finite_differences() {
    fn f(x: f64, y: f64, z: f64) -> f64 {
        (x.powf(y) + z).powf(z)
    }
    let (x0, y0, z0) = (2.0, 3.0, 0.1);
    let mut g = Graph::new();
    let x = leaf(&mut g, x0);
    let y = leaf(&mut g, y0);
    let z = leaf(&mut g, z0);
    let a = x.pow(&mut g, y);
    let b = g.add(by_ref(a), by_ref(z));
    let result = b.pow(&mut g, z);
    assert!((result.data(&g).0 - f(x0, y0, z0)).abs() < 1e-12);
    result.backward(&mut g);

    let h = 1e-6;
    let dx = (f(x0 + h, y0, z0) - f(x0 - h, y0, z0)) / (2.0 * h);
    let dy = (f(x0, y0 + h, z0) - f(x0, y0 - h, z0)) / (2.0 * h);
    let dz = (f(x0, y0, z0 + h) - f(x0, y0, z0 - h)) / (2.0 * h);
    assert!((grad_of(x, &g).unwrap() - dx).abs() < 1e-3);
    assert!((grad_of(y, &g).unwrap() - dy).abs() < 1e-3);
    assert!((grad_of(z, &g).unwrap() - dz).abs() < 1e-3);
}

#[test]
fn zeroing_leaves_reproduces_a_pass() {
    let mut g = Graph::new();
    let x = leaf(&mut g, 1.5);
    let y = leaf(&mut g, -3.0);

    let a = g.mul(by_ref(x), by_ref(y));
    let b = g.mul(by_ref(a), by_ref(x));
    let out = g.sub(by_ref(b), by_ref(y));
    out.backward(&mut g);
    let first = (grad_of(x, &g), grad_of(y, &g));
    assert_eq!(first, (Some(-9.0), Some(1.25)));

    // without zeroing, a second pass accumulates
    let a = g.mul(by_ref(x), by_ref(y));
    let b = g.mul(by_ref(a), by_ref(x));
    let out = g.sub(by_ref(b), by_ref(y));
    out.backward(&mut g);
    assert_ne!((grad_of(x, &g), grad_of(y, &g)), first);

    x.zero_grad(&mut g);
    y.zero_grad(&mut g);
    let a = g.mul(by_ref(x), by_ref(y));
    let b = g.mul(by_ref(a), by_ref(x));
    let out = g.sub(by_ref(b), by_ref(y));
    out.backward(&mut g);
    assert_eq!((grad_of(x, &g), grad_of(y, &g)), first);
}

#[test]
fn untracked_node_never_accumulates() {
    let mut g = Graph::new();
    let c = Value::coeff(&mut g, F64(2.0));
    let x = leaf(&mut g, 5.0);
    for _ in 0..3 {
        g.mul(by_ref(c), by_ref(x)).backward(&mut g);
        assert_eq!(grad_of(c, &g), None);
    }
    assert_eq!(grad_of(x, &g), Some(6.0));
    c.zero_grad(&mut g);
    assert_eq!(grad_of(c, &g), None);
}

#[test]
fn tracking_toggle() {
    let mut g = Graph::new();
    let x = leaf(&mut g, 2.0);
    let y = leaf(&mut g, 3.0);
    g.mul(by_ref(x), by_ref(y)).backward(&mut g);
    assert_eq!(grad_of(x, &g), Some(3.0));

    // turning it on again keeps the accumulator
    x.requires_grad(&mut g, true);
    assert_eq!(grad_of(x, &g), Some(3.0));

    x.requires_grad(&mut g, false);
    assert_eq!(grad_of(x, &g), None);
    g.mul(by_ref(x), by_ref(y)).backward(&mut g);
    assert_eq!(grad_of(x, &g), None);
    assert_eq!(grad_of(y, &g), Some(4.0));

    x.requires_grad(&mut g, true);
    assert_eq!(grad_of(x, &g), Some(0.0));
}

#[test]
fn untracked_intermediate_stops_propagation() {
    let mut g = Graph::new();
    let x = leaf(&mut g, 2.0);
    let y = leaf(&mut g, 3.0);
    let u = g.add(by_ref(x), by_ref(y));
    u.requires_grad(&mut g, false);
    let z = leaf(&mut g, 4.0);
    g.mul(by_ref(u), by_ref(z)).backward(&mut g);
    assert_eq!(grad_of(u, &g), None);
    assert_eq!(grad_of(x, &g), Some(0.0));
    assert_eq!(grad_of(y, &g), Some(0.0));
    assert_eq!(grad_of(z, &g), Some(5.0));
}

#[test]
fn snapshot_operand_is_not_traversed() {
    let mut g = Graph::new();
    let x = leaf(&mut g, 4.0);
    let k = leaf(&mut g, 3.0);
    let snap: Operand<F64> = Operand::Value(k.data(&g));
    assert_eq!(snap.value(), None);
    assert_eq!(snap.data(&g), F64(3.0));
    let p = g.mul(snap, by_ref(x));
    assert_eq!(p.data(&g), F64(12.0));
    p.backward(&mut g);
    assert_eq!(grad_of(x, &g), Some(3.0));
    assert_eq!(grad_of(k, &g), Some(0.0));

    let n = g.neg(Operand::Value(F64(1.0)));
    n.backward(&mut g);
    assert_eq!(n.data(&g), F64(-1.0));
    assert_eq!(grad_of(x, &g), Some(3.0));
}

#[test]
fn backward_seeds_the_output() {
    let mut g = Graph::new();
    let x = leaf(&mut g, 9.0);
    x.backward(&mut g);
    assert_eq!(grad_of(x, &g), Some(1.0));

    let y = leaf(&mut g, 2.0);
    let s = g.add(by_ref(x), by_ref(y));
    s.backward(&mut g);
    assert_eq!(grad_of(s, &g), Some(1.0));
    assert_eq!(grad_of(x, &g), Some(2.0));
}

#[test]
fn zero_grad_does_not_cascade() {
    let mut g = Graph::new();
    let x = leaf(&mut g, 2.0);
    let y = leaf(&mut g, 5.0);
    let s = g.mul(by_ref(x), by_ref(y));
    s.backward(&mut g);
    s.zero_grad(&mut g);
    assert_eq!(grad_of(s, &g), Some(0.0));
    assert_eq!(grad_of(x, &g), Some(5.0));
    assert_eq!(grad_of(y, &g), Some(2.0));
}

#[test]
fn forward_values() {
    let mut g = Graph::new();
    let a = leaf(&mut g, 6.0);
    let b = leaf(&mut g, 1.5);
    assert_eq!(g.add(by_ref(a), by_ref(b)).data(&g), F64(7.5));
    assert_eq!(g.sub(by_ref(a), by_ref(b)).data(&g), F64(4.5));
    assert_eq!(g.mul(by_ref(a), by_ref(b)).data(&g), F64(9.0));
    assert_eq!(g.div(by_ref(a), by_ref(b)).data(&g), F64(4.0));
    assert_eq!(g.neg(by_ref(a)).data(&g), F64(-6.0));
    let two = leaf(&mut g, 2.0);
    assert_eq!(a.pow(&mut g, two).data(&g), F64(36.0));
    assert_eq!(g.len(), 9);
    // operands are read, never changed
    assert_eq!(a.data(&g), F64(6.0));
    assert_eq!(grad_of(a, &g), Some(0.0));
}

#[test]
fn local_derivative_rules() {
    let mut g = Graph::new();
    let a = leaf(&mut g, 3.0);
    let b = leaf(&mut g, 2.0);
    let grad = F64(2.0);
    let (ra, rb) = (by_ref(a), by_ref(b));
    assert_eq!(Operation::Add(ra, rb).backward(&g, grad), (F64(2.0), F64(2.0)));
    assert_eq!(Operation::Sub(ra, rb).backward(&g, grad), (F64(2.0), F64(-2.0)));
    assert_eq!(Operation::Mul(ra, rb).backward(&g, grad), (F64(4.0), F64(6.0)));
    assert_eq!(Operation::Div(ra, rb).backward(&g, grad), (F64(1.0), F64(-1.5)));
    assert_eq!(Operation::Neg(ra).backward(&g, grad), (F64(-2.0), F64(-2.0)));
    let (da, db) = Operation::Pow(ra, rb).backward(&g, grad);
    assert_eq!(da, F64(12.0));
    assert!((db.0 - 2.0 * 9.0 * 3f64.ln()).abs() < 1e-12);
    assert_eq!(Operation::Mul(ra, rb).evaluate(&g), F64(6.0));
}

#[test]
fn operands_of_operations() {
    let mut g = Graph::new();
    let a = leaf(&mut g, 1.0);
    let b = leaf(&mut g, 2.0);
    let (l, r) = Operation::Div(by_ref(a), by_ref(b)).operands();
    assert_eq!(l.value().map(|v| v.data(&g)), Some(F64(1.0)));
    assert_eq!(r.value().map(|v| v.data(&g)), Some(F64(2.0)));
    let (l, r) = Operation::Neg(Operand::Value(F64(5.0))).operands();
    assert_eq!(l.data(&g), F64(5.0));
    assert_eq!(r.data(&g), F64(5.0));
    assert!(l.value().is_none());
}

#[test]
fn intermediate_passes_its_accumulated_gradient() {
    let mut g = Graph::new();
    let p = leaf(&mut g, 2.0);
    let q = leaf(&mut g, 5.0);
    let a = g.mul(by_ref(p), by_ref(q));
    a.backward(&mut g);
    assert_eq!(grad_of(a, &g), Some(1.0));
    assert_eq!(grad_of(p, &g), Some(5.0));

    // `a` already holds 1; it receives 2 more and passes on all 3
    g.add(by_ref(a), by_ref(a)).backward(&mut g);
    assert_eq!(grad_of(a, &g), Some(3.0));
    assert_eq!(grad_of(p, &g), Some(20.0));
    assert_eq!(grad_of(q, &g), Some(8.0));
}

#[test]
fn shared_intermediate_is_traversed_once() {
    // c = a * (a + x) with a = x * y
    let mut g = Graph::new();
    let x = leaf(&mut g, 2.0);
    let y = leaf(&mut g, 3.0);
    let a = g.mul(by_ref(x), by_ref(y));
    let b = g.add(by_ref(a), by_ref(x));
    let c = g.mul(by_ref(a), by_ref(b));
    assert_eq!(c.data(&g), F64(48.0));
    c.backward(&mut g);
    assert_eq!(grad_of(a, &g), Some(14.0));
    assert_eq!(grad_of(b, &g), Some(6.0));
    assert_eq!(grad_of(x, &g), Some(48.0));
    assert_eq!(grad_of(y, &g), Some(28.0));
}
