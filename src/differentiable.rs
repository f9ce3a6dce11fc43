use vstd::prelude::*;

verus! {

/// Scalar types that supply the two transcendental primitives of the power rule.
///
/// The spec functions name what the executable methods return, so that the
/// contracts of the graph can speak about the values they compute.
pub trait Float: Copy + Sized {
    /// `self` raised to the power `n`.
    spec fn spec_pow(self, n: Self) -> Self;

    /// The natural logarithm of `self`.
    spec fn spec_log(self) -> Self;

    fn pow(self, n: Self) -> (r: Self)
        ensures
            r == self.spec_pow(n),
    ;

    fn log(self) -> (r: Self)
        ensures
            r == self.spec_log(),
    ;
}

/// Scalar types whose values can flow through the computation graph.
///
/// Besides the arithmetic operator set, a type supplies the additive identity
/// used to reset gradient accumulators and the multiplicative identity used to
/// seed `d(output)/d(output)`.
pub trait Differentiable: Float {
    /// The additive identity.
    spec fn spec_zero() -> Self;

    /// The multiplicative identity.
    spec fn spec_eye() -> Self;

    spec fn spec_plus(self, rhs: Self) -> Self;

    spec fn spec_minus(self, rhs: Self) -> Self;

    spec fn spec_times(self, rhs: Self) -> Self;

    spec fn spec_divide(self, rhs: Self) -> Self;

    spec fn spec_negate(self) -> Self;

    fn zero_grad() -> (r: Self)
        ensures
            r == Self::spec_zero(),
    ;

    fn eye_grad() -> (r: Self)
        ensures
            r == Self::spec_eye(),
    ;

    fn plus(self, rhs: Self) -> (r: Self)
        ensures
            r == self.spec_plus(rhs),
    ;

    fn minus(self, rhs: Self) -> (r: Self)
        ensures
            r == self.spec_minus(rhs),
    ;

    fn times(self, rhs: Self) -> (r: Self)
        ensures
            r == self.spec_times(rhs),
    ;

    fn divide(self, rhs: Self) -> (r: Self)
        ensures
            r == self.spec_divide(rhs),
    ;

    fn negate(self) -> (r: Self)
        ensures
            r == self.spec_negate(),
    ;
}

} // verus!
