//! The real numbers a transform computes with.
use vstd::prelude::*;

verus! {

/// A real number type with the operations a transform needs.
///
/// Each operation comes with a function of the same name ending in `_spec`
/// that says which value it returns. Nothing more is asked of these functions
/// here, so rounding arithmetic qualifies: for such a type the `_spec`
/// function is the computation itself. What exact arithmetic adds is stated
/// by [`crate::algebra::Ring`] and [`crate::algebra::Exact`].
///
/// The sine table is one quarter of a wave, sampled at 16384 points per turn:
/// entry `i` stands for `sin(2*pi*i/16384)`.
pub trait Scalar: Copy + Sized {
    spec fn zero_spec() -> Self;

    spec fn add_spec(self, rhs: Self) -> Self;

    spec fn sub_spec(self, rhs: Self) -> Self;

    spec fn mul_spec(self, rhs: Self) -> Self;

    spec fn neg_spec(self) -> Self;

    spec fn half_spec(self) -> Self;

    spec fn sine_spec(i: usize) -> Self;

    /// The number zero.
    fn zero() -> (r: Self)
        ensures
            r == Self::zero_spec(),
    ;

    /// `self + rhs`.
    fn add(self, rhs: Self) -> (r: Self)
        ensures
            r == self.add_spec(rhs),
    ;

    /// `self - rhs`.
    fn sub(self, rhs: Self) -> (r: Self)
        ensures
            r == self.sub_spec(rhs),
    ;

    /// `self * rhs`.
    fn mul(self, rhs: Self) -> (r: Self)
        ensures
            r == self.mul_spec(rhs),
    ;

    /// `-self`.
    fn neg(self) -> (r: Self)
        ensures
            r == self.neg_spec(),
    ;

    /// `self / 2`.
    fn half(self) -> (r: Self)
        ensures
            r == self.half_spec(),
    ;

    /// Entry `i` of the quarter-wave sine table, `0 <= i <= 4096`.
    fn sine(i: usize) -> (r: Self)
        requires
            i <= 4096,
        ensures
            r == Self::sine_spec(i),
    ;
}

} // verus!
