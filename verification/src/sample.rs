//! The complex sample type.
use crate::scalar::Scalar;
use vstd::prelude::*;

verus! {

/// A complex number `re + im*i`.
#[derive(Clone, Copy, Debug, PartialEq)]
pub struct Complex<T> {
    pub re: T,
    pub im: T,
}

impl<T: Scalar> Complex<T> {
    /// The complex number zero.
    pub open spec fn zero_spec() -> Self {
        Complex { re: T::zero_spec(), im: T::zero_spec() }
    }

    /// Componentwise sum.
    pub open spec fn add_spec(self, rhs: Self) -> Self {
        Complex { re: self.re.add_spec(rhs.re), im: self.im.add_spec(rhs.im) }
    }

    /// Componentwise difference.
    pub open spec fn sub_spec(self, rhs: Self) -> Self {
        Complex { re: self.re.sub_spec(rhs.re), im: self.im.sub_spec(rhs.im) }
    }

    /// The complex product `(a + bi)(c + di) = (ac - bd) + (ad + bc)i`.
    pub open spec fn mul_spec(self, rhs: Self) -> Self {
        Complex {
            re: self.re.mul_spec(rhs.re).sub_spec(self.im.mul_spec(rhs.im)),
            im: self.re.mul_spec(rhs.im).add_spec(self.im.mul_spec(rhs.re)),
        }
    }

    /// Componentwise negation.
    pub open spec fn neg_spec(self) -> Self {
        Complex { re: self.re.neg_spec(), im: self.im.neg_spec() }
    }

    /// The complex conjugate `re - im*i`.
    pub open spec fn conj_spec(self) -> Self {
        Complex { re: self.re, im: self.im.neg_spec() }
    }

    /// Componentwise halving.
    pub open spec fn half_spec(self) -> Self {
        Complex { re: self.re.half_spec(), im: self.im.half_spec() }
    }

    /// The product with `-i`: `(a + bi)(-i) = b - ai`.
    pub open spec fn mul_neg_i_spec(self) -> Self {
        Complex { re: self.im, im: self.re.neg_spec() }
    }

    /// The squared magnitude `re*re + im*im`.
    pub open spec fn norm_sqr_spec(self) -> T {
        self.re.mul_spec(self.re).add_spec(self.im.mul_spec(self.im))
    }

    pub fn new(re: T, im: T) -> (r: Self)
        ensures
            r == (Complex { re, im }),
    {
        Complex { re, im }
    }

    pub fn zero() -> (r: Self)
        ensures
            r == Self::zero_spec(),
    {
        Complex { re: T::zero(), im: T::zero() }
    }

    pub fn add(self, rhs: Self) -> (r: Self)
        ensures
            r == self.add_spec(rhs),
    {
        Complex { re: self.re.add(rhs.re), im: self.im.add(rhs.im) }
    }

    pub fn sub(self, rhs: Self) -> (r: Self)
        ensures
            r == self.sub_spec(rhs),
    {
        Complex { re: self.re.sub(rhs.re), im: self.im.sub(rhs.im) }
    }

    pub fn mul(self, rhs: Self) -> (r: Self)
        ensures
            r == self.mul_spec(rhs),
    {
        Complex {
            re: self.re.mul(rhs.re).sub(self.im.mul(rhs.im)),
            im: self.re.mul(rhs.im).add(self.im.mul(rhs.re)),
        }
    }

    pub fn neg(self) -> (r: Self)
        ensures
            r == self.neg_spec(),
    {
        Complex { re: self.re.neg(), im: self.im.neg() }
    }

    pub fn conj(self) -> (r: Self)
        ensures
            r == self.conj_spec(),
    {
        Complex { re: self.re, im: self.im.neg() }
    }

    pub fn half(self) -> (r: Self)
        ensures
            r == self.half_spec(),
    {
        Complex { re: self.re.half(), im: self.im.half() }
    }

    pub fn mul_neg_i(self) -> (r: Self)
        ensures
            r == self.mul_neg_i_spec(),
    {
        Complex { re: self.im, im: self.re.neg() }
    }

    pub fn norm_sqr(self) -> (r: T)
        ensures
            r == self.norm_sqr_spec(),
    {
        self.re.mul(self.re).add(self.im.mul(self.im))
    }
}

impl<T: Scalar> Default for Complex<T> {
    fn default() -> (r: Self)
        ensures
            r == Self::zero_spec(),
    {
        Complex { re: T::zero(), im: T::zero() }
    }
}

} // verus!
