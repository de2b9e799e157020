//! Scalars with exact arithmetic, and what follows for complex numbers over
//! them.
use crate::sample::Complex;
use crate::scalar::Scalar;
use crate::twiddle::unit_spec;
use vstd::prelude::*;

verus! {

/// A scalar whose arithmetic is exact: a commutative ring in which every
/// element can be halved.
///
/// The elements of the ring are the values of the type that `member` admits.
/// Every operation returns an element, whatever it is given.
pub trait Ring: Scalar {
    /// The value is an element of the ring.
    spec fn member(self) -> bool;

    /// Zero and the results of all operations are elements.
    proof fn lemma_closed(a: Self, b: Self)
        ensures
            Self::zero_spec().member(),
            a.add_spec(b).member(),
            a.sub_spec(b).member(),
            a.mul_spec(b).member(),
            a.neg_spec().member(),
            a.half_spec().member(),
    ;

    /// `a + b == b + a`.
    proof fn lemma_add_comm(a: Self, b: Self)
        ensures
            a.add_spec(b) == b.add_spec(a),
    ;

    /// `(a + b) + c == a + (b + c)`.
    proof fn lemma_add_assoc(a: Self, b: Self, c: Self)
        ensures
            a.add_spec(b).add_spec(c) == a.add_spec(b.add_spec(c)),
    ;

    /// `a + 0 == a` for an element `a`.
    proof fn lemma_add_zero(a: Self)
        requires
            a.member(),
        ensures
            a.add_spec(Self::zero_spec()) == a,
    ;

    /// `a + -a == 0`.
    proof fn lemma_add_neg(a: Self)
        ensures
            a.add_spec(a.neg_spec()) == Self::zero_spec(),
    ;

    /// `a - b == a + -b`.
    proof fn lemma_sub_is_add_neg(a: Self, b: Self)
        ensures
            a.sub_spec(b) == a.add_spec(b.neg_spec()),
    ;

    /// `a * b == b * a`.
    proof fn lemma_mul_comm(a: Self, b: Self)
        ensures
            a.mul_spec(b) == b.mul_spec(a),
    ;

    /// `(a * b) * c == a * (b * c)`.
    proof fn lemma_mul_assoc(a: Self, b: Self, c: Self)
        ensures
            a.mul_spec(b).mul_spec(c) == a.mul_spec(b.mul_spec(c)),
    ;

    /// `a * (b + c) == a * b + a * c`.
    proof fn lemma_distributive(a: Self, b: Self, c: Self)
        ensures
            a.mul_spec(b.add_spec(c)) == a.mul_spec(b).add_spec(a.mul_spec(c)),
    ;

    /// `(a + a) / 2 == a` for an element `a`.
    proof fn lemma_half_of_double(a: Self)
        requires
            a.member(),
        ensures
            a.add_spec(a).half_spec() == a,
    ;
}

/// A ring whose sine table is exact: its entries are the sines of the angles
/// they stand for, as far as a ring can tell.
pub trait Exact: Ring {
    /// The entries of the table are elements.
    proof fn lemma_sine_member(i: usize)
        ensures
            Self::sine_spec(i).member(),
    ;

    /// `sin(0) == 0`.
    proof fn lemma_sine_zero()
        ensures
            Self::sine_spec(0) == Self::zero_spec(),
    ;

    /// `sin(pi/2) == 1`: the last entry of the table is the unit of
    /// multiplication.
    proof fn lemma_sine_one(a: Self)
        requires
            a.member(),
        ensures
            Self::sine_spec(4096).mul_spec(a) == a,
    ;

    /// The product of two points of the unit circle is the point at the sum
    /// of their angles, which is the negative of the point half a turn back.
    proof fn lemma_unit_mul(a: int, b: int)
        requires
            0 <= a < 8192,
            0 <= b < 8192,
        ensures
            unit_spec::<Self>(a).mul_spec(unit_spec::<Self>(b)) == if a + b < 8192 {
                unit_spec::<Self>(a + b)
            } else {
                unit_spec::<Self>(a + b - 8192).neg_spec()
            },
    ;
}

/// Both parts of `z` are elements of the ring.
pub open spec fn is_member<T: Ring>(z: Complex<T>) -> bool {
    z.re.member() && z.im.member()
}

/// Every slot of `x` holds elements of the ring.
pub open spec fn all_members<T: Ring>(x: Seq<Complex<T>>) -> bool {
    forall|j: int| 0 <= j < x.len() ==> #[trigger] is_member(x[j])
}

/// `0 + a == a`.
pub proof fn lemma_zero_add<T: Ring>(a: T)
    requires
        a.member(),
    ensures
        T::zero_spec().add_spec(a) == a,
{
    T::lemma_add_comm(T::zero_spec(), a);
    T::lemma_add_zero(a);
}

/// `-a + a == 0`.
pub proof fn lemma_neg_add_self<T: Ring>(a: T)
    ensures
        a.neg_spec().add_spec(a) == T::zero_spec(),
{
    T::lemma_add_comm(a.neg_spec(), a);
    T::lemma_add_neg(a);
}

/// The negative of `a` is the only element that adds with `a` to zero.
pub proof fn lemma_neg_unique<T: Ring>(a: T, b: T)
    requires
        a.add_spec(b) == T::zero_spec(),
        b.member(),
    ensures
        b == a.neg_spec(),
{
    T::lemma_closed(a, b);
    lemma_zero_add(b);
    lemma_neg_add_self(a);
    T::lemma_add_assoc(a.neg_spec(), a, b);
    T::lemma_add_zero(a.neg_spec());
}

/// `-(-a) == a`.
pub proof fn lemma_neg_neg<T: Ring>(a: T)
    requires
        a.member(),
    ensures
        a.neg_spec().neg_spec() == a,
{
    lemma_neg_add_self(a);
    lemma_neg_unique(a.neg_spec(), a);
}

/// `-0 == 0`.
pub proof fn lemma_neg_zero<T: Ring>()
    ensures
        T::zero_spec().neg_spec() == T::zero_spec(),
{
    T::lemma_closed(T::zero_spec(), T::zero_spec());
    T::lemma_add_zero(T::zero_spec());
    lemma_neg_unique(T::zero_spec(), T::zero_spec());
}

/// `(a + b) + (c + d) == (a + c) + (b + d)`.
pub proof fn lemma_add_interchange<T: Ring>(a: T, b: T, c: T, d: T)
    ensures
        a.add_spec(b).add_spec(c.add_spec(d)) == a.add_spec(c).add_spec(b.add_spec(d)),
{
    T::lemma_add_assoc(a, b, c.add_spec(d));
    T::lemma_add_assoc(b, c, d);
    T::lemma_add_comm(b, c);
    T::lemma_add_assoc(c, b, d);
    T::lemma_add_assoc(a, c, b.add_spec(d));
}

/// `(a + b) + (a + -b) == a + a`.
pub proof fn lemma_sum_cancel<T: Ring>(a: T, b: T)
    ensures
        a.add_spec(b).add_spec(a.add_spec(b.neg_spec())) == a.add_spec(a),
{
    T::lemma_closed(a, a);
    lemma_add_interchange(a, b, a, b.neg_spec());
    T::lemma_add_neg(b);
    T::lemma_add_zero(a.add_spec(a));
}

/// `(a + b) + (-a + b) == b + b`.
pub proof fn lemma_diff_double<T: Ring>(a: T, b: T)
    ensures
        a.add_spec(b).add_spec(a.neg_spec().add_spec(b)) == b.add_spec(b),
{
    T::lemma_closed(b, b);
    lemma_add_interchange(a, b, a.neg_spec(), b);
    T::lemma_add_neg(a);
    lemma_zero_add(b.add_spec(b));
}

/// `-(a + b) == -a + -b`.
pub proof fn lemma_neg_add<T: Ring>(a: T, b: T)
    ensures
        a.add_spec(b).neg_spec() == a.neg_spec().add_spec(b.neg_spec()),
{
    T::lemma_closed(a.neg_spec(), b.neg_spec());
    lemma_add_interchange(a, b, a.neg_spec(), b.neg_spec());
    T::lemma_add_neg(a);
    T::lemma_add_neg(b);
    T::lemma_add_zero(T::zero_spec());
    lemma_neg_unique(a.add_spec(b), a.neg_spec().add_spec(b.neg_spec()));
}

/// `a * 0 == 0`.
pub proof fn lemma_mul_zero<T: Ring>(a: T)
    ensures
        a.mul_spec(T::zero_spec()) == T::zero_spec(),
{
    let z = T::zero_spec();
    let x = a.mul_spec(z);
    T::lemma_closed(a, z);
    T::lemma_add_zero(z);
    T::lemma_distributive(a, z, z);
    assert(x == x.add_spec(x));
    T::lemma_add_neg(x);
    T::lemma_add_assoc(x, x, x.neg_spec());
    T::lemma_add_zero(x);
}

/// `a * -b == -(a * b)`.
pub proof fn lemma_mul_neg<T: Ring>(a: T, b: T)
    ensures
        a.mul_spec(b.neg_spec()) == a.mul_spec(b).neg_spec(),
{
    T::lemma_closed(a, b.neg_spec());
    T::lemma_distributive(a, b, b.neg_spec());
    T::lemma_add_neg(b);
    lemma_mul_zero(a);
    lemma_neg_unique(a.mul_spec(b), a.mul_spec(b.neg_spec()));
}

/// The laws of the ring and the rules of sign that follow from them, for all
/// elements at once.
pub open spec fn ring_facts<T: Ring>() -> bool {
    &&& forall|a: T, b: T| #[trigger] a.add_spec(b) == b.add_spec(a)
    &&& forall|a: T, b: T, c: T| #[trigger] a.add_spec(b).add_spec(c) == a.add_spec(b.add_spec(c))
    &&& forall|a: T| a.member() ==> #[trigger] a.add_spec(T::zero_spec()) == a
    &&& forall|a: T| #[trigger] a.add_spec(a.neg_spec()) == T::zero_spec()
    &&& forall|a: T, b: T| #[trigger] a.sub_spec(b) == a.add_spec(b.neg_spec())
    &&& forall|a: T, b: T| #[trigger] a.mul_spec(b) == b.mul_spec(a)
    &&& forall|a: T, b: T, c: T| #[trigger] a.mul_spec(b).mul_spec(c) == a.mul_spec(b.mul_spec(c))
    &&& forall|a: T, b: T, c: T| #[trigger]
        a.mul_spec(b.add_spec(c)) == a.mul_spec(b).add_spec(a.mul_spec(c))
    &&& forall|a: T| a.member() ==> #[trigger] a.neg_spec().neg_spec() == a
    &&& forall|a: T, b: T| (#[trigger] a.add_spec(b)).member()
    &&& forall|a: T, b: T| (#[trigger] a.mul_spec(b)).member()
    &&& forall|a: T| (#[trigger] a.neg_spec()).member()
    &&& T::zero_spec().member()
    &&& forall|a: T, b: T| #[trigger]
        a.add_spec(b).neg_spec() == a.neg_spec().add_spec(b.neg_spec())
    &&& forall|a: T, b: T| #[trigger] a.mul_spec(b.neg_spec()) == a.mul_spec(b).neg_spec()
    &&& forall|a: T| #[trigger] a.mul_spec(T::zero_spec()) == T::zero_spec()
    &&& T::zero_spec().neg_spec() == T::zero_spec()
}

/// The laws hold.
pub proof fn lemma_ring_facts<T: Ring>()
    ensures
        ring_facts::<T>(),
{
    assert forall|a: T, b: T| #[trigger] a.add_spec(b) == b.add_spec(a) by {
        T::lemma_add_comm(a, b);
    }
    assert forall|a: T, b: T, c: T| #[trigger]
        a.add_spec(b).add_spec(c) == a.add_spec(b.add_spec(c)) by {
        T::lemma_add_assoc(a, b, c);
    }
    assert forall|a: T| a.member() implies #[trigger] a.add_spec(T::zero_spec()) == a by {
        T::lemma_add_zero(a);
    }
    assert forall|a: T, b: T| (#[trigger] a.add_spec(b)).member() by {
        T::lemma_closed(a, b);
    }
    assert forall|a: T, b: T| (#[trigger] a.mul_spec(b)).member() by {
        T::lemma_closed(a, b);
    }
    assert forall|a: T| (#[trigger] a.neg_spec()).member() by {
        T::lemma_closed(a, a);
    }
    T::lemma_closed(T::zero_spec(), T::zero_spec());
    assert forall|a: T| #[trigger] a.add_spec(a.neg_spec()) == T::zero_spec() by {
        T::lemma_add_neg(a);
    }
    assert forall|a: T, b: T| #[trigger] a.sub_spec(b) == a.add_spec(b.neg_spec()) by {
        T::lemma_sub_is_add_neg(a, b);
    }
    assert forall|a: T, b: T| #[trigger] a.mul_spec(b) == b.mul_spec(a) by {
        T::lemma_mul_comm(a, b);
    }
    assert forall|a: T, b: T, c: T| #[trigger]
        a.mul_spec(b).mul_spec(c) == a.mul_spec(b.mul_spec(c)) by {
        T::lemma_mul_assoc(a, b, c);
    }
    assert forall|a: T, b: T, c: T| #[trigger]
        a.mul_spec(b.add_spec(c)) == a.mul_spec(b).add_spec(a.mul_spec(c)) by {
        T::lemma_distributive(a, b, c);
    }
    assert forall|a: T| a.member() implies #[trigger] a.neg_spec().neg_spec() == a by {
        lemma_neg_neg(a);
    }
    assert forall|a: T, b: T| #[trigger]
        a.add_spec(b).neg_spec() == a.neg_spec().add_spec(b.neg_spec()) by {
        lemma_neg_add(a, b);
    }
    assert forall|a: T, b: T| #[trigger] a.mul_spec(b.neg_spec()) == a.mul_spec(b).neg_spec() by {
        lemma_mul_neg(a, b);
    }
    assert forall|a: T| #[trigger] a.mul_spec(T::zero_spec()) == T::zero_spec() by {
        lemma_mul_zero(a);
    }
    lemma_neg_zero::<T>();
}

/// The product of complex numbers is associative.
pub proof fn lemma_complex_mul_assoc<T: Ring>(a: Complex<T>, b: Complex<T>, c: Complex<T>)
    ensures
        a.mul_spec(b).mul_spec(c) == a.mul_spec(b.mul_spec(c)),
{
    lemma_ring_facts::<T>();
}

/// The product of complex numbers distributes over their sum.
pub proof fn lemma_complex_distributive<T: Ring>(a: Complex<T>, b: Complex<T>, c: Complex<T>)
    ensures
        a.mul_spec(b.add_spec(c)) == a.mul_spec(b).add_spec(a.mul_spec(c)),
{
    lemma_ring_facts::<T>();
}

/// The sum of complex numbers is associative.
pub proof fn lemma_complex_add_assoc<T: Ring>(a: Complex<T>, b: Complex<T>, c: Complex<T>)
    ensures
        a.add_spec(b).add_spec(c) == a.add_spec(b.add_spec(c)),
{
    T::lemma_add_assoc(a.re, b.re, c.re);
    T::lemma_add_assoc(a.im, b.im, c.im);
}

/// `(a + b) + (c + d) == (a + c) + (b + d)` for complex numbers.
pub proof fn lemma_complex_add_interchange<T: Ring>(
    a: Complex<T>,
    b: Complex<T>,
    c: Complex<T>,
    d: Complex<T>,
)
    ensures
        a.add_spec(b).add_spec(c.add_spec(d)) == a.add_spec(c).add_spec(b.add_spec(d)),
{
    lemma_add_interchange(a.re, b.re, c.re, d.re);
    lemma_add_interchange(a.im, b.im, c.im, d.im);
}

/// Adding the complex zero changes nothing.
pub proof fn lemma_complex_add_zero<T: Ring>(z: Complex<T>)
    requires
        is_member(z),
    ensures
        z.add_spec(Complex::zero_spec()) == z,
        Complex::<T>::zero_spec().add_spec(z) == z,
{
    T::lemma_add_zero(z.re);
    T::lemma_add_zero(z.im);
    lemma_zero_add(z.re);
    lemma_zero_add(z.im);
}

/// A product with the complex zero is zero.
pub proof fn lemma_complex_mul_zero<T: Ring>(c: Complex<T>)
    ensures
        c.mul_spec(Complex::zero_spec()) == Complex::<T>::zero_spec(),
{
    let z = T::zero_spec();
    lemma_mul_zero(c.re);
    lemma_mul_zero(c.im);
    T::lemma_closed(z, z);
    T::lemma_sub_is_add_neg(z, z);
    lemma_neg_zero::<T>();
    T::lemma_add_zero(z);
}

/// `-a * b == -(a * b)` and `a * -b == -(a * b)` for complex numbers.
pub proof fn lemma_complex_neg_mul<T: Ring>(a: Complex<T>, b: Complex<T>)
    ensures
        a.neg_spec().mul_spec(b) == a.mul_spec(b).neg_spec(),
        a.mul_spec(b.neg_spec()) == a.mul_spec(b).neg_spec(),
{
    lemma_ring_facts::<T>();
}

/// `a - b == a + -b` for complex numbers.
pub proof fn lemma_complex_sub_is_add_neg<T: Ring>(a: Complex<T>, b: Complex<T>)
    ensures
        a.sub_spec(b) == a.add_spec(b.neg_spec()),
{
    T::lemma_sub_is_add_neg(a.re, b.re);
    T::lemma_sub_is_add_neg(a.im, b.im);
}

/// `-(-z) == z` for complex numbers.
pub proof fn lemma_complex_neg_neg<T: Ring>(z: Complex<T>)
    requires
        is_member(z),
    ensures
        z.neg_spec().neg_spec() == z,
{
    lemma_neg_neg(z.re);
    lemma_neg_neg(z.im);
}

/// The point of the unit circle at the angle zero is the unit of
/// multiplication.
pub proof fn lemma_complex_one_mul<T: Exact>(z: Complex<T>)
    requires
        is_member(z),
    ensures
        unit_spec::<T>(0).mul_spec(z) == z,
{
    let one = T::sine_spec(4096);
    let zero = T::zero_spec();
    T::lemma_sine_zero();
    lemma_neg_zero::<T>();
    T::lemma_sine_one(z.re);
    T::lemma_sine_one(z.im);
    T::lemma_mul_comm(zero, z.re);
    T::lemma_mul_comm(zero, z.im);
    lemma_mul_zero(z.re);
    lemma_mul_zero(z.im);
    T::lemma_sub_is_add_neg(z.re, zero);
    T::lemma_add_zero(z.re);
    T::lemma_add_zero(z.im);
}

} // verus!
