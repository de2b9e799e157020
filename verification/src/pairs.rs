//! Two transform pairs over exact scalars: the zero buffer, and the impulse.
use crate::algebra::{
    is_member, lemma_complex_add_zero, lemma_complex_mul_zero, lemma_complex_sub_is_add_neg,
    lemma_neg_zero, Ring,
};
use crate::cfft::{combine, dit, evens, odds, rotate};
use crate::sample::Complex;
use vstd::arithmetic::power2::{lemma2_to64, lemma_pow2_pos, lemma_pow2_unfold, pow2};
use vstd::prelude::*;

verus! {

/// The buffer of `n` slots that holds `u` in every slot.
pub open spec fn constant<T: Ring>(u: Complex<T>, n: nat) -> Seq<Complex<T>> {
    Seq::new(n, |j: int| u)
}

/// The buffer of `n` slots that holds `u` in slot 0 and zero in all others.
pub open spec fn impulse<T: Ring>(u: Complex<T>, n: nat) -> Seq<Complex<T>> {
    Seq::new(
        n,
        |j: int|
            if j == 0 {
                u
            } else {
                Complex::zero_spec()
            },
    )
}

/// A butterfly whose upper input is zero hands its lower input to both
/// outputs.
proof fn lemma_butterfly_of_zero<T: Ring>(e: Complex<T>, k: int, n: int)
    requires
        is_member(e),
    ensures
        e.add_spec(rotate(k, n, Complex::zero_spec())) == e,
        e.sub_spec(rotate(k, n, Complex::zero_spec())) == e,
{
    let zero = Complex::<T>::zero_spec();
    lemma_complex_mul_zero(crate::twiddle::twiddle_spec::<T>(k, n));
    lemma_complex_add_zero(e);
    lemma_complex_sub_is_add_neg(e, zero);
    lemma_neg_zero::<T>();
}

/// With exact scalars, the transform of the zero buffer is the zero buffer.
pub proof fn lemma_dit_of_zeros<T: Ring>(bits: nat)
    ensures
        dit(constant(Complex::<T>::zero_spec(), pow2(bits))) == constant(
            Complex::<T>::zero_spec(),
            pow2(bits),
        ),
    decreases bits,
{
    lemma2_to64();
    let zero = Complex::<T>::zero_spec();
    let x = constant(zero, pow2(bits));
    if bits > 0 {
        let h = pow2((bits - 1) as nat);
        lemma_pow2_unfold(bits);
        lemma_pow2_pos((bits - 1) as nat);
        assert(evens(x) =~= constant(zero, h));
        assert(odds(x) =~= constant(zero, h));
        lemma_dit_of_zeros::<T>((bits - 1) as nat);
        T::lemma_closed(T::zero_spec(), T::zero_spec());
        let halves = combine(constant(zero, h), constant(zero, h));
        assert forall|k: int| 0 <= k < 2 * h implies halves[k] == zero by {
            let j = if k < h {
                k
            } else {
                k - h
            };
            lemma_butterfly_of_zero(zero, j, 2 * h as int);
        }
        assert(halves =~= x);
    }
}

/// With exact scalars, the transform of a buffer that holds `u` in slot 0 and
/// zero elsewhere holds `u` in every bin: the unit impulse transforms to the
/// constant one.
pub proof fn lemma_dit_of_impulse<T: Ring>(u: Complex<T>, bits: nat)
    requires
        is_member(u),
    ensures
        dit(impulse(u, pow2(bits))) == constant(u, pow2(bits)),
    decreases bits,
{
    lemma2_to64();
    let zero = Complex::<T>::zero_spec();
    let x = impulse(u, pow2(bits));
    if bits == 0 {
        assert(x =~= constant(u, 1));
    } else {
        let h = pow2((bits - 1) as nat);
        lemma_pow2_unfold(bits);
        lemma_pow2_pos((bits - 1) as nat);
        assert(evens(x) =~= impulse(u, h));
        assert(odds(x) =~= constant(zero, h));
        lemma_dit_of_impulse(u, (bits - 1) as nat);
        lemma_dit_of_zeros::<T>((bits - 1) as nat);
        assert forall|k: int| 0 <= k < 2 * h implies combine(constant(u, h), constant(zero, h))[k]
            == u by {
            let j = if k < h {
                k
            } else {
                k - h
            };
            lemma_butterfly_of_zero(u, j, 2 * h as int);
        }
        assert(combine(constant(u, h), constant(zero, h)) =~= constant(u, 2 * h));
    }
}

} // verus!
