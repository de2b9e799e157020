//! The real transform against the complex transform of the same samples,
//! over exact scalars.
use crate::algebra::{
    all_members, is_member, lemma_diff_double, lemma_neg_add, lemma_neg_neg, lemma_neg_zero,
    lemma_ring_facts, lemma_sum_cancel, lemma_zero_add, Exact, Ring,
};
use crate::cfft::{combine, dit, evens, lemma_dit_len, odds};
use crate::dft::{dft, dft_bin, lemma_dit_is_dft};
use crate::linear::{
    lemma_dit_additive, lemma_dit_homogeneous, lemma_dit_members, seq_add, seq_scale,
};
use crate::rfft::{pack, recombine_spec, rfft_spec};
use crate::sample::Complex;
use crate::scalar::Scalar;
use crate::symmetry::{conj_pair, imaginary_unit, lemma_real_spectrum_symmetric, promote};
use crate::twiddle::twiddle_spec;
use vstd::arithmetic::power2::{lemma2_to64, lemma_pow2_pos, lemma_pow2_unfold, pow2};
use vstd::prelude::*;

verus! {

/// `z` times the imaginary unit: `(a + bi) * i == -b + ai`.
pub open spec fn times_i<T: Scalar>(z: Complex<T>) -> Complex<T> {
    Complex { re: z.im.neg_spec(), im: z.re }
}

/// Multiplying with the imaginary unit is `times_i`.
proof fn lemma_times_i<T: Exact>(z: Complex<T>)
    requires
        is_member(z),
    ensures
        imaginary_unit::<T>().mul_spec(z) == times_i(z),
{
    lemma_ring_facts::<T>();
    T::lemma_sine_one(z.re);
    T::lemma_sine_one(z.im);
}

/// From `e + i*o` and the conjugate of `conj(e) + i*conj(o)`, the sum is
/// twice `e` and the difference twice `i*o`.
proof fn lemma_separate<T: Ring>(e: Complex<T>, o: Complex<T>)
    requires
        is_member(e),
        is_member(o),
    ensures
        e.add_spec(times_i(o)).add_spec(
            e.conj_spec().add_spec(times_i(o.conj_spec())).conj_spec(),
        ) == e.add_spec(e),
        e.add_spec(times_i(o)).sub_spec(
            e.conj_spec().add_spec(times_i(o.conj_spec())).conj_spec(),
        ) == times_i(o).add_spec(times_i(o)),
        times_i(o).mul_neg_i_spec() == o,
{
    let (a, c, x, y) = (e.re, e.im, o.re, o.im);
    T::lemma_closed(y, x);
    T::lemma_closed(c.neg_spec(), x);
    // real part of the sum: (a - y) + (a + y)
    lemma_sum_cancel(a, y.neg_spec());
    // imaginary part of the sum: (c + x) + -(-c + x)
    lemma_neg_add(c.neg_spec(), x);
    lemma_neg_neg(c);
    lemma_sum_cancel(c, x);
    // real part of the difference: (a - y) - (a + y)
    T::lemma_sub_is_add_neg(a.add_spec(y.neg_spec()), a.add_spec(y.neg_spec().neg_spec()));
    lemma_neg_add(a, y.neg_spec().neg_spec());
    lemma_neg_neg(y.neg_spec());
    lemma_diff_double(a, y.neg_spec());
    // imaginary part of the difference: (c + x) - -(-c + x)
    T::lemma_sub_is_add_neg(c.add_spec(x), c.neg_spec().add_spec(x).neg_spec());
    lemma_neg_neg(c.neg_spec().add_spec(x));
    lemma_diff_double(c, x);
    lemma_neg_neg(y);
}

/// One bin of the real spectrum, recovered from the transform of the packed
/// samples, is the butterfly of the transforms of the even and of the odd
/// samples.
proof fn lemma_recombine<T: Exact>(e: Complex<T>, o: Complex<T>, w: Complex<T>)
    requires
        is_member(e),
        is_member(o),
    ensures
        recombine_spec(
            e.add_spec(imaginary_unit::<T>().mul_spec(o)),
            e.conj_spec().add_spec(imaginary_unit::<T>().mul_spec(o.conj_spec())),
            w,
        ) == e.add_spec(w.mul_spec(o)),
{
    let io = times_i(o);
    T::lemma_closed(o.im, o.im);
    lemma_times_i(o);
    lemma_times_i(o.conj_spec());
    lemma_separate(e, o);
    T::lemma_half_of_double(e.re);
    T::lemma_half_of_double(e.im);
    T::lemma_half_of_double(io.re);
    T::lemma_half_of_double(io.im);
}

/// A slot of the packed buffer is its real part plus `i` times its imaginary
/// part.
proof fn lemma_slot<T: Exact>(a: T, b: T)
    requires
        a.member(),
        b.member(),
    ensures
        (Complex { re: a, im: b }) == (Complex { re: a, im: T::zero_spec() }).add_spec(
            imaginary_unit::<T>().mul_spec(Complex { re: b, im: T::zero_spec() }),
        ),
{
    T::lemma_closed(a, b);
    lemma_times_i(Complex { re: b, im: T::zero_spec() });
    lemma_neg_zero::<T>();
    T::lemma_add_zero(a);
    lemma_zero_add(b);
}

/// Slot 0 of the real spectrum: from the real bins 0 of the transforms of the
/// even and of the odd samples, the sum and the difference of the two.
proof fn lemma_slot_zero<T: Exact>(e: Complex<T>, o: Complex<T>)
    requires
        e.re.member(),
        o.re.member(),
        e.im == T::zero_spec(),
        o.im == T::zero_spec(),
    ensures
        ({
            let z = e.add_spec(imaginary_unit::<T>().mul_spec(o));
            &&& z.re.add_spec(z.im) == e.add_spec(o).re
            &&& z.re.sub_spec(z.im) == e.sub_spec(o).re
            &&& e.sub_spec(o).im == T::zero_spec()
        }),
{
    T::lemma_closed(e.re, o.re);
    lemma_times_i(o);
    lemma_neg_zero::<T>();
    T::lemma_add_zero(e.re);
    lemma_zero_add(o.re);
    T::lemma_sub_is_add_neg(T::zero_spec(), T::zero_spec());
    T::lemma_add_zero(T::zero_spec());
}

/// Real/complex consistency: with exact scalars, the real transform of `x`
/// holds bins 1 to `N/2 - 1` of the complex transform of `x`, taken with
/// imaginary parts zero; its slot 0 holds the real part of bin 0 and, as its
/// imaginary part, the real part of bin `N/2`. Both of these bins are real.
pub proof fn lemma_rfft_matches_cfft<T: Exact>(x: Seq<T>, bits: nat)
    requires
        1 <= bits <= 14,
        x.len() == pow2(bits),
        forall|j: int| 0 <= j < x.len() ==> (#[trigger] x[j]).member(),
    ensures
        rfft_spec(x).len() == x.len() / 2,
        dit(promote(x)).len() == x.len(),
        forall|k: int| 0 < k < x.len() / 2 ==> #[trigger] rfft_spec(x)[k] == dit(promote(x))[k],
        rfft_spec(x)[0].re == dit(promote(x))[0].re,
        rfft_spec(x)[0].im == dit(promote(x))[x.len() as int / 2].re,
        dit(promote(x))[0].im == T::zero_spec(),
        dit(promote(x))[x.len() as int / 2].im == T::zero_spec(),
{
    lemma2_to64();
    let b = (bits - 1) as nat;
    lemma_pow2_unfold(bits);
    lemma_pow2_pos(b);
    let n = x.len() as int;
    let h = n / 2;
    let i = imaginary_unit::<T>();
    let full = promote(x);
    let pe = promote(evens(x));
    let po = promote(odds(x));
    assert(evens(full) =~= pe);
    assert(odds(full) =~= po);
    let e = dit(pe);
    let o = dit(po);
    lemma_dit_len(full, bits);
    lemma_dit_len(pe, b);
    lemma_dit_len(po, b);
    lemma_dit_len(pack(x), b);
    assert(dit(full) == combine(e, o));
    T::lemma_closed(x[0], x[0]);
    assert(all_members(pe)) by {
        assert forall|j: int| 0 <= j < h implies #[trigger] is_member(pe[j]) by {
            assert(x[2 * j].member());
        }
    }
    assert(all_members(po)) by {
        assert forall|j: int| 0 <= j < h implies #[trigger] is_member(po[j]) by {
            assert(x[2 * j + 1].member());
        }
    }
    lemma_dit_members(pe, b);
    lemma_dit_members(po, b);
    // the packed samples are the even samples plus i times the odd samples
    assert(pack(x) =~= seq_add(pe, seq_scale(i, po))) by {
        assert forall|j: int| 0 <= j < h implies pack(x)[j] == pe[j].add_spec(
            i.mul_spec(po[j]),
        ) by {
            assert(x[2 * j].member() && x[2 * j + 1].member());
            lemma_slot(x[2 * j], x[2 * j + 1]);
        }
    }
    lemma_dit_homogeneous(i, po, b);
    lemma_dit_additive(pe, seq_scale(i, po), b);
    let z = dit(pack(x));
    assert(z == seq_add(e, seq_scale(i, o)));
    lemma_real_spectrum_symmetric(evens(x), b);
    lemma_real_spectrum_symmetric(odds(x), b);
    lemma_real_spectrum_symmetric(x, bits);
    assert forall|k: int| 0 < k < h implies #[trigger] rfft_spec(x)[k] == dit(full)[k] by {
        assert(conj_pair(e, k));
        assert(conj_pair(o, k));
        assert(is_member(e[k]) && is_member(o[k]));
        assert(z[k] == e[k].add_spec(i.mul_spec(o[k])));
        assert(z[h - k] == e[k].conj_spec().add_spec(i.mul_spec(o[k].conj_spec())));
        lemma_recombine(e[k], o[k], twiddle_spec::<T>(k, n));
    }
    assert(z[0] == e[0].add_spec(i.mul_spec(o[0])));
    assert(is_member(e[0]) && is_member(o[0]));
    lemma_slot_zero(e[0], o[0]);
}

/// With exact scalars, the real transform of `N` elements of the ring holds
/// bins 1 to `N/2 - 1` of their discrete Fourier transform; its slot 0 holds
/// the real bin 0 and, as its imaginary part, the real bin `N/2`.
pub proof fn lemma_rfft_is_dft<T: Exact>(x: Seq<T>, bits: nat)
    requires
        1 <= bits <= 14,
        x.len() == pow2(bits),
        forall|j: int| 0 <= j < x.len() ==> (#[trigger] x[j]).member(),
    ensures
        forall|k: int|
            0 < k < x.len() / 2 ==> #[trigger] rfft_spec(x)[k] == dft_bin(promote(x), k),
        rfft_spec(x)[0].re == dft_bin(promote(x), 0).re,
        rfft_spec(x)[0].im == dft_bin(promote(x), x.len() as int / 2).re,
{
    let full = promote(x);
    lemma_rfft_matches_cfft(x, bits);
    T::lemma_closed(x[0], x[0]);
    assert(all_members(full)) by {
        assert forall|j: int| 0 <= j < full.len() implies #[trigger] is_member(full[j]) by {
            assert(x[j].member());
        }
    }
    lemma_dit_is_dft(full, bits);
    lemma_pow2_unfold(bits);
    lemma_pow2_pos((bits - 1) as nat);
    assert forall|k: int| 0 < k < x.len() / 2 implies #[trigger] rfft_spec(x)[k] == dft_bin(
        full,
        k,
    ) by {
        assert(dft(full)[k] == dft_bin(full, k));
    }
    assert(dft(full)[0] == dft_bin(full, 0));
    assert(dft(full)[x.len() as int / 2] == dft_bin(full, x.len() as int / 2));
}

} // verus!
