//! The spectrum of real samples over exact scalars: bins that mirror each
//! other are conjugates.
use crate::algebra::{is_member, lemma_ring_facts, Exact, Ring};
use crate::cfft::{combine, dit, evens, lemma_dit_len, odds};
use crate::sample::Complex;
use crate::scalar::Scalar;
use crate::twiddle::{is_size, lemma_stride, twiddle_spec, unit_spec};
use vstd::arithmetic::power2::{lemma2_to64, lemma_pow2_pos, lemma_pow2_unfold, pow2};
use vstd::prelude::*;

verus! {

/// The real samples `x` as complex samples with imaginary part zero.
pub open spec fn promote<T: Scalar>(x: Seq<T>) -> Seq<Complex<T>> {
    Seq::new(x.len(), |j: int| Complex { re: x[j], im: T::zero_spec() })
}

/// The imaginary unit.
pub open spec fn imaginary_unit<T: Scalar>() -> Complex<T> {
    Complex { re: T::zero_spec(), im: T::sine_spec(4096) }
}

/// The bin of `d` at `len - k` is the conjugate of the bin at `k`.
pub open spec fn conj_pair<T: Scalar>(d: Seq<Complex<T>>, k: int) -> bool {
    d[d.len() - k] == d[k].conj_spec()
}

/// Bin 0 of `d` is real, and the bins at `k` and at `len - k` are conjugates.
pub open spec fn conj_symmetric<T: Scalar>(d: Seq<Complex<T>>) -> bool {
    &&& d.len() > 0 ==> d[0].im == T::zero_spec()
    &&& forall|k: int| 0 < k < d.len() ==> #[trigger] conj_pair(d, k)
}

/// The point of the unit circle at the angle `pi - t` is the negative of the
/// conjugate of the point at `t`.
proof fn lemma_unit_mirror<T: Exact>(m: int)
    requires
        0 < m < 8192,
    ensures
        unit_spec::<T>(8192 - m) == unit_spec::<T>(m).conj_spec().neg_spec(),
{
    lemma_ring_facts::<T>();
    T::lemma_sine_zero();
    T::lemma_sine_member(m as usize);
    T::lemma_sine_member((4096 - m) as usize);
    T::lemma_sine_member((m - 4096) as usize);
    T::lemma_sine_member((8192 - m) as usize);
}

/// The rotation factors are made of elements of the ring.
pub proof fn lemma_twiddle_member<T: Exact>(k: int, n: int)
    requires
        is_size(n),
        0 <= k < n / 2,
    ensures
        is_member(twiddle_spec::<T>(k, n)),
{
    lemma_stride(k, n);
    let m = k * (16384int / n);
    T::lemma_sine_member(m as usize);
    T::lemma_sine_member((4096 - m) as usize);
    T::lemma_sine_member((m - 4096) as usize);
    T::lemma_sine_member((8192 - m) as usize);
    let z = T::zero_spec();
    T::lemma_closed(T::sine_spec(m as usize), z);
    T::lemma_closed(T::sine_spec((m - 4096) as usize), z);
    T::lemma_closed(T::sine_spec((8192 - m) as usize), z);
}

/// The rotation factor at `n/2 - k` is the negative of the conjugate of the
/// one at `k`.
proof fn lemma_twiddle_mirror<T: Exact>(k: int, n: int)
    requires
        is_size(n),
        0 < k < n / 2,
    ensures
        twiddle_spec::<T>(n / 2 - k, n) == twiddle_spec::<T>(k, n).conj_spec().neg_spec(),
{
    lemma_stride(k, n);
    lemma_stride(n / 2 - k, n);
    let s = 16384int / n;
    assert(n % 2 == 0) by {
        let b = choose|b: nat| 1 <= b <= 14 && n == #[trigger] pow2(b);
        lemma_pow2_unfold(b);
    }
    assert((n / 2 - k) * s == 8192 - k * s) by (nonlinear_arith)
        requires
            n * s == 16384,
            n % 2 == 0,
    ;
    assert(0 < k * s) by (nonlinear_arith)
        requires
            0 < k,
            1 <= s,
    ;
    lemma_unit_mirror::<T>(k * s);
}

/// A butterfly of conjugates, taken at the mirrored rotation factor, is the
/// conjugate of the butterfly's lower output.
proof fn lemma_butterfly_mirror<T: Ring>(e: Complex<T>, o: Complex<T>, w: Complex<T>)
    requires
        is_member(w),
    ensures
        e.conj_spec().sub_spec(w.conj_spec().neg_spec().mul_spec(o.conj_spec())) == e.add_spec(
            w.mul_spec(o),
        ).conj_spec(),
{
    lemma_ring_facts::<T>();
}

/// The transform of real samples is conjugate symmetric.
pub proof fn lemma_real_spectrum_symmetric<T: Exact>(y: Seq<T>, bits: nat)
    requires
        bits <= 14,
        y.len() == pow2(bits),
    ensures
        conj_symmetric(dit(promote(y))),
    decreases bits,
{
    lemma2_to64();
    let x = promote(y);
    let d = dit(x);
    lemma_dit_len(x, bits);
    if bits > 0 {
        let b = (bits - 1) as nat;
        lemma_pow2_unfold(bits);
        lemma_pow2_pos(b);
        let n = y.len() as int;
        let h = n / 2;
        assert(evens(x) =~= promote(evens(y)));
        assert(odds(x) =~= promote(odds(y)));
        lemma_real_spectrum_symmetric(evens(y), b);
        lemma_real_spectrum_symmetric(odds(y), b);
        lemma_dit_len(evens(x), b);
        lemma_dit_len(odds(x), b);
        let e = dit(evens(x));
        let o = dit(odds(x));
        assert(d == combine(e, o));
        assert(is_size(n));
        assert(d[0].im == T::zero_spec() && d[h] == d[h].conj_spec()) by {
            lemma_ring_facts::<T>();
        }
        assert forall|k: int| 0 < k < h implies #[trigger] conj_pair(d, k) && conj_pair(
            d,
            n - k,
        ) by {
            lemma_twiddle_mirror::<T>(k, n);
            lemma_twiddle_member::<T>(k, n);
            assert(conj_pair(e, k));
            assert(conj_pair(o, k));
            lemma_butterfly_mirror(e[k], o[k], twiddle_spec::<T>(k, n));
            assert(d[k].conj_spec().conj_spec() == d[k]) by {
                lemma_ring_facts::<T>();
            }
        }
        assert forall|k: int| 0 < k < n implies #[trigger] conj_pair(d, k) by {
            if k > h {
                assert(conj_pair(d, n - k));
            }
        }
    }
}

} // verus!
