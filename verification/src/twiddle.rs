//! The rotation factors of a transform, read from a quarter-wave sine table.
use crate::sample::Complex;
use crate::scalar::Scalar;
use vstd::arithmetic::power2::{lemma2_to64, lemma_pow2_adds, lemma_pow2_strictly_increases, pow2};
use vstd::prelude::*;

verus! {

/// Largest supported transform size, and the number of table points per turn.
pub const MAX_N: usize = 16384;

/// Half a turn of the table.
pub const HALF: usize = 8192;

/// A quarter turn of the table: the index of its last entry.
pub const QUARTER: usize = 4096;

/// `n` is a supported transform size: a power of two from 2 to 16384.
pub open spec fn is_size(n: int) -> bool {
    exists|b: nat| 1 <= b <= 14 && n == #[trigger] pow2(b)
}

/// The point `exp(-2*pi*i*m/16384)` of the unit circle, for `0 <= m < 8192`,
/// from the symmetries of the sine: `cos(t) = sin(pi/2 - t)` in the first
/// quarter, `cos(t) = -sin(t - pi/2)` and `sin(t) = sin(pi - t)` in the second.
pub open spec fn unit_spec<T: Scalar>(m: int) -> Complex<T> {
    if m <= 4096 {
        Complex {
            re: T::sine_spec((4096 - m) as usize),
            im: T::sine_spec(m as usize).neg_spec(),
        }
    } else {
        Complex {
            re: T::sine_spec((m - 4096) as usize).neg_spec(),
            im: T::sine_spec((8192 - m) as usize).neg_spec(),
        }
    }
}

/// The rotation factor `exp(-2*pi*i*k/n)` of a transform of size `n`, for
/// `0 <= k < n/2`.
pub open spec fn twiddle_spec<T: Scalar>(k: int, n: int) -> Complex<T> {
    unit_spec::<T>(k * (16384int / n))
}

/// Reads the point `exp(-2*pi*i*m/16384)` of the unit circle from the table.
pub fn unit<T: Scalar>(m: usize) -> (w: Complex<T>)
    requires
        m < 8192,
    ensures
        w == unit_spec::<T>(m as int),
{
    if m <= QUARTER {
        Complex { re: T::sine(QUARTER - m), im: T::sine(m).neg() }
    } else {
        Complex { re: T::sine(m - QUARTER).neg(), im: T::sine(HALF - m).neg() }
    }
}

/// The rotation factor `exp(-2*pi*i*k/n)` of a transform of size `n`.
pub fn twiddle<T: Scalar>(k: usize, n: usize) -> (w: Complex<T>)
    requires
        is_size(n as int),
        k < n / 2,
    ensures
        w == twiddle_spec::<T>(k as int, n as int),
{
    proof {
        lemma_stride(k as int, n as int);
    }
    let stride: usize = MAX_N / n;
    unit(k * stride)
}

/// A rotation index of a supported size lands in the first half of the table.
pub proof fn lemma_stride(k: int, n: int)
    requires
        is_size(n),
        0 <= k < n / 2,
    ensures
        2 <= n <= 16384,
        1 <= 16384int / n,
        n * (16384int / n) == 16384,
        0 <= k * (16384int / n) < 8192,
{
    let b = choose|b: nat| 1 <= b <= 14 && n == #[trigger] pow2(b);
    lemma2_to64();
    lemma_pow2_adds(b, (14 - b) as nat);
    let s = pow2((14 - b) as nat) as int;
    assert(n * s == 16384);
    assert(s >= 1) by {
        vstd::arithmetic::power2::lemma_pow2_pos((14 - b) as nat);
    }
    assert(n >= 2) by {
        if b > 1 {
            lemma_pow2_strictly_increases(1, b);
        }
    }
    assert(16384int / n == s) by (nonlinear_arith)
        requires
            n * s == 16384,
            n >= 2,
            s >= 1,
    ;
    assert(k * s < 8192 && k * s >= 0 && n <= 16384) by (nonlinear_arith)
        requires
            n * s == 16384,
            0 <= k < n / 2,
            n >= 2,
            s >= 1,
    ;
}

} // verus!
