//! The discrete Fourier transform as a sum, and the proof that the radix-2
//! transform computes it when the scalars compute exactly.
use crate::algebra::{
    all_members, is_member, lemma_complex_add_assoc, lemma_complex_add_interchange,
    lemma_complex_add_zero,
    lemma_complex_distributive, lemma_complex_mul_assoc, lemma_complex_mul_zero,
    lemma_complex_neg_mul, lemma_complex_neg_neg, lemma_complex_one_mul,
    lemma_complex_sub_is_add_neg, Exact, Ring,
};
use crate::cfft::{dit, evens, lemma_dit_len, odds, rotate};
use crate::linear::lemma_dit_members;
use crate::sample::Complex;
use crate::scalar::Scalar;
use crate::twiddle::unit_spec;
use vstd::arithmetic::div_mod::{
    lemma_add_mod_noop, lemma_fundamental_div_mod_converse, lemma_mod_multiples_vanish,
};
use vstd::arithmetic::power2::{
    lemma2_to64, lemma_pow2_adds, lemma_pow2_pos, lemma_pow2_unfold, pow2,
};
use vstd::prelude::*;

verus! {

/// The point `exp(-2*pi*i*m/16384)` of the unit circle for any `m >= 0`: the
/// table covers the first half turn, and half a turn on is the negative.
pub open spec fn turn_spec<T: Scalar>(m: int) -> Complex<T> {
    let r = m % 16384;
    if r < 8192 {
        unit_spec::<T>(r)
    } else {
        unit_spec::<T>(r - 8192).neg_spec()
    }
}

/// The power `exp(-2*pi*i*e/n)` of the `n`th root of unity, for `e >= 0` and
/// `n` a power of two up to 16384.
pub open spec fn root_spec<T: Scalar>(e: int, n: int) -> Complex<T> {
    turn_spec::<T>(e * (16384int / n))
}

/// The sum `f(0) + f(1) + ... + f(n - 1)`.
pub open spec fn sum<T: Scalar>(f: spec_fn(int) -> Complex<T>, n: nat) -> Complex<T>
    decreases n,
{
    if n == 0 {
        Complex::zero_spec()
    } else {
        sum(f, (n - 1) as nat).add_spec(f(n - 1))
    }
}

/// Term `j` of bin `k` of the discrete Fourier transform of `x`:
/// `exp(-2*pi*i*j*k/N) * x[j]`.
pub open spec fn dft_term<T: Scalar>(x: Seq<Complex<T>>, k: int) -> spec_fn(int) -> Complex<T> {
    |j: int| root_spec::<T>(j * k, x.len() as int).mul_spec(x[j])
}

/// Bin `k` of the discrete Fourier transform of the `N` samples `x`: the sum
/// of `exp(-2*pi*i*j*k/N) * x[j]` over `j` from 0 to `N - 1`.
pub open spec fn dft_bin<T: Scalar>(x: Seq<Complex<T>>, k: int) -> Complex<T> {
    sum(dft_term(x, k), x.len())
}

/// The discrete Fourier transform of `x`.
pub open spec fn dft<T: Scalar>(x: Seq<Complex<T>>) -> Seq<Complex<T>> {
    Seq::new(x.len(), |k: int| dft_bin(x, k))
}

/// The points of the table are made of elements of the ring.
proof fn lemma_unit_member<T: Exact>(m: int)
    requires
        0 <= m < 8192,
    ensures
        is_member(unit_spec::<T>(m)),
        is_member(unit_spec::<T>(m).neg_spec()),
{
    let z = T::zero_spec();
    T::lemma_sine_member(m as usize);
    T::lemma_sine_member((4096 - m) as usize);
    T::lemma_sine_member((m - 4096) as usize);
    T::lemma_sine_member((8192 - m) as usize);
    T::lemma_closed(T::sine_spec(m as usize), z);
    T::lemma_closed(T::sine_spec((m - 4096) as usize), z);
    T::lemma_closed(T::sine_spec((8192 - m) as usize), z);
    T::lemma_closed(unit_spec::<T>(m).re, z);
    T::lemma_closed(unit_spec::<T>(m).im, z);
}

/// The product of two points of the unit circle is the point at the sum of
/// their angles.
pub proof fn lemma_turn_add<T: Exact>(a: int, b: int)
    requires
        0 <= a,
        0 <= b,
    ensures
        turn_spec::<T>(a).mul_spec(turn_spec::<T>(b)) == turn_spec::<T>(a + b),
{
    let ra = a % 16384;
    let rb = b % 16384;
    let ua = if ra < 8192 {
        ra
    } else {
        ra - 8192
    };
    let ub = if rb < 8192 {
        rb
    } else {
        rb - 8192
    };
    let (pa, pb) = (unit_spec::<T>(ua), unit_spec::<T>(ub));
    let product = pa.mul_spec(pb);
    let r = (a + b) % 16384;
    let ur = if r < 8192 {
        r
    } else {
        r - 8192
    };
    let pr = unit_spec::<T>(ur);
    lemma_add_mod_noop(a, b, 16384);
    T::lemma_unit_mul(ua, ub);
    lemma_unit_member::<T>(ua);
    lemma_unit_member::<T>(ub);
    lemma_unit_member::<T>(ur);
    lemma_complex_neg_mul(pa, pb);
    lemma_complex_neg_mul(pa, pb.neg_spec());
    lemma_complex_neg_neg(pr);
    assert(ur == if ua + ub < 8192 {
        ua + ub
    } else {
        ua + ub - 8192
    });
    assert(product == pr || product == pr.neg_spec());
}

/// The points of the unit circle repeat after a full turn.
proof fn lemma_turn_periodic<T: Exact>(m: int, j: int)
    requires
        0 <= m,
        0 <= j,
    ensures
        turn_spec::<T>(m + 16384 * j) == turn_spec::<T>(m),
{
    lemma_mod_multiples_vanish(j, m, 16384);
}

/// Sums of functions that agree term by term are equal.
proof fn lemma_sum_ext<T: Scalar>(
    f: spec_fn(int) -> Complex<T>,
    g: spec_fn(int) -> Complex<T>,
    n: nat,
)
    requires
        forall|j: int| 0 <= j < n ==> #[trigger] f(j) == g(j),
    ensures
        sum(f, n) == sum(g, n),
    decreases n,
{
    if n > 0 {
        lemma_sum_ext(f, g, (n - 1) as nat);
        assert(f(n - 1) == g(n - 1));
    }
}

/// A sum over `2h` terms is the sum of its even terms plus the sum of its odd
/// terms.
proof fn lemma_sum_split<T: Ring>(
    f: spec_fn(int) -> Complex<T>,
    fe: spec_fn(int) -> Complex<T>,
    fo: spec_fn(int) -> Complex<T>,
    h: nat,
)
    requires
        forall|j: int| 0 <= j < h ==> #[trigger] fe(j) == f(2 * j),
        forall|j: int| 0 <= j < h ==> #[trigger] fo(j) == f(2 * j + 1),
    ensures
        sum(f, 2 * h) == sum(fe, h).add_spec(sum(fo, h)),
    decreases h,
{
    if h == 0 {
        assert(sum(f, 0) == Complex::<T>::zero_spec());
        assert(sum(fe, 0) == Complex::<T>::zero_spec());
        assert(sum(fo, 0) == Complex::<T>::zero_spec());
        T::lemma_closed(T::zero_spec(), T::zero_spec());
        lemma_complex_add_zero(Complex::<T>::zero_spec());
    } else {
        let g = (h - 1) as nat;
        lemma_sum_split(f, fe, fo, g);
        let (p, q) = (fe(h - 1), fo(h - 1));
        assert(p == f(2 * (h - 1)));
        assert(q == f(2 * (h - 1) + 1));
        assert(sum(f, 2 * h) == sum(f, (2 * h - 1) as nat).add_spec(f(2 * h - 1)));
        assert(sum(f, (2 * h - 1) as nat) == sum(f, (2 * h - 2) as nat).add_spec(f(2 * h - 2)));
        assert(sum(f, 2 * g) == sum(f, (2 * h - 2) as nat));
        lemma_complex_add_assoc(sum(fe, g).add_spec(sum(fo, g)), p, q);
        lemma_complex_add_interchange(sum(fe, g), sum(fo, g), p, q);
    }
}

/// A sum of multiples is the multiple of the sum.
proof fn lemma_sum_scale<T: Ring>(
    c: Complex<T>,
    f: spec_fn(int) -> Complex<T>,
    g: spec_fn(int) -> Complex<T>,
    n: nat,
)
    requires
        forall|j: int| 0 <= j < n ==> #[trigger] g(j) == c.mul_spec(f(j)),
    ensures
        sum(g, n) == c.mul_spec(sum(f, n)),
    decreases n,
{
    if n == 0 {
        lemma_complex_mul_zero(c);
    } else {
        lemma_sum_scale(c, f, g, (n - 1) as nat);
        assert(g(n - 1) == c.mul_spec(f(n - 1)));
        lemma_complex_distributive(c, sum(f, (n - 1) as nat), f(n - 1));
    }
}

/// The step between table entries that a transform of `2^bits` samples takes.
proof fn lemma_step(bits: nat)
    requires
        bits <= 14,
    ensures
        pow2(bits) * pow2((14 - bits) as nat) == 16384,
        16384int / (pow2(bits) as int) == pow2((14 - bits) as nat),
        pow2(bits) > 0,
        pow2((14 - bits) as nat) > 0,
{
    lemma2_to64();
    lemma_pow2_adds(bits, (14 - bits) as nat);
    lemma_pow2_pos(bits);
    lemma_pow2_pos((14 - bits) as nat);
    let (n, s) = (pow2(bits) as int, pow2((14 - bits) as nat) as int);
    assert(n * s == 16384);
    lemma_fundamental_div_mod_converse(16384, n, s, 0);
}

/// The angles of the terms of bin `k` of a transform of `2h` samples, in
/// table steps: term `2j` stands at the angle of term `j` of bin `kk` of a
/// transform of `h` samples, up to full turns, and term `2j + 1` one step of
/// `k` further.
proof fn lemma_angles(j: int, k: int, kk: int, h: int, s: int)
    requires
        0 <= j,
        0 <= kk,
        k == kk || k == kk + h,
        0 < h,
        0 < s,
        2 * h * s == 16384,
    ensures
        (2 * j) * k * s == j * kk * (2 * s) + 16384 * (if k == kk {
            0
        } else {
            j
        }),
        (2 * j + 1) * k * s == k * s + (2 * j) * k * s,
        0 <= (2 * j) * k * s,
        0 <= j * kk * (2 * s),
        0 <= k * s,
{
    assert((2 * j) * k * s == j * k * (2 * s)) by (nonlinear_arith);
    assert((2 * j + 1) * k * s == k * s + (2 * j) * k * s) by (nonlinear_arith);
    assert(0 <= j * kk * (2 * s) && 0 <= k * s && 0 <= (2 * j) * k * s) by (nonlinear_arith)
        requires
            0 <= j,
            0 <= kk,
            0 <= k,
            0 < s,
    ;
    if k != kk {
        assert(j * (kk + h) * (2 * s) == j * kk * (2 * s) + j * (2 * h * s)) by (nonlinear_arith);
    }
}

/// Bin `k` of the transform of `2h` samples is bin `k mod h` of the transform
/// of the even samples plus the `k`th power of the root of unity times bin
/// `k mod h` of the transform of the odd samples.
proof fn lemma_dft_step<T: Exact>(x: Seq<Complex<T>>, bits: nat, k: int, kk: int)
    requires
        1 <= bits <= 14,
        x.len() == pow2(bits),
        0 <= k < x.len(),
        0 <= kk,
        k == kk || k == kk + x.len() / 2,
    ensures
        dft_bin(x, k) == dft_bin(evens(x), kk).add_spec(
            root_spec::<T>(k, x.len() as int).mul_spec(dft_bin(odds(x), kk)),
        ),
{
    let n = x.len() as int;
    let h = n / 2;
    lemma_pow2_unfold(bits);
    lemma_step(bits);
    lemma_step((bits - 1) as nat);
    let s = 16384int / n;
    let t = 16384int / h;
    assert(t == 2 * s) by {
        lemma_pow2_unfold((14 - (bits - 1)) as nat);
    }
    assert(evens(x).len() == h && odds(x).len() == h);
    let w = root_spec::<T>(k, n);
    let f = dft_term(x, k);
    let fe = dft_term(evens(x), kk);
    let fo = dft_term(odds(x), kk);
    let fw = |j: int| w.mul_spec(fo(j));
    assert forall|j: int|
        #![trigger fe(j)]
        0 <= j < h implies fe(j) == f(2 * j) && fw(j) == f(2 * j + 1) by {
        lemma_angles(j, k, kk, h, s);
        let even = (2 * j) * k * s;
        let turns = if k == kk {
            0
        } else {
            j
        };
        lemma_turn_periodic::<T>(j * kk * t, turns);
        assert(root_spec::<T>((2 * j) * k, n) == root_spec::<T>(j * kk, h));
        lemma_turn_add::<T>(k * s, even);
        assert(root_spec::<T>((2 * j + 1) * k, n) == w.mul_spec(root_spec::<T>(j * kk, h)));
        lemma_complex_mul_assoc(w, root_spec::<T>(j * kk, h), x[2 * j + 1]);
    }
    assert forall|j: int| 0 <= j < h implies #[trigger] fw(j) == f(2 * j + 1) by {
        assert(fe(j) == f(2 * j) && fw(j) == f(2 * j + 1));
    }
    lemma_sum_split(f, fe, fw, h as nat);
    lemma_sum_scale(w, fo, fw, h as nat);
}

/// With exact scalars, the radix-2 transform of a buffer of `N` elements of
/// the ring is its discrete Fourier transform: bin `k` is the sum of
/// `exp(-2*pi*i*j*k/N) * x[j]` over all `j`.
pub proof fn lemma_dit_is_dft<T: Exact>(x: Seq<Complex<T>>, bits: nat)
    requires
        bits <= 14,
        x.len() == pow2(bits),
        all_members(x),
    ensures
        dit(x) == dft(x),
    decreases bits,
{
    lemma2_to64();
    lemma_dit_len(x, bits);
    let n = x.len() as int;
    if bits == 0 {
        let f = dft_term(x, 0);
        assert(sum(f, 1) == sum(f, 0).add_spec(f(0)));
        assert(sum(f, 0) == Complex::<T>::zero_spec());
        assert(is_member(x[0]));
        lemma_complex_one_mul(x[0]);
        lemma_complex_add_zero(x[0]);
        assert(dft_bin(x, 0) == x[0]);
        assert(dit(x) =~= dft(x));
    } else {
        let b = (bits - 1) as nat;
        let h = n / 2;
        lemma_pow2_unfold(bits);
        lemma_pow2_pos(b);
        lemma_step(bits);
        let s = 16384int / n;
        let (xe, xo) = (evens(x), odds(x));
        assert(all_members(xe)) by {
            assert forall|j: int| 0 <= j < xe.len() implies #[trigger] is_member(xe[j]) by {
                assert(is_member(x[2 * j]));
            }
        }
        assert(all_members(xo)) by {
            assert forall|j: int| 0 <= j < xo.len() implies #[trigger] is_member(xo[j]) by {
                assert(is_member(x[2 * j + 1]));
            }
        }
        lemma_dit_is_dft(xe, b);
        lemma_dit_is_dft(xo, b);
        lemma_dit_len(xe, b);
        lemma_dit_len(xo, b);
        lemma_dit_members(xo, b);
        let (e, o) = (dit(xe), dit(xo));
        assert forall|k: int| 0 <= k < n implies dit(x)[k] == dft_bin(x, k) by {
            let kk = if k < h {
                k
            } else {
                k - h
            };
            lemma_dft_step(x, bits, k, kk);
            assert(e[kk] == dft_bin(xe, kk));
            assert(o[kk] == dft_bin(xo, kk));
            assert(is_member(o[kk]));
            let w = root_spec::<T>(k, n);
            let u = unit_spec::<T>(kk * s);
            assert(0 <= kk * s < 8192 && (kk + h) * s == kk * s + 8192 && (kk == 0 ==> kk * s
                == 0)) by (nonlinear_arith)
                requires
                    n * s == 16384,
                    n == 2 * h,
                    0 <= kk < h,
                    0 < s,
            ;
            assert(w == if k < h {
                u
            } else {
                u.neg_spec()
            });
            assert(u.mul_spec(o[kk]) == rotate(kk, n, o[kk])) by {
                if kk == 0 {
                    lemma_complex_one_mul(o[kk]);
                }
            }
            if k >= h {
                lemma_complex_neg_mul(u, o[kk]);
                lemma_complex_sub_is_add_neg(e[kk], u.mul_spec(o[kk]));
            }
        }
        assert(dit(x) =~= dft(x));
    }
}

} // verus!
