//! The real transform: the samples are held two to a complex slot, transformed
//! at half size, and the bins of the real spectrum are recovered from the
//! symmetry of the result.
use crate::cfft::{dit, transform};
use crate::sample::Complex;
use crate::scalar::Scalar;
use crate::twiddle::{is_size, lemma_stride, twiddle_spec, unit, MAX_N};
use vstd::arithmetic::power2::{lemma2_to64, lemma_pow2_strictly_increases, lemma_pow2_unfold, pow2};
use vstd::prelude::*;

verus! {

/// The real samples `x`, two to a slot: slot `k` holds sample `2k` as its real
/// and sample `2k + 1` as its imaginary part.
pub open spec fn pack<T>(x: Seq<T>) -> Seq<Complex<T>> {
    Seq::new((x.len() / 2) as nat, |k: int| Complex { re: x[2 * k], im: x[2 * k + 1] })
}

/// The real samples that the slots `z` hold.
pub open spec fn samples<T>(z: Seq<Complex<T>>) -> Seq<T> {
    Seq::new(
        2 * z.len(),
        |i: int|
            if i % 2 == 0 {
                z[i / 2].re
            } else {
                z[i / 2].im
            },
    )
}

/// Bin `k` of the real spectrum from bin `k` (`zk`) and bin `h - k` (`zm`) of
/// the transform of the packed samples, with `w = exp(-2*pi*i*k/(2h))`.
///
/// `(zk + conj(zm)) / 2` is bin `k` of the transform of the even samples, and
/// `(zk - conj(zm)) / 2` is `i` times bin `k` of the transform of the odd
/// samples; the bin is the first plus `w` times the second without its `i`.
pub open spec fn recombine_spec<T: Scalar>(
    zk: Complex<T>,
    zm: Complex<T>,
    w: Complex<T>,
) -> Complex<T> {
    let even = zk.add_spec(zm.conj_spec()).half_spec();
    let odd = zk.sub_spec(zm.conj_spec()).half_spec().mul_neg_i_spec();
    even.add_spec(w.mul_spec(odd))
}

/// The first `h` bins of the real spectrum from the transform `z`, of size
/// `h`, of the packed samples. Bin 0 and the bin at the Nyquist frequency are
/// real: they share slot 0, the first as its real, the second as its imaginary
/// part.
pub open spec fn unpacked<T: Scalar>(z: Seq<Complex<T>>) -> Seq<Complex<T>> {
    let h = z.len() as int;
    Seq::new(
        z.len(),
        |k: int|
            if k == 0 {
                Complex { re: z[0].re.add_spec(z[0].im), im: z[0].re.sub_spec(z[0].im) }
            } else {
                recombine_spec(z[k], z[h - k], twiddle_spec::<T>(k, 2 * h))
            },
    )
}

/// The real transform of the samples `x`, whose number is a power of two: for
/// `N` samples, bins 0 to `N/2 - 1` of their spectrum, with the real bin `N/2`
/// in the imaginary part of bin 0.
pub open spec fn rfft_spec<T: Scalar>(x: Seq<T>) -> Seq<Complex<T>> {
    unpacked(dit(pack(x)))
}

/// The real transform of two samples is their sum, with their difference, the
/// coefficient at the Nyquist frequency, as its imaginary part.
pub proof fn lemma_rfft_of_two<T: Scalar>(a: T, b: T)
    ensures
        rfft_spec(seq![a, b]) == seq![(Complex { re: a.add_spec(b), im: a.sub_spec(b) })],
{
    let z = pack(seq![a, b]);
    assert(z =~= seq![(Complex { re: a, im: b })]);
    assert(dit(z) == z);
    assert(unpacked(z) =~= seq![(Complex { re: a.add_spec(b), im: a.sub_spec(b) })]);
}

/// Packing the samples that slots hold gives the slots back.
pub proof fn lemma_pack_samples<T>(z: Seq<Complex<T>>)
    ensures
        pack(samples(z)) =~= z,
        samples(z).len() == 2 * z.len(),
{
}

/// Copies real samples into the slots of a buffer, two to a slot.
pub fn pack_samples<T: Copy>(x: &[T], slots: &mut [Complex<T>])
    requires
        x@.len() == 2 * old(slots)@.len(),
    ensures
        final(slots)@ == pack(x@),
{
    let h: usize = slots.len();
    let n: usize = x.len();
    let mut k: usize = 0;
    while k < h
        invariant
            k <= h,
            slots@.len() == h,
            x@.len() == n,
            n == 2 * h,
            forall|i: int| 0 <= i < k ==> slots@[i] == pack(x@)[i],
        decreases h - k,
    {
        slots[k] = Complex { re: x[2 * k], im: x[2 * k + 1] };
        k = k + 1;
    }
    assert(slots@ =~= pack(x@));
}

/// The real sample at index `i` of a buffer that holds them two to a slot.
pub fn sample<T: Copy>(slots: &[Complex<T>], i: usize) -> (r: T)
    requires
        i < 2 * slots@.len(),
    ensures
        r == samples(slots@)[i as int],
{
    if i % 2 == 0 {
        slots[i / 2].re
    } else {
        slots[i / 2].im
    }
}

/// Recovers one bin of the real spectrum.
#[inline]
pub fn recombine<T: Scalar>(zk: Complex<T>, zm: Complex<T>, w: Complex<T>) -> (r: Complex<T>)
    ensures
        r == recombine_spec(zk, zm, w),
{
    let mirrored: Complex<T> = zm.conj();
    let even: Complex<T> = zk.add(mirrored).half();
    let odd: Complex<T> = zk.sub(mirrored).half().mul_neg_i();
    even.add(w.mul(odd))
}

/// Recovers, in place, the bins of the real spectrum from the transform of the
/// packed samples, which fills the `2^bits` slots of `buf`.
#[inline]
pub fn unpack<T: Scalar>(buf: &mut [Complex<T>], bits: u32)
    requires
        bits <= 13,
        old(buf)@.len() == pow2(bits as nat),
    ensures
        final(buf)@ == unpacked(old(buf)@),
{
    let h: usize = buf.len();
    proof {
        lemma2_to64();
        lemma_pow2_unfold((bits + 1) as nat);
        if bits < 13 {
            lemma_pow2_strictly_increases(bits as nat, 13);
        }
        assert(is_size(2 * h as int)) by {
            assert(2 * h == pow2((bits + 1) as nat));
        }
        lemma_stride(0, 2 * h as int);
        if bits > 0 {
            lemma_pow2_unfold(bits as nat);
        }
    }
    let stride: usize = MAX_N / (2 * h);
    let z0: Complex<T> = buf[0];
    buf[0] = Complex { re: z0.re.add(z0.im), im: z0.re.sub(z0.im) };
    let mut k: usize = 1;
    while k < h - k
        invariant
            1 <= k <= h,
            2 * k <= h || h == 1,
            h % 2 == 0 || h == 1,
            h <= 8192,
            is_size(2 * h as int),
            stride == 16384int / (2 * h as int),
            buf@.len() == h,
            old(buf)@.len() == h,
            forall|i: int|
                #![trigger buf@[i]]
                0 <= i < h ==> buf@[i] == if i < k || h - k < i {
                    unpacked(old(buf)@)[i]
                } else {
                    old(buf)@[i]
                },
        decreases h - k,
    {
        let m: usize = h - k;
        let ghost before = buf@;
        proof {
            lemma_stride(k as int, 2 * h as int);
            lemma_stride(m as int, 2 * h as int);
        }
        let zk: Complex<T> = buf[k];
        let zm: Complex<T> = buf[m];
        assert(zk == before[k as int] && zm == before[m as int]);
        buf[k] = recombine(zk, zm, unit::<T>(k * stride));
        buf[m] = recombine(zm, zk, unit::<T>(m * stride));
        assert forall|i: int| 0 <= i < h implies buf@[i] == if i < k + 1 || h - (k + 1) < i {
            unpacked(old(buf)@)[i]
        } else {
            old(buf)@[i]
        } by {
            if i != k && i != m {
                assert(buf@[i] == before[i]);
            }
        }
        k = k + 1;
    }
    if h >= 2 {
        let ghost before = buf@;
        proof {
            lemma_stride(k as int, 2 * h as int);
        }
        let zk: Complex<T> = buf[k];
        assert(zk == before[k as int]);
        buf[k] = recombine(zk, zk, unit::<T>(k * stride));
        assert forall|i: int| 0 <= i < h implies buf@[i] == unpacked(old(buf)@)[i] by {
            if i != k {
                assert(buf@[i] == before[i]);
            }
        }
    }
    assert(buf@ =~= unpacked(old(buf)@));
}

/// Transforms in place the `2 * 2^bits` real samples that the slots of `buf`
/// hold two to a slot.
#[inline]
pub fn real_transform<T: Scalar>(buf: &mut [Complex<T>], bits: u32)
    requires
        bits <= 13,
        old(buf)@.len() == pow2(bits as nat),
    ensures
        final(buf)@ == rfft_spec(samples(old(buf)@)),
{
    proof {
        lemma_pack_samples(old(buf)@);
        crate::cfft::lemma_dit_len(old(buf)@, bits as nat);
    }
    transform(buf, bits);
    unpack(buf, bits);
}

} // verus!
