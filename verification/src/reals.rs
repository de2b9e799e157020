//! Transforms of real samples (RFFT), one function per size.
//!
//! A transform of `N` real samples computes through a complex transform of
//! half the size. Its buffer has `N/2` complex slots and holds the samples two
//! to a slot: slot `k` holds sample `2k` as its real and sample `2k + 1` as its
//! imaginary part ([`crate::rfft::pack_samples`] fills such a buffer). The
//! transform works in place and hands the buffer back, now holding bins 0 to
//! `N/2 - 1` of the spectrum; the bins above are the conjugates of those below
//! and are not computed. The coefficient at the Nyquist frequency, bin `N/2`,
//! is real, as bin 0 is: it is stored in the imaginary part of bin 0.
//!
//! The bins are [`rfft_spec`] of the samples, which over exact scalars are the
//! bins of their discrete Fourier transform
//! ([`crate::consistency::lemma_rfft_is_dft`]).
use crate::rfft::{real_transform, rfft_spec, samples};
use crate::sample::Complex;
use crate::scalar::Scalar;
use vstd::arithmetic::power2::lemma2_to64;
use vstd::prelude::*;

verus! {

/// Performs an in-place 2-point RFFT.
#[inline]
#[must_use]
pub fn rfft_2<T: Scalar>(input: &mut [Complex<T>; 1]) -> (out: &mut [Complex<T>; 1])
    ensures
        out@ == rfft_spec(samples(old(input)@)),
        *final(input) == *final(out),
{
    proof {
        lemma2_to64();
    }
    real_transform(input, 0);
    input
}

/// Performs an in-place 4-point RFFT.
#[inline]
#[must_use]
pub fn rfft_4<T: Scalar>(input: &mut [Complex<T>; 2]) -> (out: &mut [Complex<T>; 2])
    ensures
        out@ == rfft_spec(samples(old(input)@)),
        *final(input) == *final(out),
{
    proof {
        lemma2_to64();
    }
    real_transform(input, 1);
    input
}

/// Performs an in-place 8-point RFFT.
#[inline]
#[must_use]
pub fn rfft_8<T: Scalar>(input: &mut [Complex<T>; 4]) -> (out: &mut [Complex<T>; 4])
    ensures
        out@ == rfft_spec(samples(old(input)@)),
        *final(input) == *final(out),
{
    proof {
        lemma2_to64();
    }
    real_transform(input, 2);
    input
}

/// Performs an in-place 16-point RFFT.
#[inline]
#[must_use]
pub fn rfft_16<T: Scalar>(input: &mut [Complex<T>; 8]) -> (out: &mut [Complex<T>; 8])
    ensures
        out@ == rfft_spec(samples(old(input)@)),
        *final(input) == *final(out),
{
    proof {
        lemma2_to64();
    }
    real_transform(input, 3);
    input
}

/// Performs an in-place 32-point RFFT.
#[inline]
#[must_use]
pub fn rfft_32<T: Scalar>(input: &mut [Complex<T>; 16]) -> (out: &mut [Complex<T>; 16])
    ensures
        out@ == rfft_spec(samples(old(input)@)),
        *final(input) == *final(out),
{
    proof {
        lemma2_to64();
    }
    real_transform(input, 4);
    input
}

/// Performs an in-place 64-point RFFT.
#[inline]
#[must_use]
pub fn rfft_64<T: Scalar>(input: &mut [Complex<T>; 32]) -> (out: &mut [Complex<T>; 32])
    ensures
        out@ == rfft_spec(samples(old(input)@)),
        *final(input) == *final(out),
{
    proof {
        lemma2_to64();
    }
    real_transform(input, 5);
    input
}

/// Performs an in-place 128-point RFFT.
#[inline]
#[must_use]
pub fn rfft_128<T: Scalar>(input: &mut [Complex<T>; 64]) -> (out: &mut [Complex<T>; 64])
    ensures
        out@ == rfft_spec(samples(old(input)@)),
        *final(input) == *final(out),
{
    proof {
        lemma2_to64();
    }
    real_transform(input, 6);
    input
}

/// Performs an in-place 256-point RFFT.
#[inline]
#[must_use]
pub fn rfft_256<T: Scalar>(input: &mut [Complex<T>; 128]) -> (out: &mut [Complex<T>; 128])
    ensures
        out@ == rfft_spec(samples(old(input)@)),
        *final(input) == *final(out),
{
    proof {
        lemma2_to64();
    }
    real_transform(input, 7);
    input
}

/// Performs an in-place 512-point RFFT.
#[inline]
#[must_use]
pub fn rfft_512<T: Scalar>(input: &mut [Complex<T>; 256]) -> (out: &mut [Complex<T>; 256])
    ensures
        out@ == rfft_spec(samples(old(input)@)),
        *final(input) == *final(out),
{
    proof {
        lemma2_to64();
    }
    real_transform(input, 8);
    input
}

/// Performs an in-place 1024-point RFFT.
#[inline]
#[must_use]
pub fn rfft_1024<T: Scalar>(input: &mut [Complex<T>; 512]) -> (out: &mut [Complex<T>; 512])
    ensures
        out@ == rfft_spec(samples(old(input)@)),
        *final(input) == *final(out),
{
    proof {
        lemma2_to64();
    }
    real_transform(input, 9);
    input
}

/// Performs an in-place 2048-point RFFT.
#[inline]
#[must_use]
pub fn rfft_2048<T: Scalar>(input: &mut [Complex<T>; 1024]) -> (out: &mut [Complex<T>; 1024])
    ensures
        out@ == rfft_spec(samples(old(input)@)),
        *final(input) == *final(out),
{
    proof {
        lemma2_to64();
    }
    real_transform(input, 10);
    input
}

/// Performs an in-place 4096-point RFFT.
#[inline]
#[must_use]
pub fn rfft_4096<T: Scalar>(input: &mut [Complex<T>; 2048]) -> (out: &mut [Complex<T>; 2048])
    ensures
        out@ == rfft_spec(samples(old(input)@)),
        *final(input) == *final(out),
{
    proof {
        lemma2_to64();
    }
    real_transform(input, 11);
    input
}

/// Performs an in-place 8192-point RFFT.
#[inline]
#[must_use]
pub fn rfft_8192<T: Scalar>(input: &mut [Complex<T>; 4096]) -> (out: &mut [Complex<T>; 4096])
    ensures
        out@ == rfft_spec(samples(old(input)@)),
        *final(input) == *final(out),
{
    proof {
        lemma2_to64();
    }
    real_transform(input, 12);
    input
}

/// Performs an in-place 16384-point RFFT.
#[inline]
#[must_use]
pub fn rfft_16384<T: Scalar>(input: &mut [Complex<T>; 8192]) -> (out: &mut [Complex<T>; 8192])
    ensures
        out@ == rfft_spec(samples(old(input)@)),
        *final(input) == *final(out),
{
    proof {
        lemma2_to64();
    }
    real_transform(input, 13);
    input
}

} // verus!
