//! Transforms of complex samples (CFFT), one function per size.
//!
//! Each transform works in place and hands the buffer back, now holding the
//! frequency bins in the order 0, 1, ..., N-1. No scaling is applied. The bins
//! are the radix-2 decimation-in-time transform [`dit`] of the samples, which
//! over exact scalars is their discrete Fourier transform
//! ([`crate::dft::lemma_dit_is_dft`]).
use crate::cfft::{dit, transform};
use crate::sample::Complex;
use crate::scalar::Scalar;
use vstd::arithmetic::power2::lemma2_to64;
use vstd::prelude::*;

verus! {

/// Performs an in-place 2-point CFFT.
#[inline]
#[must_use]
pub fn cfft_2<T: Scalar>(input: &mut [Complex<T>; 2]) -> (out: &mut [Complex<T>; 2])
    ensures
        out@ == dit(old(input)@),
        *final(input) == *final(out),
{
    proof {
        lemma2_to64();
    }
    transform(input, 1);
    input
}

/// Performs an in-place 4-point CFFT.
#[inline]
#[must_use]
pub fn cfft_4<T: Scalar>(input: &mut [Complex<T>; 4]) -> (out: &mut [Complex<T>; 4])
    ensures
        out@ == dit(old(input)@),
        *final(input) == *final(out),
{
    proof {
        lemma2_to64();
    }
    transform(input, 2);
    input
}

/// Performs an in-place 8-point CFFT.
#[inline]
#[must_use]
pub fn cfft_8<T: Scalar>(input: &mut [Complex<T>; 8]) -> (out: &mut [Complex<T>; 8])
    ensures
        out@ == dit(old(input)@),
        *final(input) == *final(out),
{
    proof {
        lemma2_to64();
    }
    transform(input, 3);
    input
}

/// Performs an in-place 16-point CFFT.
#[inline]
#[must_use]
pub fn cfft_16<T: Scalar>(input: &mut [Complex<T>; 16]) -> (out: &mut [Complex<T>; 16])
    ensures
        out@ == dit(old(input)@),
        *final(input) == *final(out),
{
    proof {
        lemma2_to64();
    }
    transform(input, 4);
    input
}

/// Performs an in-place 32-point CFFT.
#[inline]
#[must_use]
pub fn cfft_32<T: Scalar>(input: &mut [Complex<T>; 32]) -> (out: &mut [Complex<T>; 32])
    ensures
        out@ == dit(old(input)@),
        *final(input) == *final(out),
{
    proof {
        lemma2_to64();
    }
    transform(input, 5);
    input
}

/// Performs an in-place 64-point CFFT.
#[inline]
#[must_use]
pub fn cfft_64<T: Scalar>(input: &mut [Complex<T>; 64]) -> (out: &mut [Complex<T>; 64])
    ensures
        out@ == dit(old(input)@),
        *final(input) == *final(out),
{
    proof {
        lemma2_to64();
    }
    transform(input, 6);
    input
}

/// Performs an in-place 128-point CFFT.
#[inline]
#[must_use]
pub fn cfft_128<T: Scalar>(input: &mut [Complex<T>; 128]) -> (out: &mut [Complex<T>; 128])
    ensures
        out@ == dit(old(input)@),
        *final(input) == *final(out),
{
    proof {
        lemma2_to64();
    }
    transform(input, 7);
    input
}

/// Performs an in-place 256-point CFFT.
#[inline]
#[must_use]
pub fn cfft_256<T: Scalar>(input: &mut [Complex<T>; 256]) -> (out: &mut [Complex<T>; 256])
    ensures
        out@ == dit(old(input)@),
        *final(input) == *final(out),
{
    proof {
        lemma2_to64();
    }
    transform(input, 8);
    input
}

/// Performs an in-place 512-point CFFT.
#[inline]
#[must_use]
pub fn cfft_512<T: Scalar>(input: &mut [Complex<T>; 512]) -> (out: &mut [Complex<T>; 512])
    ensures
        out@ == dit(old(input)@),
        *final(input) == *final(out),
{
    proof {
        lemma2_to64();
    }
    transform(input, 9);
    input
}

/// Performs an in-place 1024-point CFFT.
#[inline]
#[must_use]
pub fn cfft_1024<T: Scalar>(input: &mut [Complex<T>; 1024]) -> (out: &mut [Complex<T>; 1024])
    ensures
        out@ == dit(old(input)@),
        *final(input) == *final(out),
{
    proof {
        lemma2_to64();
    }
    transform(input, 10);
    input
}

/// Performs an in-place 2048-point CFFT.
#[inline]
#[must_use]
pub fn cfft_2048<T: Scalar>(input: &mut [Complex<T>; 2048]) -> (out: &mut [Complex<T>; 2048])
    ensures
        out@ == dit(old(input)@),
        *final(input) == *final(out),
{
    proof {
        lemma2_to64();
    }
    transform(input, 11);
    input
}

/// Performs an in-place 4096-point CFFT.
#[inline]
#[must_use]
pub fn cfft_4096<T: Scalar>(input: &mut [Complex<T>; 4096]) -> (out: &mut [Complex<T>; 4096])
    ensures
        out@ == dit(old(input)@),
        *final(input) == *final(out),
{
    proof {
        lemma2_to64();
    }
    transform(input, 12);
    input
}

/// Performs an in-place 8192-point CFFT.
#[inline]
#[must_use]
pub fn cfft_8192<T: Scalar>(input: &mut [Complex<T>; 8192]) -> (out: &mut [Complex<T>; 8192])
    ensures
        out@ == dit(old(input)@),
        *final(input) == *final(out),
{
    proof {
        lemma2_to64();
    }
    transform(input, 13);
    input
}

/// Performs an in-place 16384-point CFFT.
#[inline]
#[must_use]
pub fn cfft_16384<T: Scalar>(input: &mut [Complex<T>; 16384]) -> (out: &mut [Complex<T>; 16384])
    ensures
        out@ == dit(old(input)@),
        *final(input) == *final(out),
{
    proof {
        lemma2_to64();
    }
    transform(input, 14);
    input
}

} // verus!
