//! In-place radix-2 fast Fourier transforms on fixed-size buffers.
//!
//! The transforms are generic over the [`Scalar`] they compute with, which
//! may round. Every transform states, operation by operation, which value it
//! leaves in each slot. For a scalar with exact arithmetic ([`Exact`], such
//! as [`Mersenne31`]) that value is proved to be the discrete Fourier
//! transform.
pub mod algebra;
pub mod bitrev;
pub mod cfft;
pub mod complex;
pub mod consistency;
pub mod dft;
pub mod linear;
pub mod mersenne;
pub mod pairs;
pub mod reals;
pub mod rfft;
pub mod sample;
pub mod scalar;
pub mod symmetry;
pub mod twiddle;

pub use algebra::{Exact, Ring};
pub use mersenne::Mersenne31;
pub use sample::Complex;
pub use scalar::Scalar;
pub use twiddle::{HALF, MAX_N, QUARTER};
