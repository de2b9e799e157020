use microfft::mersenne::{Mersenne31, MODULUS};
use microfft::{Complex, Scalar};

const P: u64 = MODULUS as u64;

type Exact = Complex<Mersenne31>;

fn m(v: u64) -> Mersenne31 {
    Mersenne31::new((v % P) as u32)
}

fn c(re: u64, im: u64) -> Exact {
    Complex::new(m(re), m(im))
}

fn pairs(x: &[Exact]) -> Vec<(u32, u32)> {
    x.iter().map(|z| (z.re.value, z.im.value)).collect()
}

/// Product of two complex numbers modulo the prime, from the definition.
fn product(a: (u64, u64), b: (u64, u64)) -> (u64, u64) {
    let re = (a.0 * b.0 % P + P - a.1 * b.1 % P) % P;
    let im = (a.0 * b.1 % P + a.1 * b.0 % P) % P;
    (re, im)
}

/// `exp(-2*pi*i*e/n)`: the conjugate of the generator of order 16384, raised to
/// the power `e * 16384 / n`.
fn root(e: usize, n: usize) -> (u64, u64) {
    let step = (911611454u64, P - 369760450u64);
    let mut result = (1u64, 0u64);
    let mut base = step;
    let mut exponent = (e * (16384 / n)) % 16384;
    while exponent > 0 {
        if exponent % 2 == 1 {
            result = product(result, base);
        }
        base = product(base, base);
        exponent /= 2;
    }
    result
}

/// The discrete Fourier transform as the sum that defines it.
fn naive_dft(x: &[Exact]) -> Vec<(u32, u32)> {
    let n = x.len();
    (0..n)
        .map(|k| {
            let mut acc = (0u64, 0u64);
            for (j, z) in x.iter().enumerate() {
                let term = product(root(j * k, n), (z.re.value as u64, z.im.value as u64));
                acc = ((acc.0 + term.0) % P, (acc.1 + term.1) % P);
            }
            (acc.0 as u32, acc.1 as u32)
        })
        .collect()
}

fn ramp(n: usize) -> Vec<Exact> {
    (0..n as u64).map(|j| c(j * j + 1, 3 * j + 7)).collect()
}

#[test]
fn field_arithmetic() {
    assert_eq!(Mersenne31::new(MODULUS).value, 0);
    assert_eq!(Mersenne31::new(MODULUS + 5).value, 5);
    assert_eq!(Mersenne31::zero().value, 0);
    assert_eq!(m(P - 1).add(m(5)).value, 4);
    assert_eq!(m(3).sub(m(5)).value, MODULUS - 2);
    assert_eq!(m(1 << 16).mul(m(1 << 16)).value, 2);
    assert_eq!(m(1).neg().value, MODULUS - 1);
    assert_eq!(m(0).neg().value, 0);
    assert_eq!(m(8).half().value, 4);
    assert_eq!(m(7).half().value, 1073741827);
    assert_eq!(m(7).half().add(m(7).half()).value, 7);
}

#[test]
fn field_arithmetic_reduces_any_value() {
    let big = Mersenne31 { value: u32::MAX };
    assert_eq!(big.add(big).value, 2);
    assert_eq!(big.mul(big).value, 1);
    assert_eq!(big.neg().value, MODULUS - 1);
    assert_eq!(big.half().value, 1073741824);
}

#[test]
fn sine_table_of_the_field() {
    assert_eq!(Mersenne31::sine(0).value, 0);
    assert_eq!(Mersenne31::sine(1).value, 369760450);
    assert_eq!(Mersenne31::sine(2).value, 1983086613);
    assert_eq!(Mersenne31::sine(2048).value, 32768);
    assert_eq!(Mersenne31::sine(4096).value, 1);
    // sin^2 + cos^2 == 1 along the table
    for i in 0..=4096usize {
        let s = Mersenne31::sine(i);
        let co = Mersenne31::sine(4096 - i);
        assert_eq!(s.mul(s).add(co.mul(co)).value, 1);
    }
}

#[test]
fn exact_cfft_4() {
    let mut x = [c(1, 0), c(2, 0), c(3, 0), c(4, 0)];
    let out = microfft::complex::cfft_4(&mut x);
    assert_eq!(
        pairs(out),
        vec![(10, 0), (2147483645, 2), (2147483645, 0), (2147483645, 2147483645)]
    );
}

#[test]
fn exact_cfft_8() {
    let mut x = [c(0, 0); 8];
    for j in 0..8u64 {
        x[j as usize] = c(j + 1, 2 * j);
    }
    let out = microfft::complex::cfft_8(&mut x);
    assert_eq!(
        pairs(out),
        vec![
            (36, 56),
            (2146959347, 262140),
            (2147483635, 2147483643),
            (2146959363, 262132),
            (2147483643, 2147483639),
            (524276, 2147221499),
            (4, 2147483635),
            (524292, 2147221491)
        ]
    );
}

#[test]
fn exact_cfft_is_the_dft_sum() {
    let mut x2: [Exact; 2] = ramp(2).try_into().unwrap();
    assert_eq!(naive_dft(&ramp(2)), pairs(microfft::complex::cfft_2(&mut x2)));
    let mut x16: [Exact; 16] = ramp(16).try_into().unwrap();
    assert_eq!(naive_dft(&ramp(16)), pairs(microfft::complex::cfft_16(&mut x16)));
    let mut x64: [Exact; 64] = ramp(64).try_into().unwrap();
    assert_eq!(naive_dft(&ramp(64)), pairs(microfft::complex::cfft_64(&mut x64)));
    let mut x256: [Exact; 256] = ramp(256).try_into().unwrap();
    assert_eq!(naive_dft(&ramp(256)), pairs(microfft::complex::cfft_256(&mut x256)));
}

#[test]
fn exact_cfft_16384_spot_bins() {
    let input = ramp(16384);
    let mut x: Vec<Exact> = input.clone();
    microfft::cfft::transform(&mut x, 14);
    for k in [0usize, 1, 2, 4095, 4096, 8191, 8192, 12289, 16383] {
        let mut acc = (0u64, 0u64);
        for (j, z) in input.iter().enumerate() {
            let term = product(root(j * k, 16384), (z.re.value as u64, z.im.value as u64));
            acc = ((acc.0 + term.0) % P, (acc.1 + term.1) % P);
        }
        assert_eq!((x[k].re.value as u64, x[k].im.value as u64), acc);
    }
}

#[test]
fn exact_linearity() {
    let a = ramp(32);
    let b: Vec<Exact> = (0..32u64).map(|j| c(5 * j + 2, j * j * j)).collect();
    let scalar = c(123456789, 987654321);
    let mut sum: [Exact; 32] = [c(0, 0); 32];
    let mut scaled: [Exact; 32] = [c(0, 0); 32];
    for j in 0..32 {
        sum[j] = a[j].add(b[j]);
        scaled[j] = scalar.mul(a[j]);
    }
    let mut fa: [Exact; 32] = a.try_into().unwrap();
    let mut fb: [Exact; 32] = b.try_into().unwrap();
    let fa = microfft::complex::cfft_32(&mut fa);
    let fb = microfft::complex::cfft_32(&mut fb);
    let fsum = microfft::complex::cfft_32(&mut sum);
    let fscaled = microfft::complex::cfft_32(&mut scaled);
    for k in 0..32 {
        assert_eq!(fsum[k], fa[k].add(fb[k]));
        assert_eq!(fscaled[k], scalar.mul(fa[k]));
    }
}

#[test]
fn exact_impulse_and_zeros() {
    let mut x = [c(0, 0); 64];
    x[0] = c(1, 0);
    let out = microfft::complex::cfft_64(&mut x);
    assert!(out.iter().all(|z| *z == c(1, 0)));

    let mut y = [c(0, 0); 64];
    y[0] = c(77, 99);
    let out = microfft::complex::cfft_64(&mut y);
    assert!(out.iter().all(|z| *z == c(77, 99)));

    let mut z = [Exact::default(); 128];
    let out = microfft::complex::cfft_128(&mut z);
    assert!(out.iter().all(|z| *z == c(0, 0)));
}

#[test]
fn exact_rfft_8() {
    let samples: Vec<Mersenne31> = [3u64, 1, 4, 1, 5, 9, 2, 6].iter().map(|v| m(*v)).collect();
    let mut slots = [c(0, 0); 4];
    microfft::rfft::pack_samples(&samples, &mut slots);
    assert_eq!(pairs(&slots), vec![(3, 1), (4, 1), (5, 9), (2, 6)]);
    let out = microfft::reals::rfft_8(&mut slots);
    // bin 0 with the real bin 4 as its imaginary part, then bins 1 to 3
    assert_eq!(
        pairs(out),
        vec![(31, 2147483644), (2147385341, 425982), (2, 2147483644), (98302, 425986)]
    );
}

#[test]
fn exact_rfft_2() {
    let mut slots = [c(10, 4)];
    let out = microfft::reals::rfft_2(&mut slots);
    assert_eq!(pairs(out), vec![(14, 6)]);
}

#[test]
fn exact_rfft_matches_cfft() {
    let samples: Vec<Mersenne31> = (0..1024u64).map(|j| m(j * j * 31 + 17 * j + 5)).collect();
    let mut full = [c(0, 0); 1024];
    for j in 0..1024 {
        full[j] = Complex::new(samples[j], Mersenne31::zero());
    }
    let mut slots = [c(0, 0); 512];
    microfft::rfft::pack_samples(&samples, &mut slots);
    let z = microfft::complex::cfft_1024(&mut full);
    let r = microfft::reals::rfft_1024(&mut slots);
    assert_eq!(r[0].re, z[0].re);
    assert_eq!(r[0].im, z[512].re);
    assert_eq!(z[0].im.value, 0);
    assert_eq!(z[512].im.value, 0);
    for k in 1..512 {
        assert_eq!(r[k], z[k]);
        // the upper half of the spectrum mirrors the lower half
        assert_eq!(z[1024 - k], z[k].conj());
    }
}
