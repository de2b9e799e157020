use microfft::bitrev::{bit_reverse_reorder, reverse_bits};
use microfft::cfft::{butterflies, transform};
use microfft::rfft::{pack_samples, real_transform, recombine, sample, unpack};
use microfft::twiddle::{twiddle, unit};
use microfft::{Complex, Scalar, HALF, MAX_N, QUARTER};
use rustfft::{algorithm::Radix4, Fft, FftDirection};

/// Single-precision scalar for the transforms.
#[derive(Clone, Copy, Debug, PartialEq)]
struct F(f32);

impl Scalar for F {
    fn zero_spec() -> Self {
        F(0.0)
    }

    fn add_spec(self, rhs: Self) -> Self {
        F(self.0 + rhs.0)
    }

    fn sub_spec(self, rhs: Self) -> Self {
        F(self.0 - rhs.0)
    }

    fn mul_spec(self, rhs: Self) -> Self {
        F(self.0 * rhs.0)
    }

    fn neg_spec(self) -> Self {
        F(-self.0)
    }

    fn half_spec(self) -> Self {
        F(self.0 * 0.5)
    }

    fn sine_spec(i: usize) -> Self {
        F((i as f64 * std::f64::consts::PI / 8192.0).sin() as f32)
    }

    fn zero() -> Self {
        Self::zero_spec()
    }

    fn add(self, rhs: Self) -> Self {
        self.add_spec(rhs)
    }

    fn sub(self, rhs: Self) -> Self {
        self.sub_spec(rhs)
    }

    fn mul(self, rhs: Self) -> Self {
        self.mul_spec(rhs)
    }

    fn neg(self) -> Self {
        self.neg_spec()
    }

    fn half(self) -> Self {
        self.half_spec()
    }

    fn sine(i: usize) -> Self {
        Self::sine_spec(i)
    }
}

type Complex32 = Complex<F>;

fn complex(re: f32, im: f32) -> Complex32 {
    Complex::new(F(re), F(im))
}

fn norm(c: &Complex32) -> f32 {
    c.norm_sqr().0.sqrt()
}

fn close(a: Complex32, b: Complex32, tolerance: f32) -> bool {
    (a.re.0 - b.re.0).abs() <= tolerance && (a.im.0 - b.im.0).abs() <= tolerance
}

/// The discrete Fourier transform as the sum that defines it, in double
/// precision.
fn naive_dft(input: &[Complex32]) -> Vec<Complex32> {
    let n = input.len();
    (0..n)
        .map(|k| {
            let mut re = 0.0f64;
            let mut im = 0.0f64;
            for (j, x) in input.iter().enumerate() {
                let angle = -2.0 * std::f64::consts::PI * ((j * k) % n) as f64 / n as f64;
                let (s, co) = angle.sin_cos();
                re += x.re.0 as f64 * co - x.im.0 as f64 * s;
                im += x.re.0 as f64 * s + x.im.0 as f64 * co;
            }
            complex(re as f32, im as f32)
        })
        .collect()
}

fn rust_fft(input: &[Complex32]) -> Vec<Complex32> {
    let mut buf: Vec<_> = input
        .iter()
        .map(|c| rustfft::num_complex::Complex32::new(c.re.0, c.im.0))
        .collect();
    Radix4::new(buf.len(), FftDirection::Forward).process(&mut buf);
    buf.iter().map(|c| complex(c.re, c.im)).collect()
}

fn signal(n: usize) -> Vec<Complex32> {
    (0..n)
        .map(|i| {
            let t = i as f32;
            complex((t * 0.37).sin() + 0.25 * (t * 1.3).cos(), (t * 0.11).cos() - 0.5)
        })
        .collect()
}

fn largest(x: &[Complex32]) -> f32 {
    x.iter().map(norm).fold(0.0, f32::max)
}

#[test]
fn table_constants() {
    assert_eq!(MAX_N, 16384);
    assert_eq!(HALF, 8192);
    assert_eq!(QUARTER, 4096);
}

#[test]
fn complex_arithmetic() {
    let a = complex(1.0, 2.0);
    let b = complex(3.0, 4.0);
    assert_eq!(a.add(b), complex(4.0, 6.0));
    assert_eq!(a.sub(b), complex(-2.0, -2.0));
    assert_eq!(a.mul(b), complex(-5.0, 10.0));
    assert_eq!(a.neg(), complex(-1.0, -2.0));
    assert_eq!(a.conj(), complex(1.0, -2.0));
    assert_eq!(a.half(), complex(0.5, 1.0));
    assert_eq!(a.mul_neg_i(), complex(2.0, -1.0));
    assert_eq!(b.norm_sqr(), F(25.0));
    assert_eq!(norm(&b), 5.0);
    assert_eq!(Complex32::zero(), complex(0.0, 0.0));
    assert_eq!(Complex32::default(), complex(0.0, 0.0));
}

#[test]
fn bit_reversal_of_indices() {
    assert_eq!(reverse_bits(0, 0), 0);
    assert_eq!(reverse_bits(1, 1), 1);
    assert_eq!(reverse_bits(1, 3), 4);
    assert_eq!(reverse_bits(3, 3), 6);
    assert_eq!(reverse_bits(6, 3), 3);
    assert_eq!(reverse_bits(1, 14), 8192);
    assert_eq!(reverse_bits(0b10110, 5), 0b01101);
    for i in 0..1024 {
        assert_eq!(reverse_bits(reverse_bits(i, 10), 10), i);
    }
}

#[test]
fn bit_reversal_of_a_buffer() {
    let mut x = [0, 1, 2, 3, 4, 5, 6, 7];
    bit_reverse_reorder(&mut x, 3);
    assert_eq!(x, [0, 4, 2, 6, 1, 5, 3, 7]);
    let mut pair = ['a', 'b'];
    bit_reverse_reorder(&mut pair, 1);
    assert_eq!(pair, ['a', 'b']);
    let mut one = [9u8];
    bit_reverse_reorder(&mut one, 0);
    assert_eq!(one, [9]);
}

#[test]
fn rotation_factors() {
    let one: Complex32 = twiddle(0, 8);
    assert_eq!(one, complex(1.0, 0.0));
    let quarter: Complex32 = twiddle(1, 4);
    assert_eq!(quarter, complex(0.0, -1.0));
    let eighth: Complex32 = twiddle(1, 8);
    assert!(close(eighth, complex(0.70710678, -0.70710678), 1e-7));
    let three_eighths: Complex32 = twiddle(3, 8);
    assert!(close(three_eighths, complex(-0.70710678, -0.70710678), 1e-7));
    for n in [2usize, 16, 1024, 16384] {
        for k in 0..n / 2 {
            let w: Complex32 = twiddle(k, n);
            let angle = -2.0 * std::f64::consts::PI * k as f64 / n as f64;
            assert!(close(w, complex(angle.cos() as f32, angle.sin() as f32), 1e-7));
            assert_eq!(w, unit(k * (MAX_N / n)));
        }
    }
}

#[test]
fn cfft_2_is_one_butterfly() {
    let mut x = [complex(1.5, -2.0), complex(0.25, 4.0)];
    let out = microfft::complex::cfft_2(&mut x);
    assert_eq!(out[0], complex(1.75, 2.0));
    assert_eq!(out[1], complex(1.25, -6.0));
}

#[test]
fn cfft_4_known_values() {
    let mut x = [complex(1.0, 0.0), complex(2.0, 0.0), complex(3.0, 0.0), complex(4.0, 0.0)];
    let out = microfft::complex::cfft_4(&mut x);
    assert_eq!(out[0], complex(10.0, 0.0));
    assert_eq!(out[1], complex(-2.0, 2.0));
    assert_eq!(out[2], complex(-2.0, 0.0));
    assert_eq!(out[3], complex(-2.0, -2.0));
}

#[test]
fn cfft_works_in_place() {
    let mut x: [Complex32; 8] = signal(8).try_into().unwrap();
    let expected = naive_dft(&x);
    let _ = microfft::complex::cfft_8(&mut x);
    for k in 0..8 {
        assert!(close(x[k], expected[k], 1e-5));
    }
}

#[test]
fn cfft_of_unit_impulse_is_constant_one() {
    let mut x = [complex(0.0, 0.0); 1024];
    x[0] = complex(1.0, 0.0);
    let out = microfft::complex::cfft_1024(&mut x);
    assert!(out.iter().all(|c| close(*c, complex(1.0, 0.0), 1e-6)));
}

#[test]
fn cfft_of_zeros_is_zero() {
    let mut x2 = [Complex32::default(); 2];
    assert!(microfft::complex::cfft_2(&mut x2).iter().all(|c| *c == complex(0.0, 0.0)));
    let mut x64 = [Complex32::default(); 64];
    assert!(microfft::complex::cfft_64(&mut x64).iter().all(|c| *c == complex(0.0, 0.0)));
    let mut x16384 = vec![Complex32::default(); 16384];
    transform(&mut x16384, 14);
    assert!(x16384.iter().all(|c| *c == complex(0.0, 0.0)));
    let mut r = [Complex32::default(); 256];
    assert!(microfft::reals::rfft_512(&mut r).iter().all(|c| *c == complex(0.0, 0.0)));
}

#[test]
fn cfft_is_linear() {
    let a = signal(256);
    let b: Vec<Complex32> =
        (0..256).map(|i| complex(i as f32 * 0.01, 1.0 - i as f32 * 0.02)).collect();
    let scalar = complex(0.75, -1.25);
    let mut sum: [Complex32; 256] = [complex(0.0, 0.0); 256];
    let mut scaled: [Complex32; 256] = [complex(0.0, 0.0); 256];
    for j in 0..256 {
        sum[j] = a[j].add(b[j]);
        scaled[j] = scalar.mul(a[j]);
    }
    let mut fa: [Complex32; 256] = a.try_into().unwrap();
    let mut fb: [Complex32; 256] = b.try_into().unwrap();
    let fa = microfft::complex::cfft_256(&mut fa);
    let fb = microfft::complex::cfft_256(&mut fb);
    let fsum = microfft::complex::cfft_256(&mut sum);
    let fscaled = microfft::complex::cfft_256(&mut scaled);
    let tolerance = 1e-5 * (largest(fa) + largest(fb));
    for k in 0..256 {
        assert!(close(fsum[k], fa[k].add(fb[k]), tolerance));
        assert!(close(fscaled[k], scalar.mul(fa[k]), tolerance));
    }
}

fn check_against_sum(bits: u32) {
    let n = 1usize << bits;
    let mut x = signal(n);
    let expected = naive_dft(&x);
    transform(&mut x, bits);
    let tolerance = 2e-6 * n as f32;
    for k in 0..n {
        assert!(close(x[k], expected[k], tolerance), "size {} bin {}", n, k);
    }
}

#[test]
fn cfft_matches_the_dft_sum() {
    for bits in 0..=10 {
        check_against_sum(bits);
    }
}

fn check_against_rustfft(bits: u32) {
    let n = 1usize << bits;
    let mut x = signal(n);
    let expected = rust_fft(&x);
    transform(&mut x, bits);
    let tolerance = 1e-6 * n as f32;
    for k in 0..n {
        assert!(close(x[k], expected[k], tolerance), "size {} bin {}", n, k);
    }
}

#[test]
fn cfft_matches_rustfft_at_every_size() {
    for bits in 1..=14 {
        check_against_rustfft(bits);
    }
}

#[test]
fn cfft_8192_and_16384() {
    let mut x: Vec<Complex32> = signal(8192);
    let expected = rust_fft(&x);
    let array: &mut [Complex32; 8192] = (&mut x[..]).try_into().unwrap();
    let out = microfft::complex::cfft_8192(array);
    for k in 0..8192 {
        assert!(close(out[k], expected[k], 0.01));
    }
    let mut x: Vec<Complex32> = signal(16384);
    let expected = rust_fft(&x);
    let array: &mut [Complex32; 16384] = (&mut x[..]).try_into().unwrap();
    let out = microfft::complex::cfft_16384(array);
    for k in 0..16384 {
        assert!(close(out[k], expected[k], 0.02));
    }
}

#[test]
fn engine_steps_compose() {
    let mut by_steps = signal(64);
    let mut at_once = by_steps.clone();
    bit_reverse_reorder(&mut by_steps, 6);
    butterflies(&mut by_steps, 6);
    transform(&mut at_once, 6);
    assert_eq!(by_steps, at_once);
    let mut array: [Complex32; 64] = signal(64).try_into().unwrap();
    assert_eq!(microfft::complex::cfft_64(&mut array).to_vec(), at_once);
}

#[test]
fn samples_are_held_two_to_a_slot() {
    let x: Vec<F> = (0..8).map(|i| F(i as f32)).collect();
    let mut slots = [complex(0.0, 0.0); 4];
    pack_samples(&x, &mut slots);
    assert_eq!(slots, [complex(0.0, 1.0), complex(2.0, 3.0), complex(4.0, 5.0), complex(6.0, 7.0)]);
    for i in 0..8 {
        assert_eq!(sample(&slots, i), F(i as f32));
    }
}

#[test]
fn rfft_2_is_sum_and_difference() {
    let mut slots = [complex(3.0, 5.0)];
    let out = microfft::reals::rfft_2(&mut slots);
    assert_eq!(out[0], complex(8.0, -2.0));
}

#[test]
fn rfft_4_known_values() {
    // samples 1, 2, 3, 4: bins 10, -2 + 2i, and -2 at the Nyquist frequency
    let mut slots = [complex(1.0, 2.0), complex(3.0, 4.0)];
    let out = microfft::reals::rfft_4(&mut slots);
    assert_eq!(out[0], complex(10.0, -2.0));
    assert!(close(out[1], complex(-2.0, 2.0), 1e-6));
}

#[test]
fn recombine_known_values() {
    // even part 2 + 3i, odd part 1 - i, rotation by -i
    let even = complex(2.0, 3.0);
    let odd = complex(1.0, -1.0);
    let i_odd = complex(1.0, 1.0);
    let zk = even.add(i_odd);
    let zm = even.conj().add(complex(0.0, 1.0).mul(odd.conj()));
    let bin = recombine(zk, zm, complex(0.0, -1.0));
    assert_eq!(bin, even.add(complex(0.0, -1.0).mul(odd)));
    assert_eq!(bin, complex(1.0, 2.0));
}

fn check_real_against_complex(bits: u32) {
    let n = 2usize << bits;
    let x: Vec<F> = (0..n).map(|i| F((i as f32 * 0.21).sin() * 3.0 + (i % 7) as f32)).collect();
    let mut full: Vec<Complex32> = x.iter().map(|v| Complex::new(*v, F(0.0))).collect();
    let mut slots = vec![complex(0.0, 0.0); n / 2];
    pack_samples(&x, &mut slots);
    transform(&mut full, bits + 1);
    real_transform(&mut slots, bits);
    let tolerance = 1e-6 * n as f32 * 8.0;
    assert!((slots[0].re.0 - full[0].re.0).abs() <= tolerance);
    assert!((slots[0].im.0 - full[n / 2].re.0).abs() <= tolerance);
    assert!(full[n / 2].im.0.abs() <= tolerance);
    for k in 1..n / 2 {
        assert!(close(slots[k], full[k], tolerance), "size {} bin {}", n, k);
    }
}

#[test]
fn rfft_matches_cfft_at_every_size() {
    for bits in 0..=13 {
        check_real_against_complex(bits);
    }
}

#[test]
fn rfft_8192_and_16384() {
    for n in [8192usize, 16384] {
        let x: Vec<F> = (0..n).map(|i| F((i as f32 * 0.05).cos())).collect();
        let full: Vec<Complex32> = x.iter().map(|v| Complex::new(*v, F(0.0))).collect();
        let expected = rust_fft(&full);
        let mut slots = vec![complex(0.0, 0.0); n / 2];
        pack_samples(&x, &mut slots);
        let out: Vec<Complex32> = if n == 8192 {
            let array: &mut [Complex32; 4096] = (&mut slots[..]).try_into().unwrap();
            microfft::reals::rfft_8192(array).to_vec()
        } else {
            let array: &mut [Complex32; 8192] = (&mut slots[..]).try_into().unwrap();
            microfft::reals::rfft_16384(array).to_vec()
        };
        assert!((out[0].re.0 - expected[0].re.0).abs() < 0.05);
        assert!((out[0].im.0 - expected[n / 2].re.0).abs() < 0.05);
        for k in 1..n / 2 {
            assert!(close(out[k], expected[k], 0.05));
        }
    }
}

#[test]
fn unpack_after_transform_is_the_real_transform() {
    let x: Vec<F> = (0..32).map(|i| F((i * i % 11) as f32)).collect();
    let mut by_steps = vec![complex(0.0, 0.0); 16];
    pack_samples(&x, &mut by_steps);
    let mut at_once = by_steps.clone();
    transform(&mut by_steps, 4);
    unpack(&mut by_steps, 4);
    real_transform(&mut at_once, 4);
    assert_eq!(by_steps, at_once);
}

#[test]
fn sine_wave_peaks_at_its_bin() {
    // frequency * N / rate == 129 * 1024 / 44100 == 2.995...: bin 3
    let n = 1024;
    let x: Vec<F> = (0..n)
        .map(|i| F((i as f32 / 44100.0 * 129.0 * 2.0 * std::f32::consts::PI).sin() * 1000.0))
        .collect();
    let mut slots = [complex(0.0, 0.0); 512];
    pack_samples(&x, &mut slots);
    let out = microfft::reals::rfft_1024(&mut slots);
    let magnitudes: Vec<f32> = out.iter().map(|c| norm(c) / n as f32).collect();
    let peak = (1..512).max_by(|a, b| magnitudes[*a].total_cmp(&magnitudes[*b])).unwrap();
    assert_eq!(peak, 3);
    assert!(magnitudes[3] > 400.0);
    assert!(magnitudes[2] < 3.0 && magnitudes[4] < 3.0);

    // a wave that fits the buffer exactly: all its energy is in one bin
    let x: Vec<F> = (0..256)
        .map(|i| F((2.0 * std::f64::consts::PI * 5.0 * i as f64 / 256.0).sin() as f32))
        .collect();
    let mut slots = [complex(0.0, 0.0); 128];
    pack_samples(&x, &mut slots);
    let out = microfft::reals::rfft_256(&mut slots);
    assert!((norm(&out[5]) - 128.0).abs() < 1e-3);
    for k in 1..128 {
        if k != 5 {
            assert!(norm(&out[k]) < 1e-3);
        }
    }
}
