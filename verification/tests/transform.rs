use microfft::{Complex, Scalar};
use rustfft::{algorithm::Radix4, Fft, FftDirection};

/// Single-precision scalar for the transforms.
#[derive(Clone, Copy, Debug, PartialEq)]
struct F(f32);

impl Scalar for F {
    fn zero_spec() -> Self {
        F(0.0)
    }

    fn add_spec(self, rhs: Self) -> Self {
        F(self.0 + rhs.0)
    }

    fn sub_spec(self, rhs: Self) -> Self {
        F(self.0 - rhs.0)
    }

    fn mul_spec(self, rhs: Self) -> Self {
        F(self.0 * rhs.0)
    }

    fn neg_spec(self) -> Self {
        F(-self.0)
    }

    fn half_spec(self) -> Self {
        F(self.0 * 0.5)
    }

    fn sine_spec(i: usize) -> Self {
        F((i as f64 * std::f64::consts::PI / 8192.0).sin() as f32)
    }

    fn zero() -> Self {
        Self::zero_spec()
    }

    fn add(self, rhs: Self) -> Self {
        self.add_spec(rhs)
    }

    fn sub(self, rhs: Self) -> Self {
        self.sub_spec(rhs)
    }

    fn mul(self, rhs: Self) -> Self {
        self.mul_spec(rhs)
    }

    fn neg(self) -> Self {
        self.neg_spec()
    }

    fn half(self) -> Self {
        self.half_spec()
    }

    fn sine(i: usize) -> Self {
        Self::sine_spec(i)
    }
}

type Complex32 = Complex<F>;

fn complex(re: f32, im: f32) -> Complex32 {
    Complex::new(F(re), F(im))
}

fn rust_fft(input: &[Complex32]) -> Vec<Complex32> {
    let mut buf: Vec<_> = input
        .iter()
        .map(|c| rustfft::num_complex::Complex32::new(c.re.0, c.im.0))
        .collect();

    let fft = Radix4::new(buf.len(), FftDirection::Forward);
    fft.process(&mut buf);

    buf.iter().map(|c| complex(c.re, c.im)).collect()
}

fn approx_f32(x: f32, y: f32) -> bool {
    let diff = (x - y).abs();
    let rel_diff = if x != 0. { (diff / x).abs() } else { diff };
    rel_diff < 0.02
}

fn approx_eq(a: Complex32, b: Complex32) -> bool {
    approx_f32(a.re.0, b.re.0) && approx_f32(a.im.0, b.im.0)
}

fn assert_approx_eq(xa: &[Complex32], xb: &[Complex32]) {
    assert_eq!(xa.len(), xb.len());
    for (a, b) in xa.iter().zip(xb) {
        assert!(approx_eq(*a, *b));
    }
}

fn cfft_input(n: usize) -> Vec<Complex32> {
    (0..n).map(|i| i as f32).map(|f| complex(f, f)).collect()
}

fn rfft_input(n: usize) -> Vec<f32> {
    (5..(n + 5)).map(|i| i as f32).collect()
}

fn promoted(input: &[f32]) -> Vec<Complex32> {
    input.iter().map(|f| complex(*f, 0.)).collect()
}

fn packed(input: &[f32]) -> Vec<Complex32> {
    let scalars: Vec<F> = input.iter().map(|f| F(*f)).collect();
    let mut slots = vec![complex(0., 0.); input.len() / 2];
    microfft::rfft::pack_samples(&scalars, &mut slots);
    slots
}

/// The real-valued coefficient at the Nyquist frequency is packed into the
/// imaginary part of the DC bin: it is compared, then cleared before the
/// other bins are.
fn assert_real_matches(result: &mut [Complex32], expected: &[Complex32]) {
    let n = expected.len();
    let coeff_at_nyquist = result[0].im.0;
    assert_eq!(coeff_at_nyquist, expected[n / 2].re.0);
    result[0].im = F(0.0);
    assert_approx_eq(result, &expected[..(n / 2)]);
}

#[test]
fn cfft_2() {
    let input = cfft_input(2);
    let expected = rust_fft(&input);
    let mut input: [_; 2] = input.try_into().unwrap();
    let result = microfft::complex::cfft_2(&mut input);

    assert_approx_eq(result, &expected);
}

#[test]
fn cfft_4() {
    let input = cfft_input(4);
    let expected = rust_fft(&input);
    let mut input: [_; 4] = input.try_into().unwrap();
    let result = microfft::complex::cfft_4(&mut input);

    assert_approx_eq(result, &expected);
}

#[test]
fn cfft_8() {
    let input = cfft_input(8);
    let expected = rust_fft(&input);
    let mut input: [_; 8] = input.try_into().unwrap();
    let result = microfft::complex::cfft_8(&mut input);

    assert_approx_eq(result, &expected);
}

#[test]
fn cfft_16() {
    let input = cfft_input(16);
    let expected = rust_fft(&input);
    let mut input: [_; 16] = input.try_into().unwrap();
    let result = microfft::complex::cfft_16(&mut input);

    assert_approx_eq(result, &expected);
}

#[test]
fn cfft_32() {
    let input = cfft_input(32);
    let expected = rust_fft(&input);
    let mut input: [_; 32] = input.try_into().unwrap();
    let result = microfft::complex::cfft_32(&mut input);

    assert_approx_eq(result, &expected);
}

#[test]
fn cfft_64() {
    let input = cfft_input(64);
    let expected = rust_fft(&input);
    let mut input: [_; 64] = input.try_into().unwrap();
    let result = microfft::complex::cfft_64(&mut input);

    assert_approx_eq(result, &expected);
}

#[test]
fn cfft_128() {
    let input = cfft_input(128);
    let expected = rust_fft(&input);
    let mut input: [_; 128] = input.try_into().unwrap();
    let result = microfft::complex::cfft_128(&mut input);

    assert_approx_eq(result, &expected);
}

#[test]
fn cfft_256() {
    let input = cfft_input(256);
    let expected = rust_fft(&input);
    let mut input: [_; 256] = input.try_into().unwrap();
    let result = microfft::complex::cfft_256(&mut input);

    assert_approx_eq(result, &expected);
}

#[test]
fn cfft_512() {
    let input = cfft_input(512);
    let expected = rust_fft(&input);
    let mut input: [_; 512] = input.try_into().unwrap();
    let result = microfft::complex::cfft_512(&mut input);

    assert_approx_eq(result, &expected);
}

#[test]
fn cfft_1024() {
    let input = cfft_input(1024);
    let expected = rust_fft(&input);
    let mut input: [_; 1024] = input.try_into().unwrap();
    let result = microfft::complex::cfft_1024(&mut input);

    assert_approx_eq(result, &expected);
}

#[test]
fn cfft_2048() {
    let input = cfft_input(2048);
    let expected = rust_fft(&input);
    let mut input: [_; 2048] = input.try_into().unwrap();
    let result = microfft::complex::cfft_2048(&mut input);

    assert_approx_eq(result, &expected);
}

#[test]
fn cfft_4096() {
    let input = cfft_input(4096);
    let expected = rust_fft(&input);
    let mut input: [_; 4096] = input.try_into().unwrap();
    let result = microfft::complex::cfft_4096(&mut input);

    assert_approx_eq(result, &expected);
}

#[test]
fn rfft_2() {
    let input = rfft_input(2);
    let mut input_c: [_; 2] = promoted(&input).try_into().unwrap();
    let expected = microfft::complex::cfft_2(&mut input_c);
    let mut input: [_; 1] = packed(&input).try_into().unwrap();
    let result = microfft::reals::rfft_2(&mut input);

    assert_real_matches(result, expected);
}

#[test]
fn rfft_4() {
    let input = rfft_input(4);
    let mut input_c: [_; 4] = promoted(&input).try_into().unwrap();
    let expected = microfft::complex::cfft_4(&mut input_c);
    let mut input: [_; 2] = packed(&input).try_into().unwrap();
    let result = microfft::reals::rfft_4(&mut input);

    assert_real_matches(result, expected);
}

#[test]
fn rfft_8() {
    let input = rfft_input(8);
    let mut input_c: [_; 8] = promoted(&input).try_into().unwrap();
    let expected = microfft::complex::cfft_8(&mut input_c);
    let mut input: [_; 4] = packed(&input).try_into().unwrap();
    let result = microfft::reals::rfft_8(&mut input);

    assert_real_matches(result, expected);
}

#[test]
fn rfft_16() {
    let input = rfft_input(16);
    let mut input_c: [_; 16] = promoted(&input).try_into().unwrap();
    let expected = microfft::complex::cfft_16(&mut input_c);
    let mut input: [_; 8] = packed(&input).try_into().unwrap();
    let result = microfft::reals::rfft_16(&mut input);

    assert_real_matches(result, expected);
}

#[test]
fn rfft_32() {
    let input = rfft_input(32);
    let mut input_c: [_; 32] = promoted(&input).try_into().unwrap();
    let expected = microfft::complex::cfft_32(&mut input_c);
    let mut input: [_; 16] = packed(&input).try_into().unwrap();
    let result = microfft::reals::rfft_32(&mut input);

    assert_real_matches(result, expected);
}

#[test]
fn rfft_64() {
    let input = rfft_input(64);
    let mut input_c: [_; 64] = promoted(&input).try_into().unwrap();
    let expected = microfft::complex::cfft_64(&mut input_c);
    let mut input: [_; 32] = packed(&input).try_into().unwrap();
    let result = microfft::reals::rfft_64(&mut input);

    assert_real_matches(result, expected);
}

#[test]
fn rfft_128() {
    let input = rfft_input(128);
    let mut input_c: [_; 128] = promoted(&input).try_into().unwrap();
    let expected = microfft::complex::cfft_128(&mut input_c);
    let mut input: [_; 64] = packed(&input).try_into().unwrap();
    let result = microfft::reals::rfft_128(&mut input);

    assert_real_matches(result, expected);
}

#[test]
fn rfft_256() {
    let input = rfft_input(256);
    let mut input_c: [_; 256] = promoted(&input).try_into().unwrap();
    let expected = microfft::complex::cfft_256(&mut input_c);
    let mut input: [_; 128] = packed(&input).try_into().unwrap();
    let result = microfft::reals::rfft_256(&mut input);

    assert_real_matches(result, expected);
}

#[test]
fn rfft_512() {
    let input = rfft_input(512);
    let mut input_c: [_; 512] = promoted(&input).try_into().unwrap();
    let expected = microfft::complex::cfft_512(&mut input_c);
    let mut input: [_; 256] = packed(&input).try_into().unwrap();
    let result = microfft::reals::rfft_512(&mut input);

    assert_real_matches(result, expected);
}

#[test]
fn rfft_1024() {
    let input = rfft_input(1024);
    let mut input_c: [_; 1024] = promoted(&input).try_into().unwrap();
    let expected = microfft::complex::cfft_1024(&mut input_c);
    let mut input: [_; 512] = packed(&input).try_into().unwrap();
    let result = microfft::reals::rfft_1024(&mut input);

    assert_real_matches(result, expected);
}

#[test]
fn rfft_2048() {
    let input = rfft_input(2048);
    let mut input_c: [_; 2048] = promoted(&input).try_into().unwrap();
    let expected = microfft::complex::cfft_2048(&mut input_c);
    let mut input: [_; 1024] = packed(&input).try_into().unwrap();
    let result = microfft::reals::rfft_2048(&mut input);

    assert_real_matches(result, expected);
}

#[test]
fn rfft_4096() {
    let input = rfft_input(4096);
    let mut input_c: [_; 4096] = promoted(&input).try_into().unwrap();
    let expected = microfft::complex::cfft_4096(&mut input_c);
    let mut input: [_; 2048] = packed(&input).try_into().unwrap();
    let result = microfft::reals::rfft_4096(&mut input);

    assert_real_matches(result, expected);
}
