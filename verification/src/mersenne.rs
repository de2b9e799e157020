//! Integers modulo the Mersenne prime `2^31 - 1`: a scalar with exact
//! arithmetic. Complex numbers over it have unit roots of every order
//! that the transforms need.
use crate::algebra::{Exact, Ring};
use crate::sample::Complex;
use crate::scalar::Scalar;
use crate::twiddle::unit_spec;
use vstd::arithmetic::div_mod::{
    lemma_add_mod_noop, lemma_fundamental_div_mod_converse, lemma_mod_breakdown,
    lemma_mod_multiples_vanish, lemma_mul_mod_noop_general, lemma_small_mod, lemma_sub_mod_noop,
};
use vstd::arithmetic::mul::{
    lemma_mul_is_associative, lemma_mul_is_distributive_add,
    lemma_mul_is_distributive_add_other_way, lemma_mul_is_distributive_sub,
    lemma_mul_is_distributive_sub_other_way,
};
use vstd::arithmetic::power2::{lemma2_to64, lemma_pow2_pos, lemma_pow2_unfold, pow2};
use vstd::prelude::*;

verus! {

/// The prime `2^31 - 1`.
pub const MODULUS: u32 = 2147483647;

/// The inverse of two: `2^30`.
pub const HALF_OF_ONE: u32 = 1073741824;

/// Real part of the generator: a complex number of modulus one whose 4096th
/// power is the imaginary unit.
pub const GENERATOR_RE: u32 = 911611454;

/// Imaginary part of the generator.
pub const GENERATOR_IM: u32 = 369760450;

/// An integer modulo `2^31 - 1`. The elements of the field are the values
/// below the modulus; every operation returns one of them.
#[derive(Clone, Copy, Debug, PartialEq, Eq)]
pub struct Mersenne31 {
    pub value: u32,
}

/// The product of two complex numbers over the field, as pairs of integers.
pub open spec fn pair_mul(a: (int, int), b: (int, int)) -> (int, int) {
    ((a.0 * b.0 - a.1 * b.1) % (MODULUS as int), (a.0 * b.1 + a.1 * b.0) % (MODULUS as int))
}

/// The `n`th power of the generator: the point of the unit circle at `n`
/// steps of `2*pi/16384`, as (cosine, sine).
pub open spec fn circle(n: nat) -> (int, int)
    decreases n,
{
    if n == 0 {
        (1, 0)
    } else {
        pair_mul(circle((n - 1) as nat), (GENERATOR_RE as int, GENERATOR_IM as int))
    }
}

/// The power of the generator with exponent `2^j`, for `j` up to 13.
pub open spec fn doubling(j: nat) -> (int, int) {
    if j == 0 {
        (911611454, 369760450)
    } else if j == 1 {
        (1699686235, 1983086613)
    } else if j == 2 {
        (1556867790, 330623826)
    } else if j == 3 {
        (447694929, 905673829)
    } else if j == 4 {
        (1501011474, 1270188826)
    } else if j == 5 {
        (834535867, 222141861)
    } else if j == 6 {
        (1977033713, 141956360)
    } else if j == 7 {
        (883753057, 1796741361)
    } else if j == 8 {
        (26164677, 505542828)
    } else if j == 9 {
        (906276279, 967747991)
    } else if j == 10 {
        (1556715293, 978592373)
    } else if j == 11 {
        (32768, 32768)
    } else if j == 12 {
        (0, 1)
    } else {
        (2147483646, 0)
    }
}

/// Both parts of the pair are below the modulus.
pub open spec fn in_field(p: (int, int)) -> bool {
    0 <= p.0 < MODULUS && 0 <= p.1 < MODULUS
}

/// The conjugate of a complex number over the field, as a pair of integers.
pub open spec fn pair_conj(p: (int, int)) -> (int, int) {
    (p.0, (-p.1) % (MODULUS as int))
}

/// The complex number that a pair of integers below the modulus stands for.
pub open spec fn lift(p: (int, int)) -> Complex<Mersenne31> {
    Complex { re: Mersenne31 { value: p.0 as u32 }, im: Mersenne31 { value: p.1 as u32 } }
}

/// A product does not change when a factor is reduced by the modulus.
proof fn lemma_pair_mul_reduce(a: (int, int), b: (int, int))
    ensures
        pair_mul((a.0 % (MODULUS as int), a.1 % (MODULUS as int)), b) == pair_mul(a, b),
        pair_mul(a, (b.0 % (MODULUS as int), b.1 % (MODULUS as int))) == pair_mul(a, b),
        in_field(pair_mul(a, b)),
{
    let p = MODULUS as int;
    lemma_mul_mod_noop_general(a.0, b.0, p);
    lemma_mul_mod_noop_general(a.1, b.1, p);
    lemma_mul_mod_noop_general(a.0, b.1, p);
    lemma_mul_mod_noop_general(a.1, b.0, p);
    lemma_sub_mod_noop((a.0 % p) * b.0, (a.1 % p) * b.1, p);
    lemma_sub_mod_noop(a.0 * (b.0 % p), a.1 * (b.1 % p), p);
    lemma_sub_mod_noop(a.0 * b.0, a.1 * b.1, p);
    lemma_add_mod_noop((a.0 % p) * b.1, (a.1 % p) * b.0, p);
    lemma_add_mod_noop(a.0 * (b.1 % p), a.1 * (b.0 % p), p);
    lemma_add_mod_noop(a.0 * b.1, a.1 * b.0, p);
}

/// The product of pairs without the reduction is associative.
proof fn lemma_raw_assoc(a: (int, int), b: (int, int), c: (int, int))
    ensures
        (a.0 * b.0 - a.1 * b.1) * c.0 - (a.0 * b.1 + a.1 * b.0) * c.1 == a.0 * (b.0 * c.0 - b.1
            * c.1) - a.1 * (b.0 * c.1 + b.1 * c.0),
        (a.0 * b.0 - a.1 * b.1) * c.1 + (a.0 * b.1 + a.1 * b.0) * c.0 == a.0 * (b.0 * c.1 + b.1
            * c.0) + a.1 * (b.0 * c.0 - b.1 * c.1),
{
    let (a0, a1, b0, b1, c0, c1) = (a.0, a.1, b.0, b.1, c.0, c.1);
    lemma_mul_is_associative(a0, b0, c0);
    lemma_mul_is_associative(a0, b0, c1);
    lemma_mul_is_associative(a0, b1, c0);
    lemma_mul_is_associative(a0, b1, c1);
    lemma_mul_is_associative(a1, b0, c0);
    lemma_mul_is_associative(a1, b0, c1);
    lemma_mul_is_associative(a1, b1, c0);
    lemma_mul_is_associative(a1, b1, c1);
    lemma_mul_is_distributive_sub_other_way(c0, a0 * b0, a1 * b1);
    lemma_mul_is_distributive_sub_other_way(c1, a0 * b0, a1 * b1);
    lemma_mul_is_distributive_add_other_way(c0, a0 * b1, a1 * b0);
    lemma_mul_is_distributive_add_other_way(c1, a0 * b1, a1 * b0);
    lemma_mul_is_distributive_sub(a0, b0 * c0, b1 * c1);
    lemma_mul_is_distributive_sub(a1, b0 * c0, b1 * c1);
    lemma_mul_is_distributive_add(a0, b0 * c1, b1 * c0);
    lemma_mul_is_distributive_add(a1, b0 * c1, b1 * c0);
}

/// The product of pairs is associative.
proof fn lemma_pair_mul_assoc(a: (int, int), b: (int, int), c: (int, int))
    ensures
        pair_mul(pair_mul(a, b), c) == pair_mul(a, pair_mul(b, c)),
{
    let ab = (a.0 * b.0 - a.1 * b.1, a.0 * b.1 + a.1 * b.0);
    let bc = (b.0 * c.0 - b.1 * c.1, b.0 * c.1 + b.1 * c.0);
    lemma_pair_mul_reduce(ab, c);
    lemma_pair_mul_reduce(a, bc);
    lemma_raw_assoc(a, b, c);
}

/// The product of conjugates is the conjugate of the product.
proof fn lemma_pair_conj_mul(a: (int, int), b: (int, int))
    ensures
        pair_mul(pair_conj(a), pair_conj(b)) == pair_conj(pair_mul(a, b)),
{
    let p = MODULUS as int;
    let (ca, cb) = ((a.0, -a.1), (b.0, -b.1));
    lemma_pair_mul_reduce(ca, cb);
    lemma_pair_mul_reduce((a.0 % p, (-a.1) % p), cb);
    lemma_pair_mul_reduce((a.0, (-a.1) % p), (b.0 % p, (-b.1) % p));
    lemma_pair_mul_reduce((a.0, (-a.1) % p), cb);
    assert(pair_mul(pair_conj(a), pair_conj(b)) == pair_mul(ca, cb)) by {
        lemma_mul_mod_noop_general(a.0, b.0, p);
        lemma_mul_mod_noop_general(-a.1, -b.1, p);
        lemma_mul_mod_noop_general(a.0, -b.1, p);
        lemma_mul_mod_noop_general(-a.1, b.0, p);
        lemma_sub_mod_noop(a.0 * b.0, ((-a.1) % p) * ((-b.1) % p), p);
        lemma_sub_mod_noop(a.0 * b.0, (-a.1) * (-b.1), p);
        lemma_add_mod_noop(a.0 * ((-b.1) % p), ((-a.1) % p) * b.0, p);
        lemma_add_mod_noop(a.0 * (-b.1), (-a.1) * b.0, p);
    }
    assert(a.0 * b.0 - (-a.1) * (-b.1) == a.0 * b.0 - a.1 * b.1 && a.0 * (-b.1) + (-a.1) * b.0
        == -(a.0 * b.1 + a.1 * b.0)) by (nonlinear_arith);
    vstd::arithmetic::div_mod::lemma_sub_mod_noop_right(0, a.0 * b.1 + a.1 * b.0, p);
}

/// The powers of the generator are below the modulus.
pub proof fn lemma_circle_in_field(n: nat)
    ensures
        in_field(circle(n)),
{
    if n > 0 {
        lemma_pair_mul_reduce(circle((n - 1) as nat), (GENERATOR_RE as int, GENERATOR_IM as int));
    }
}

/// The power of the generator at a sum of exponents is the product of the
/// powers.
pub proof fn lemma_circle_add(a: nat, b: nat)
    ensures
        circle(a + b) == pair_mul(circle(a), circle(b)),
    decreases b,
{
    let g = (GENERATOR_RE as int, GENERATOR_IM as int);
    lemma_circle_in_field(a);
    if b == 0 {
        let c = circle(a);
        assert(c.0 * 1 - c.1 * 0 == c.0 && c.0 * 0 + c.1 * 1 == c.1);
        lemma_small_mod(c.0 as nat, MODULUS as nat);
        lemma_small_mod(c.1 as nat, MODULUS as nat);
    } else {
        lemma_circle_add(a, (b - 1) as nat);
        lemma_pair_mul_assoc(circle(a), circle((b - 1) as nat), g);
        assert(circle(a + b) == pair_mul(circle((a + b - 1) as nat), g));
    }
}

/// The squares that lead from the generator to its power with exponent 8192.
proof fn lemma_squares(j: nat)
    requires
        j < 13,
    ensures
        pair_mul(doubling(j), doubling(j)) == doubling(j + 1),
{
    let d = doubling(j);
    if j == 0 {
        assert(d.0 * d.0 - d.1 * d.1 == 694312652679791616 && d.0 * d.1 + d.1 * d.0
            == 674155722912388600) by (nonlinear_arith)
            requires
                d.0 == 911611454,
                d.1 == 369760450,
        ;
    } else if j == 1 {
        assert(d.0 * d.0 - d.1 * d.1 == -1043699217211336544 && d.0 * d.1 + d.1 * d.0
            == 6741250037857744110) by (nonlinear_arith)
            requires
                d.0 == 1699686235,
                d.1 == 1983086613,
        ;
    } else if j == 2 {
        assert(d.0 * d.0 - d.1 * d.1 == 2314525201220605824 && d.0 * d.1 + d.1 * d.0
            == 1029475170611929080) by (nonlinear_arith)
            requires
                d.0 == 1556867790,
                d.1 == 330623826,
        ;
    } else if j == 3 {
        assert(d.0 * d.0 - d.1 * d.1 == -619814335083206200 && d.0 * d.1 + d.1 * d.0
            == 810931161142626282) by (nonlinear_arith)
            requires
                d.0 == 447694929,
                d.1 == 905673829,
        ;
    } else if j == 4 {
        assert(d.0 * d.0 - d.1 * d.1 == 639655791384394400 && d.0 * d.1 + d.1 * d.0
            == 3813136003945179048) by (nonlinear_arith)
            requires
                d.0 == 1501011474,
                d.1 == 1270188826,
        ;
    } else if j == 5 {
        assert(d.0 * d.0 - d.1 * d.1 == 647103106900898368 && d.0 * d.1 + d.1 * d.0
            == 370770701133256974) by (nonlinear_arith)
            requires
                d.0 == 834535867,
                d.1 == 222141861,
        ;
    } else if j == 6 {
        assert(d.0 * d.0 - d.1 * d.1 == 3888510694194116769 && d.0 * d.1 + d.1 * d.0
            == 561305018989529360) by (nonlinear_arith)
            requires
                d.0 == 1977033713,
                d.1 == 141956360,
        ;
    } else if j == 7 {
        assert(d.0 * d.0 - d.1 * d.1 == -2447260052571287072 && d.0 * d.1 + d.1 * d.0
            == 3175751340844181154) by (nonlinear_arith)
            requires
                d.0 == 883753057,
                d.1 == 1796741361,
        ;
    } else if j == 8 {
        assert(d.0 * d.0 - d.1 * d.1 == -254888960619723255 && d.0 * d.1 + d.1 * d.0
            == 26454729608573112) by (nonlinear_arith)
            requires
                d.0 == 26164677,
                d.1 == 505542828,
        ;
    } else if j == 9 {
        assert(d.0 * d.0 - d.1 * d.1 == -115199480206450240 && d.0 * d.1 + d.1 * d.0
            == 1754094096586410978) by (nonlinear_arith)
            requires
                d.0 == 906276279,
                d.1 == 967747991,
        ;
    } else if j == 10 {
        assert(d.0 * d.0 - d.1 * d.1 == 1465719470966304720 && d.0 * d.1 + d.1 * d.0
            == 3046779425324520578) by (nonlinear_arith)
            requires
                d.0 == 1556715293,
                d.1 == 978592373,
        ;
    } else if j == 11 {
        assert(d.0 * d.0 - d.1 * d.1 == 0 && d.0 * d.1 + d.1 * d.0
            == 2147483648) by (nonlinear_arith)
            requires
                d.0 == 32768,
                d.1 == 32768,
        ;
    } else if j == 12 {
        assert(d.0 * d.0 - d.1 * d.1 == -1 && d.0 * d.1 + d.1 * d.0
            == 0) by (nonlinear_arith)
            requires
                d.0 == 0,
                d.1 == 1,
        ;
    }
}

/// The table of powers with exponents `2^j` holds these powers.
pub proof fn lemma_doubling(j: nat)
    requires
        j <= 13,
    ensures
        circle(pow2(j)) == doubling(j),
    decreases j,
{
    lemma2_to64();
    if j == 0 {
        let g = (GENERATOR_RE as int, GENERATOR_IM as int);
        assert(circle(1) == pair_mul(circle(0), g));
        assert(1 * g.0 - 0 * g.1 == g.0 && 1 * g.1 + 0 * g.0 == g.1);
    } else {
        let h = pow2((j - 1) as nat);
        lemma_doubling((j - 1) as nat);
        lemma_pow2_unfold(j);
        lemma_circle_add(h, h);
        lemma_squares((j - 1) as nat);
    }
}

/// A quarter turn swaps cosine and sine: the power at `4096 - m` is the power
/// at `m` with its parts exchanged.
pub proof fn lemma_quarter_mirror(m: nat)
    requires
        m <= 4096,
    ensures
        circle((4096 - m) as nat) == (circle(m).1, circle(m).0),
    decreases m,
{
    let p = MODULUS as int;
    let g = (GENERATOR_RE as int, GENERATOR_IM as int);
    let gc = (GENERATOR_RE as int, -(GENERATOR_IM as int));
    lemma2_to64();
    if m == 0 {
        lemma_doubling(12);
    } else {
        let z = circle((m - 1) as nat);
        let w = circle((4096 - m) as nat);
        lemma_quarter_mirror((m - 1) as nat);
        lemma_circle_in_field((4096 - m) as nat);
        assert(circle((4096 - m + 1) as nat) == pair_mul(w, g));
        // dividing by the generator is multiplying with its conjugate
        lemma_pair_mul_assoc(w, g, gc);
        assert(pair_mul(g, gc) == (1int, 0int)) by {
            assert(g.0 * gc.0 - g.1 * gc.1 == 911611454int * 911611454 + 369760450int
                * 369760450);
            assert(g.0 * gc.1 + g.1 * gc.0 == 0) by (nonlinear_arith)
                requires
                    gc.0 == g.0,
                    gc.1 == -g.1,
            ;
        }
        assert(pair_mul(w, (1int, 0int)) == w) by {
            assert(w.0 * 1 - w.1 * 0 == w.0 && w.0 * 0 + w.1 * 1 == w.1);
            lemma_small_mod(w.0 as nat, MODULUS as nat);
            lemma_small_mod(w.1 as nat, MODULUS as nat);
        }
        assert(w == pair_mul((z.1, z.0), gc));
        assert(z.1 * gc.0 - z.0 * gc.1 == z.0 * g.1 + z.1 * g.0 && z.1 * gc.1 + z.0 * gc.0 == z.0
            * g.0 - z.1 * g.1) by (nonlinear_arith)
            requires
                gc.0 == g.0,
                gc.1 == -g.1,
        ;
    }
}

impl Mersenne31 {
    /// The element of the field that `v` stands for.
    pub fn new(v: u32) -> (r: Self)
        ensures
            r.value == v % MODULUS,
            r.member(),
    {
        Mersenne31 { value: v % MODULUS }
    }

    /// The power of the generator with exponent `2^j`.
    fn generator_power(j: u32) -> (r: (u64, u64))
        requires
            j <= 12,
        ensures
            (r.0 as int, r.1 as int) == doubling(j as nat),
    {
        match j {
            0 => (911611454, 369760450),
            1 => (1699686235, 1983086613),
            2 => (1556867790, 330623826),
            3 => (447694929, 905673829),
            4 => (1501011474, 1270188826),
            5 => (834535867, 222141861),
            6 => (1977033713, 141956360),
            7 => (883753057, 1796741361),
            8 => (26164677, 505542828),
            9 => (906276279, 967747991),
            10 => (1556715293, 978592373),
            11 => (32768, 32768),
            _ => (0, 1),
        }
    }

    /// The product of two complex numbers over the field.
    fn pair_product(a: (u64, u64), b: (u64, u64)) -> (r: (u64, u64))
        requires
            in_field((a.0 as int, a.1 as int)),
            in_field((b.0 as int, b.1 as int)),
        ensures
            (r.0 as int, r.1 as int) == pair_mul(
                (a.0 as int, a.1 as int),
                (b.0 as int, b.1 as int),
            ),
    {
        let p: u64 = MODULUS as u64;
        assert(a.0 * b.0 <= 2147483646 * 2147483646 && a.1 * b.1 <= 2147483646 * 2147483646 && a.0
            * b.1 <= 2147483646 * 2147483646 && a.1 * b.0 <= 2147483646 * 2147483646)
            by (nonlinear_arith)
            requires
                a.0 <= 2147483646,
                a.1 <= 2147483646,
                b.0 <= 2147483646,
                b.1 <= 2147483646,
        ;
        let x: u64 = (a.0 * b.0) % p;
        let y: u64 = (a.1 * b.1) % p;
        let re: u64 = (x + p - y) % p;
        let im: u64 = (a.0 * b.1 + a.1 * b.0) % p;
        proof {
            let pi = p as int;
            lemma_sub_mod_noop(a.0 * b.0, a.1 * b.1, pi);
            lemma_mod_multiples_vanish(1, x - y, pi);
        }
        (re, im)
    }
}

impl Scalar for Mersenne31 {
    open spec fn zero_spec() -> Self {
        Mersenne31 { value: 0 }
    }

    open spec fn add_spec(self, rhs: Self) -> Self {
        Mersenne31 { value: ((self.value as int + rhs.value as int) % (MODULUS as int)) as u32 }
    }

    open spec fn sub_spec(self, rhs: Self) -> Self {
        self.add_spec(rhs.neg_spec())
    }

    open spec fn mul_spec(self, rhs: Self) -> Self {
        Mersenne31 { value: ((self.value as int * rhs.value as int) % (MODULUS as int)) as u32 }
    }

    open spec fn neg_spec(self) -> Self {
        Mersenne31 { value: ((-(self.value as int)) % (MODULUS as int)) as u32 }
    }

    open spec fn half_spec(self) -> Self {
        Mersenne31 { value: ((self.value as int * HALF_OF_ONE as int) % (MODULUS as int)) as u32 }
    }

    open spec fn sine_spec(i: usize) -> Self {
        Mersenne31 { value: circle(i as nat).1 as u32 }
    }

    fn zero() -> (r: Self) {
        Mersenne31 { value: 0 }
    }

    fn add(self, rhs: Self) -> (r: Self) {
        let sum: u64 = self.value as u64 + rhs.value as u64;
        Mersenne31 { value: (sum % (MODULUS as u64)) as u32 }
    }

    fn sub(self, rhs: Self) -> (r: Self) {
        self.add(rhs.neg())
    }

    fn mul(self, rhs: Self) -> (r: Self) {
        assert(self.value * rhs.value <= 0xffff_ffff * 0xffff_ffff) by (nonlinear_arith)
            requires
                self.value <= 0xffff_ffff,
                rhs.value <= 0xffff_ffff,
        ;
        let product: u64 = self.value as u64 * rhs.value as u64;
        Mersenne31 { value: (product % (MODULUS as u64)) as u32 }
    }

    fn neg(self) -> (r: Self) {
        let v: u32 = self.value % MODULUS;
        proof {
            let p = MODULUS as int;
            let q = self.value as int / p;
            if v == 0 {
                lemma_fundamental_div_mod_converse(-(self.value as int), p, -q, 0);
            } else {
                lemma_fundamental_div_mod_converse(-(self.value as int), p, -q - 1, p - v);
            }
        }
        if v == 0 {
            Mersenne31 { value: 0 }
        } else {
            Mersenne31 { value: MODULUS - v }
        }
    }

    fn half(self) -> (r: Self) {
        assert(self.value * HALF_OF_ONE <= 0xffff_ffff * 0x4000_0000) by (nonlinear_arith)
            requires
                self.value <= 0xffff_ffff,
                HALF_OF_ONE == 0x4000_0000,
        ;
        let product: u64 = self.value as u64 * HALF_OF_ONE as u64;
        Mersenne31 { value: (product % (MODULUS as u64)) as u32 }
    }

    /// The sine at `i` steps: the imaginary part of the `i`th power of the
    /// generator, multiplied together from the powers with exponents `2^j`.
    fn sine(i: usize) -> (r: Self) {
        let mut acc: (u64, u64) = (1, 0);
        let mut rest: usize = i;
        let mut j: u32 = 0;
        proof {
            lemma2_to64();
        }
        while j < 13
            invariant
                j <= 13,
                i <= 4096,
                rest == i as nat / pow2(j as nat),
                (acc.0 as int, acc.1 as int) == circle(i as nat % pow2(j as nat)),
            decreases 13 - j,
        {
            proof {
                let step = pow2(j as nat);
                let low = i as nat % step;
                lemma_pow2_pos(j as nat);
                lemma_pow2_unfold((j + 1) as nat);
                lemma_mod_breakdown(i as int, step as int, 2);
                assert(step * 2 == 2 * step);
                assert(i as nat % (2 * step) == step * (rest as nat % 2) + low);
                vstd::arithmetic::div_mod::lemma_div_denominator(i as int, step as int, 2);
                lemma_circle_add(low, step);
                lemma_doubling(j as nat);
                lemma_circle_in_field(low);
                lemma_circle_in_field(step);
                assert(step * 1 == step && step * 0 == 0);
            }
            if rest % 2 == 1 {
                acc = Self::pair_product(acc, Self::generator_power(j));
            }
            rest = rest / 2;
            j = j + 1;
        }
        proof {
            lemma_small_mod(i as nat, pow2(13));
            lemma_circle_in_field(i as nat);
        }
        Mersenne31 { value: acc.1 as u32 }
    }
}

impl Ring for Mersenne31 {
    open spec fn member(self) -> bool {
        self.value < MODULUS
    }

    proof fn lemma_closed(a: Self, b: Self) {
    }

    proof fn lemma_add_comm(a: Self, b: Self) {
    }

    proof fn lemma_add_assoc(a: Self, b: Self, c: Self) {
        let p = MODULUS as int;
        lemma_add_mod_noop(a.value as int + b.value as int, c.value as int, p);
        lemma_add_mod_noop(a.value as int, b.value as int + c.value as int, p);
        lemma_add_mod_noop((a.value as int + b.value as int) % p, c.value as int, p);
        lemma_add_mod_noop(a.value as int, (b.value as int + c.value as int) % p, p);
    }

    proof fn lemma_add_zero(a: Self) {
    }

    proof fn lemma_add_neg(a: Self) {
        let p = MODULUS as int;
        vstd::arithmetic::div_mod::lemma_add_mod_noop_right(a.value as int, -(a.value as int), p);
    }

    proof fn lemma_sub_is_add_neg(a: Self, b: Self) {
    }

    proof fn lemma_mul_comm(a: Self, b: Self) {
        assert(a.value as int * b.value as int == b.value as int * a.value as int)
            by (nonlinear_arith);
    }

    proof fn lemma_mul_assoc(a: Self, b: Self, c: Self) {
        let p = MODULUS as int;
        let (x, y, z) = (a.value as int, b.value as int, c.value as int);
        lemma_mul_mod_noop_general(x * y, z, p);
        lemma_mul_mod_noop_general(x, y * z, p);
        lemma_mul_is_associative(x, y, z);
    }

    proof fn lemma_distributive(a: Self, b: Self, c: Self) {
        let p = MODULUS as int;
        let (x, y, z) = (a.value as int, b.value as int, c.value as int);
        lemma_mul_mod_noop_general(x, y + z, p);
        lemma_mul_is_distributive_add(x, y, z);
        lemma_add_mod_noop(x * y, x * z, p);
    }

    proof fn lemma_half_of_double(a: Self) {
        let p = MODULUS as int;
        let x = a.value as int;
        lemma_mul_mod_noop_general(x + x, HALF_OF_ONE as int, p);
        assert((x + x) * (HALF_OF_ONE as int) == p * x + x) by (nonlinear_arith)
            requires
                HALF_OF_ONE == 1073741824,
                p == 2147483647,
        ;
        lemma_mod_multiples_vanish(x, x, p);
    }
}

/// The product of the complex numbers that two pairs stand for is the complex
/// number that the product of the pairs stands for.
proof fn lemma_lift_mul(a: (int, int), b: (int, int))
    requires
        in_field(a),
        in_field(b),
    ensures
        lift(a).mul_spec(lift(b)) == lift(pair_mul(a, b)),
{
    let p = MODULUS as int;
    let x = (a.0 * b.0) % p;
    let y = (a.1 * b.1) % p;
    vstd::arithmetic::div_mod::lemma_add_mod_noop_right(x, -y, p);
    lemma_sub_mod_noop(a.0 * b.0, a.1 * b.1, p);
    lemma_add_mod_noop(a.0 * b.1, a.1 * b.0, p);
}

/// The point of the unit circle at `m` table steps is the conjugate of the
/// `m`th power of the generator.
proof fn lemma_unit_is_conj(m: int)
    requires
        0 <= m < 8192,
    ensures
        unit_spec::<Mersenne31>(m) == lift(pair_conj(circle(m as nat))),
{
    let p = MODULUS as int;
    lemma2_to64();
    lemma_circle_in_field(m as nat);
    if m <= 4096 {
        lemma_quarter_mirror(m as nat);
        lemma_circle_in_field((4096 - m) as nat);
    } else {
        let r = (m - 4096) as nat;
        lemma_circle_in_field(r);
        lemma_circle_in_field((8192 - m) as nat);
        lemma_doubling(12);
        lemma_circle_add(4096, r);
        lemma_quarter_mirror(r);
        let z = circle(r);
        assert(0 * z.0 - 1 * z.1 == -z.1 && 0 * z.1 + 1 * z.0 == z.0);
        lemma_small_mod(z.0 as nat, MODULUS as nat);
    }
}

impl Exact for Mersenne31 {
    proof fn lemma_sine_member(i: usize) {
        lemma_circle_in_field(i as nat);
    }

    proof fn lemma_sine_zero() {
    }

    proof fn lemma_sine_one(a: Self) {
        lemma2_to64();
        lemma_doubling(12);
        assert(1 * a.value as int == a.value as int);
    }

    proof fn lemma_unit_mul(a: int, b: int) {
        let p = MODULUS as int;
        let (za, zb) = (circle(a as nat), circle(b as nat));
        lemma_unit_is_conj(a);
        lemma_unit_is_conj(b);
        lemma_circle_in_field(a as nat);
        lemma_circle_in_field(b as nat);
        lemma_lift_mul(pair_conj(za), pair_conj(zb));
        lemma_pair_conj_mul(za, zb);
        lemma_circle_add(a as nat, b as nat);
        if a + b < 8192 {
            lemma_unit_is_conj(a + b);
        } else {
            let r = (a + b - 8192) as nat;
            let z = circle(r);
            lemma2_to64();
            lemma_unit_is_conj(r as int);
            lemma_doubling(13);
            lemma_circle_add(8192, r);
            lemma_circle_in_field(r);
            assert(2147483646 * z.0 - 0 * z.1 == p * z.0 - z.0 && 2147483646 * z.1 + 0 * z.0 == p
                * z.1 - z.1);
            lemma_mod_multiples_vanish(z.0, -z.0, p);
            lemma_mod_multiples_vanish(z.1, -z.1, p);
        }
    }
}

} // verus!
