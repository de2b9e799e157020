//! The complex transform: what it computes, and the in-place butterfly
//! network that computes it.
use crate::bitrev::{
    bit_reverse, bit_reverse_reorder, lemma_bit_reverse_bound, lemma_bit_reverse_halves, permuted,
};
use crate::sample::Complex;
use crate::scalar::Scalar;
use crate::twiddle::{is_size, lemma_stride, twiddle_spec, unit, MAX_N};
use vstd::arithmetic::div_mod::lemma_fundamental_div_mod_converse;
use vstd::arithmetic::power2::{
    lemma2_to64, lemma_pow2_adds, lemma_pow2_pos, lemma_pow2_strictly_increases,
    lemma_pow2_unfold, pow2,
};
use vstd::prelude::*;

verus! {

/// The elements of `x` at the even indices.
pub open spec fn evens<A>(x: Seq<A>) -> Seq<A> {
    Seq::new((x.len() / 2) as nat, |j: int| x[2 * j])
}

/// The elements of `x` at the odd indices.
pub open spec fn odds<A>(x: Seq<A>) -> Seq<A> {
    Seq::new((x.len() / 2) as nat, |j: int| x[2 * j + 1])
}

/// `b` turned by the rotation factor `exp(-2*pi*i*k/n)`. The factor at
/// `k == 0` is one and is not multiplied with.
pub open spec fn rotate<T: Scalar>(k: int, n: int, b: Complex<T>) -> Complex<T> {
    if k == 0 {
        b
    } else {
        twiddle_spec::<T>(k, n).mul_spec(b)
    }
}

/// The transform of size `2h` from the transforms `e` of the even and `o` of
/// the odd samples, each of size `h`: bin `k` is `e[k] + w^k * o[k]` and bin
/// `k + h` is `e[k] - w^k * o[k]`, with `w = exp(-2*pi*i/(2h))`.
pub open spec fn combine<T: Scalar>(e: Seq<Complex<T>>, o: Seq<Complex<T>>) -> Seq<Complex<T>> {
    let h = e.len() as int;
    Seq::new(
        (2 * h) as nat,
        |k: int|
            if k < h {
                e[k].add_spec(rotate(k, 2 * h, o[k]))
            } else {
                e[k - h].sub_spec(rotate(k - h, 2 * h, o[k - h]))
            },
    )
}

/// The radix-2 decimation-in-time transform of `x`, whose length is a power
/// of two: a single sample is its own transform, and a longer buffer is
/// combined from the transforms of its even and of its odd samples.
pub open spec fn dit<T: Scalar>(x: Seq<Complex<T>>) -> Seq<Complex<T>>
    decreases x.len(),
{
    if x.len() <= 1 {
        x
    } else {
        combine(dit(evens(x)), dit(odds(x)))
    }
}

/// One stage of the butterfly network on blocks of `2 * half` slots: in each
/// block, slot `j` of the lower half and slot `j` of the upper half are
/// replaced by their sum and their difference, the upper one rotated first.
pub open spec fn stage<T: Scalar>(x: Seq<Complex<T>>, half: int) -> Seq<Complex<T>> {
    Seq::new(
        x.len(),
        |i: int|
            {
                let off = i % (2 * half);
                if off < half {
                    x[i].add_spec(rotate(off, 2 * half, x[i + half]))
                } else {
                    x[i - half].sub_spec(rotate(off - half, 2 * half, x[i]))
                }
            },
    )
}

/// The buffer after the first `bits` stages, on blocks of 2, 4, ..., `2^bits`
/// slots.
pub open spec fn network<T: Scalar>(x: Seq<Complex<T>>, bits: nat) -> Seq<Complex<T>>
    decreases bits,
{
    if bits == 0 {
        x
    } else {
        stage(network(x, (bits - 1) as nat), pow2((bits - 1) as nat) as int)
    }
}

/// The network keeps the length of the buffer.
pub proof fn lemma_network_len<T: Scalar>(x: Seq<Complex<T>>, bits: nat)
    ensures
        network(x, bits).len() == x.len(),
    decreases bits,
{
    if bits > 0 {
        lemma_network_len(x, (bits - 1) as nat);
    }
}

/// The transform keeps the length of a buffer of `2^bits` samples.
pub proof fn lemma_dit_len<T: Scalar>(x: Seq<Complex<T>>, bits: nat)
    requires
        x.len() == pow2(bits),
    ensures
        dit(x).len() == x.len(),
    decreases bits,
{
    lemma2_to64();
    if bits > 0 {
        lemma_pow2_unfold(bits);
        lemma_pow2_pos((bits - 1) as nat);
        lemma_dit_len(evens(x), (bits - 1) as nat);
        lemma_dit_len(odds(x), (bits - 1) as nat);
    }
}

/// The transform of two samples is one butterfly without rotation: their sum
/// and their difference.
pub proof fn lemma_dit_of_two<T: Scalar>(a: Complex<T>, b: Complex<T>)
    ensures
        dit(seq![a, b]) == seq![a.add_spec(b), a.sub_spec(b)],
{
    let x = seq![a, b];
    assert(evens(x) =~= seq![a]);
    assert(odds(x) =~= seq![b]);
    assert(dit(seq![a]) == seq![a]);
    assert(dit(seq![b]) == seq![b]);
    assert(combine(seq![a], seq![b]) =~= seq![a.add_spec(b), a.sub_spec(b)]);
}

/// An index and the same index moved up by a multiple of the block size sit
/// at the same place in their blocks.
proof fn lemma_offset(i: int, m: int, size: int)
    requires
        0 < size,
        0 <= i,
        0 <= m,
        m % size == 0,
    ensures
        (m + i) % size == i % size,
        m <= (m + i) - (m + i) % size,
        i - i % size >= 0,
{
    let q = m / size;
    let p = i / size;
    vstd::arithmetic::div_mod::lemma_fundamental_div_mod(m, size);
    vstd::arithmetic::div_mod::lemma_fundamental_div_mod(i, size);
    assert(m == size * q);
    assert(m + i == (q + p) * size + i % size) by (nonlinear_arith)
        requires
            m == size * q,
            i == size * p + i % size,
    ;
    lemma_fundamental_div_mod_converse(m + i, size, q + p, i % size);
}

/// A block that begins at a multiple of the block size ends within any
/// buffer whose length is a multiple of the block size.
proof fn lemma_block_within(i: int, len: int, size: int)
    requires
        0 < size,
        0 <= i < len,
        len % size == 0,
    ensures
        i - i % size + size <= len,
        0 <= i - i % size,
{
    let q = len / size;
    let p = i / size;
    vstd::arithmetic::div_mod::lemma_fundamental_div_mod(len, size);
    vstd::arithmetic::div_mod::lemma_fundamental_div_mod(i, size);
    assert(size * p + size <= size * q) by (nonlinear_arith)
        requires
            size * p + i % size < size * q,
            0 <= i % size < size,
            0 < size,
    ;
}

/// A stage works on each of two buffers that are laid end to end as it works
/// on them apart, if blocks do not straddle the joint.
proof fn lemma_stage_concat<T: Scalar>(u: Seq<Complex<T>>, v: Seq<Complex<T>>, half: int)
    requires
        0 < half,
        u.len() as int % (2 * half) == 0,
        v.len() as int % (2 * half) == 0,
    ensures
        stage(u + v, half) =~= stage(u, half) + stage(v, half),
{
    let size = 2 * half;
    let w = u + v;
    assert forall|i: int| 0 <= i < w.len() implies stage(w, half)[i] == (stage(u, half) + stage(
        v,
        half,
    ))[i] by {
        if i < u.len() {
            lemma_block_within(i, u.len() as int, size);
        } else {
            let k = i - u.len();
            lemma_offset(k, u.len() as int, size);
            lemma_block_within(k, v.len() as int, size);
        }
    }
}

/// The network works on each of two buffers of `2^c` slots that are laid end
/// to end as it works on them apart, up to blocks of `2^c` slots.
proof fn lemma_network_concat<T: Scalar>(
    u: Seq<Complex<T>>,
    v: Seq<Complex<T>>,
    c: nat,
    bits: nat,
)
    requires
        u.len() == pow2(c),
        v.len() == pow2(c),
        bits <= c,
    ensures
        network(u + v, bits) =~= network(u, bits) + network(v, bits),
    decreases bits,
{
    if bits > 0 {
        let b = (bits - 1) as nat;
        let half = pow2(b) as int;
        lemma_network_concat(u, v, c, b);
        lemma_network_len(u, b);
        lemma_network_len(v, b);
        lemma_pow2_pos(b);
        lemma_pow2_unfold(bits);
        lemma_pow2_adds(bits, (c - bits) as nat);
        let rest = pow2((c - bits) as nat) as int;
        assert(pow2(c) == (2 * half) * rest);
        assert(((2 * half) * rest) % (2 * half) == 0) by (nonlinear_arith)
            requires
                0 < half,
        ;
        lemma_stage_concat(network(u, b), network(v, b), half);
    }
}

/// On a single block, a stage combines the lower half with the upper half.
proof fn lemma_stage_combines<T: Scalar>(e: Seq<Complex<T>>, o: Seq<Complex<T>>)
    requires
        0 < e.len(),
        e.len() == o.len(),
    ensures
        stage(e + o, e.len() as int) =~= combine(e, o),
{
    let h = e.len() as int;
    let w = e + o;
    assert forall|i: int| 0 <= i < 2 * h implies stage(w, h)[i] == combine(e, o)[i] by {
        lemma_fundamental_div_mod_converse(i, 2 * h, 0, i);
    }
}

/// The lower half of a bit-reversed buffer is its even samples, bit-reversed,
/// and the upper half its odd samples, bit-reversed.
proof fn lemma_permuted_halves<A>(x: Seq<A>, bits: nat)
    requires
        0 < bits,
        x.len() == pow2(bits),
    ensures
        pow2(bits) == 2 * pow2((bits - 1) as nat),
        permuted(x, bits).subrange(0, pow2((bits - 1) as nat) as int) =~= permuted(
            evens(x),
            (bits - 1) as nat,
        ),
        permuted(x, bits).subrange(pow2((bits - 1) as nat) as int, x.len() as int) =~= permuted(
            odds(x),
            (bits - 1) as nat,
        ),
{
    let b = (bits - 1) as nat;
    let h = pow2(b) as int;
    lemma_pow2_unfold(bits);
    lemma_pow2_pos(b);
    let p = permuted(x, bits);
    assert forall|k: int| 0 <= k < h implies p.subrange(0, h)[k] == permuted(evens(x), b)[k] by {
        lemma_bit_reverse_halves(k as nat, bits);
        lemma_bit_reverse_bound(k as nat, b);
    }
    assert forall|k: int| 0 <= k < h implies p.subrange(h, x.len() as int)[k] == permuted(
        odds(x),
        b,
    )[k] by {
        lemma_bit_reverse_halves((k + h) as nat, bits);
        lemma_bit_reverse_bound(k as nat, b);
    }
}

/// The butterfly network, run on the bit-reversed buffer, computes the
/// transform.
pub proof fn lemma_network_is_dit<T: Scalar>(x: Seq<Complex<T>>, bits: nat)
    requires
        x.len() == pow2(bits),
    ensures
        network(permuted(x, bits), bits) == dit(x),
    decreases bits,
{
    lemma2_to64();
    let p = permuted(x, bits);
    if bits == 0 {
        assert(bit_reverse(0, 0) == 0);
        assert(p =~= x);
    } else {
        let b = (bits - 1) as nat;
        let h = pow2(b) as int;
        lemma_permuted_halves(x, bits);
        lemma_pow2_pos(b);
        let lo = p.subrange(0, h);
        let hi = p.subrange(h, x.len() as int);
        assert(p =~= lo + hi);
        lemma_network_concat(lo, hi, b, b);
        lemma_network_is_dit(evens(x), b);
        lemma_network_is_dit(odds(x), b);
        lemma_dit_len(evens(x), b);
        lemma_dit_len(odds(x), b);
        lemma_stage_combines(dit(evens(x)), dit(odds(x)));
        assert(network(p, b) == dit(evens(x)) + dit(odds(x)));
    }
}

/// Runs the butterfly stages on blocks of 2, 4, ..., `2^bits` slots, in place.
#[inline]
pub fn butterflies<T: Scalar>(buf: &mut [Complex<T>], bits: u32)
    requires
        bits <= 14,
        old(buf)@.len() == pow2(bits as nat),
    ensures
        final(buf)@ == network(old(buf)@, bits as nat),
{
    let n: usize = buf.len();
    let mut half: usize = 1;
    let mut level: u32 = 0;
    proof {
        lemma2_to64();
    }
    while level < bits
        invariant
            level <= bits <= 14,
            half == pow2(level as nat),
            n == pow2(bits as nat),
            n <= 16384,
            buf@.len() == n,
            buf@ == network(old(buf)@, level as nat),
        decreases bits - level,
    {
        let ghost prev = buf@;
        let ghost blocks = pow2((bits - level - 1) as nat) as int;
        proof {
            lemma_pow2_pos(level as nat);
            lemma_pow2_unfold((level + 1) as nat);
            lemma_pow2_adds((level + 1) as nat, (bits - level - 1) as nat);
            lemma_pow2_pos((bits - level - 1) as nat);
            if level + 1 < bits {
                lemma_pow2_strictly_increases((level + 1) as nat, bits as nat);
            }
            assert(is_size(2 * half as int)) by {
                assert(2 * half == pow2((level + 1) as nat));
            }
            lemma_stride(0, 2 * half as int);
        }
        let size: usize = 2 * half;
        let stride: usize = MAX_N / size;
        let mut start: usize = 0;
        let ghost mut q: int = 0;
        while start < n
            invariant
                0 < half,
                size == 2 * half,
                is_size(size as int),
                stride == 16384int / (size as int),
                n == size * blocks,
                n <= 16384,
                0 <= q <= blocks,
                start == size * q,
                buf@.len() == n,
                prev.len() == n,
                forall|i: int|
                    #![trigger buf@[i]]
                    0 <= i < n ==> buf@[i] == if i < start {
                        stage(prev, half as int)[i]
                    } else {
                        prev[i]
                    },
            decreases n - start,
        {
            proof {
                assert(q < blocks && size * (q + 1) <= size * blocks && size * (q + 1) == size * q
                    + size) by (nonlinear_arith)
                    requires
                        size * q < size * blocks,
                        0 < size,
                        0 <= q <= blocks,
                ;
                assert((size * q) % (size as int) == 0) by (nonlinear_arith)
                    requires
                        0 < size,
                ;
            }
            let mut j: usize = 0;
            while j < half
                invariant
                    0 < half,
                    size == 2 * half,
                    is_size(size as int),
                    stride == 16384int / (size as int),
                    j <= half,
                    start + size <= n,
                    n <= 16384,
                    start % size == 0,
                    buf@.len() == n,
                    prev.len() == n,
                    forall|i: int|
                        #![trigger buf@[i]]
                        0 <= i < n ==> buf@[i] == if i < start || (start <= i < start + j) || (
                        start + half <= i < start + half + j) {
                            stage(prev, half as int)[i]
                        } else {
                            prev[i]
                        },
                decreases half - j,
            {
                let ghost before = buf@;
                let lower: usize = start + j;
                let upper: usize = lower + half;
                proof {
                    lemma_stride(j as int, size as int);
                    lemma_offset(j as int, start as int, size as int);
                    lemma_offset(j + half, start as int, size as int);
                    lemma_fundamental_div_mod_converse(j as int, size as int, 0, j as int);
                    lemma_fundamental_div_mod_converse(j + half, size as int, 0, j + half);
                }
                let a: Complex<T> = buf[lower];
                let b: Complex<T> = buf[upper];
                assert(a == prev[lower as int] && b == prev[upper as int]) by {
                    assert(a == before[lower as int]);
                    assert(b == before[upper as int]);
                }
                let t: Complex<T> = if j == 0 {
                    b
                } else {
                    unit::<T>(j * stride).mul(b)
                };
                assert(t == rotate(j as int, size as int, prev[upper as int]));
                buf[lower] = a.add(t);
                buf[upper] = a.sub(t);
                assert(buf@[lower as int] == stage(prev, half as int)[lower as int]);
                assert(buf@[upper as int] == stage(prev, half as int)[upper as int]);
                assert forall|i: int| 0 <= i < n implies buf@[i] == if i < start || (start <= i
                    < start + j + 1) || (start + half <= i < start + half + j + 1) {
                    stage(prev, half as int)[i]
                } else {
                    prev[i]
                } by {
                    if i != lower && i != upper {
                        assert(buf@[i] == before[i]);
                    }
                }
                j = j + 1;
            }
            start = start + size;
            proof {
                q = q + 1;
            }
        }
        assert(buf@ =~= stage(prev, half as int));
        half = size;
        level = level + 1;
    }
}

/// Transforms the `2^bits` samples of `buf` in place: a bit-reversal
/// permutation, then the butterfly stages.
#[inline]
pub fn transform<T: Scalar>(buf: &mut [Complex<T>], bits: u32)
    requires
        bits <= 14,
        old(buf)@.len() == pow2(bits as nat),
    ensures
        final(buf)@ == dit(old(buf)@),
{
    bit_reverse_reorder(buf, bits);
    butterflies(buf, bits);
    proof {
        lemma_network_is_dit(old(buf)@, bits as nat);
    }
}

} // verus!
