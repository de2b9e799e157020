//! The bit-reversal permutation.
use vstd::arithmetic::div_mod::{lemma_fundamental_div_mod_converse, lemma_mod_breakdown};
use vstd::arithmetic::power2::{lemma2_to64, lemma_pow2_pos, lemma_pow2_unfold, pow2};
use vstd::prelude::*;

verus! {

/// The index whose `bits`-bit binary representation is that of `i` read
/// backwards: the top bit of `i` becomes the lowest, and the rest of `i`,
/// reversed in `bits - 1` bits, stands above it.
pub open spec fn bit_reverse(i: nat, bits: nat) -> nat
    decreases bits,
{
    if bits == 0 {
        0
    } else {
        let top = pow2((bits - 1) as nat);
        2 * bit_reverse(i % top, (bits - 1) as nat) + i / top
    }
}

/// The sequence that holds at each index `k` the element of `x` at the
/// bit-reversed index.
pub open spec fn permuted<A>(x: Seq<A>, bits: nat) -> Seq<A> {
    Seq::new(x.len(), |k: int| x[bit_reverse(k as nat, bits) as int])
}

/// The element of `before` at index `k` stands in `after` at the bit-reversed
/// index.
pub open spec fn moved<A>(before: Seq<A>, after: Seq<A>, k: int, bits: nat) -> bool {
    let to = bit_reverse(k as nat, bits) as int;
    0 <= to < after.len() && after[to] == before[k]
}

/// An index below `2 * top` is its top bit times `top` plus what is below.
proof fn lemma_top_bit(i: nat, top: nat)
    requires
        0 < top,
        i < 2 * top,
    ensures
        i / top <= 1,
        i % top < top,
        i == top * (i / top) + i % top,
        i < top ==> i / top == 0 && i % top == i,
        i >= top ==> i / top == 1 && i % top == i - top,
{
    if i < top {
        lemma_fundamental_div_mod_converse(i as int, top as int, 0, i as int);
    } else {
        lemma_fundamental_div_mod_converse(i as int, top as int, 1, i - top);
    }
}

/// Reversal maps the indices below `2^bits` into themselves.
pub proof fn lemma_bit_reverse_bound(i: nat, bits: nat)
    requires
        i < pow2(bits),
    ensures
        bit_reverse(i, bits) < pow2(bits),
    decreases bits,
{
    if bits == 0 {
        lemma2_to64();
    } else {
        let top = pow2((bits - 1) as nat);
        lemma_pow2_unfold(bits);
        lemma_pow2_pos((bits - 1) as nat);
        lemma_top_bit(i, top);
        lemma_bit_reverse_bound(i % top, (bits - 1) as nat);
    }
}

/// An index in the lower half reverses to an even index, one in the upper
/// half to an odd one; what remains is the reversal in one bit less.
pub proof fn lemma_bit_reverse_halves(i: nat, bits: nat)
    requires
        0 < bits,
        i < pow2(bits),
    ensures
        pow2(bits) == 2 * pow2((bits - 1) as nat),
        i < pow2((bits - 1) as nat) ==> bit_reverse(i, bits) == 2 * bit_reverse(
            i,
            (bits - 1) as nat,
        ),
        i >= pow2((bits - 1) as nat) ==> bit_reverse(i, bits) == 2 * bit_reverse(
            (i - pow2((bits - 1) as nat)) as nat,
            (bits - 1) as nat,
        ) + 1,
{
    let top = pow2((bits - 1) as nat);
    lemma_pow2_unfold(bits);
    lemma_pow2_pos((bits - 1) as nat);
    lemma_top_bit(i, top);
}

/// The same index read from its low end: the lowest bit of `i` becomes the
/// top bit, and the rest of `i`, reversed in `bits - 1` bits, stands below it.
pub proof fn lemma_bit_reverse_low(i: nat, bits: nat)
    requires
        0 < bits,
        i < pow2(bits),
    ensures
        bit_reverse(i, bits) == (i % 2) * pow2((bits - 1) as nat) + bit_reverse(
            i / 2,
            (bits - 1) as nat,
        ),
    decreases bits,
{
    let top = pow2((bits - 1) as nat);
    lemma_pow2_unfold(bits);
    lemma_pow2_pos((bits - 1) as nat);
    lemma_top_bit(i, top);
    if bits == 1 {
        lemma2_to64();
        assert(bit_reverse(i % top, 0) == 0);
        assert(bit_reverse(i / 2, 0) == 0);
    } else {
        let low = pow2((bits - 2) as nat);
        lemma_pow2_unfold((bits - 1) as nat);
        lemma_pow2_pos((bits - 2) as nat);
        let rest = i % top;
        lemma_bit_reverse_low(rest, (bits - 1) as nat);
        // rest and i agree in their lowest bit, and i / 2 splits as i does
        assert(rest % 2 == i % 2 && (i / 2) % low == rest / 2 && (i / 2) / low == i / top) by {
            if i >= top {
                assert(rest == i - 2 * low);
            }
            lemma_top_bit(i / 2, low);
        }
        assert(bit_reverse(i / 2, (bits - 1) as nat) == 2 * bit_reverse(
            (i / 2) % low,
            (bits - 2) as nat,
        ) + (i / 2) / low);
        assert(2 * ((i % 2) * low) == (i % 2) * top) by (nonlinear_arith)
            requires
                top == 2 * low,
        ;
    }
}

/// Reversing twice gives the index back.
pub proof fn lemma_bit_reverse_involution(i: nat, bits: nat)
    requires
        i < pow2(bits),
    ensures
        bit_reverse(bit_reverse(i, bits), bits) == i,
    decreases bits,
{
    if bits == 0 {
        lemma2_to64();
    } else {
        let top = pow2((bits - 1) as nat);
        lemma_pow2_unfold(bits);
        lemma_pow2_pos((bits - 1) as nat);
        let j = bit_reverse(i, bits);
        let inner = bit_reverse(i / 2, (bits - 1) as nat);
        lemma_bit_reverse_low(i, bits);
        lemma_bit_reverse_bound(i / 2, (bits - 1) as nat);
        lemma_bit_reverse_involution(i / 2, (bits - 1) as nat);
        assert(j == (i % 2) * top + inner);
        assert(j / top == i % 2 && j % top == inner) by {
            let bit = i % 2;
            assert(bit * top == if bit == 0 { 0 } else { top }) by (nonlinear_arith)
                requires
                    bit == 0 || bit == 1,
            ;
            lemma_top_bit(j, top);
        }
    }
}

/// Reverses the lowest `bits` bits of `i`.
pub fn reverse_bits(i: usize, bits: u32) -> (r: usize)
    requires
        bits <= 14,
        i < pow2(bits as nat),
    ensures
        r == bit_reverse(i as nat, bits as nat),
        r < pow2(bits as nat),
{
    let mut r: usize = 0;
    let mut rest: usize = i;
    let mut t: u32 = 0;
    proof {
        lemma2_to64();
    }
    while t < bits
        invariant
            t <= bits <= 14,
            rest == i as nat / pow2(t as nat),
            r == bit_reverse(i as nat % pow2(t as nat), t as nat),
            r < pow2(t as nat),
            pow2(t as nat) <= 16384,
        decreases bits - t,
    {
        proof {
            let top = pow2(t as nat);
            lemma_pow2_unfold((t + 1) as nat);
            lemma_pow2_pos(t as nat);
            lemma_mod_breakdown(i as int, top as int, 2);
            let below = i as nat % (2 * top);
            assert(top * 2 == 2 * top);
            assert(below == top * ((i as nat / top) % 2) + (i as nat % top));
            lemma_fundamental_div_mod_converse(
                below as int,
                top as int,
                ((i as nat / top) % 2) as int,
                (i as nat % top) as int,
            );
            assert(bit_reverse(below, (t + 1) as nat) == 2 * bit_reverse(below % top, t as nat)
                + below / top);
            vstd::arithmetic::div_mod::lemma_div_denominator(i as int, top as int, 2);
            if t + 1 <= 14 {
                lemma2_to64();
                if t + 1 < 14 {
                    vstd::arithmetic::power2::lemma_pow2_strictly_increases((t + 1) as nat, 14);
                }
            }
        }
        r = 2 * r + rest % 2;
        rest = rest / 2;
        t = t + 1;
    }
    proof {
        vstd::arithmetic::div_mod::lemma_small_mod(i as nat, pow2(bits as nat));
    }
    r
}

/// Reorders the samples in place so that the sample at index `k` moves to the
/// bit-reversed index.
pub fn bit_reverse_reorder<T: Copy>(buf: &mut [T], bits: u32)
    requires
        bits <= 14,
        old(buf)@.len() == pow2(bits as nat),
    ensures
        final(buf)@ == permuted(old(buf)@, bits as nat),
        forall|k: int|
            0 <= k < old(buf)@.len() ==> #[trigger] moved(old(buf)@, final(buf)@, k, bits as nat),
{
    let n: usize = buf.len();
    let mut i: usize = 0;
    while i < n
        invariant
            bits <= 14,
            i <= n,
            n == pow2(bits as nat),
            buf@.len() == n,
            forall|k: int|
                0 <= k < n ==> buf@[k] == if k < i || bit_reverse(k as nat, bits as nat) < i {
                    old(buf)@[bit_reverse(k as nat, bits as nat) as int]
                } else {
                    old(buf)@[k]
                },
        decreases n - i,
    {
        let j: usize = reverse_bits(i, bits);
        proof {
            lemma_bit_reverse_involution(i as nat, bits as nat);
        }
        if i < j {
            let a: T = buf[i];
            let b: T = buf[j];
            let ghost before = buf@;
            buf[i] = b;
            buf[j] = a;
            assert forall|k: int| 0 <= k < n implies buf@[k] == if k < i + 1 || bit_reverse(
                k as nat,
                bits as nat,
            ) < i + 1 {
                old(buf)@[bit_reverse(k as nat, bits as nat) as int]
            } else {
                old(buf)@[k]
            } by {
                lemma_bit_reverse_involution(k as nat, bits as nat);
                if k != i && k != j {
                    assert(buf@[k] == before[k]);
                }
            }
        } else {
            assert forall|k: int| 0 <= k < n implies buf@[k] == if k < i + 1 || bit_reverse(
                k as nat,
                bits as nat,
            ) < i + 1 {
                old(buf)@[bit_reverse(k as nat, bits as nat) as int]
            } else {
                old(buf)@[k]
            } by {
                lemma_bit_reverse_involution(k as nat, bits as nat);
            }
        }
        i = i + 1;
    }
    assert(buf@ =~= permuted(old(buf)@, bits as nat));
    assert forall|k: int| 0 <= k < n implies #[trigger] moved(
        old(buf)@,
        buf@,
        k,
        bits as nat,
    ) by {
        lemma_bit_reverse_bound(k as nat, bits as nat);
        lemma_bit_reverse_involution(k as nat, bits as nat);
    }
}

} // verus!
