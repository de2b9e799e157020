//! The complex transform over exact scalars: it is linear, and it stays
//! within the ring.
use crate::algebra::{all_members, is_member, lemma_ring_facts, Ring};
use crate::cfft::{combine, dit, evens, lemma_dit_len, odds, rotate};
use crate::sample::Complex;
use vstd::arithmetic::power2::{lemma2_to64, lemma_pow2_pos, lemma_pow2_unfold, pow2};
use vstd::prelude::*;

verus! {

/// The sum of two buffers, slot by slot.
pub open spec fn seq_add<T: Ring>(a: Seq<Complex<T>>, b: Seq<Complex<T>>) -> Seq<Complex<T>> {
    Seq::new(a.len(), |k: int| a[k].add_spec(b[k]))
}

/// The buffer `a` with every slot multiplied by `c`.
pub open spec fn seq_scale<T: Ring>(c: Complex<T>, a: Seq<Complex<T>>) -> Seq<Complex<T>> {
    Seq::new(a.len(), |k: int| c.mul_spec(a[k]))
}

/// A butterfly of sums is the sum of the butterflies.
proof fn lemma_butterfly_additive<T: Ring>(
    e1: Complex<T>,
    e2: Complex<T>,
    o1: Complex<T>,
    o2: Complex<T>,
    k: int,
    n: int,
)
    ensures
        e1.add_spec(e2).add_spec(rotate(k, n, o1.add_spec(o2))) == e1.add_spec(
            rotate(k, n, o1),
        ).add_spec(e2.add_spec(rotate(k, n, o2))),
        e1.add_spec(e2).sub_spec(rotate(k, n, o1.add_spec(o2))) == e1.sub_spec(
            rotate(k, n, o1),
        ).add_spec(e2.sub_spec(rotate(k, n, o2))),
{
    lemma_ring_facts::<T>();
}

/// A butterfly of multiples is the multiple of the butterfly.
proof fn lemma_butterfly_homogeneous<T: Ring>(
    c: Complex<T>,
    e: Complex<T>,
    o: Complex<T>,
    k: int,
    n: int,
)
    ensures
        c.mul_spec(e).add_spec(rotate(k, n, c.mul_spec(o))) == c.mul_spec(
            e.add_spec(rotate(k, n, o)),
        ),
        c.mul_spec(e).sub_spec(rotate(k, n, c.mul_spec(o))) == c.mul_spec(
            e.sub_spec(rotate(k, n, o)),
        ),
{
    lemma_ring_facts::<T>();
}

/// The transform of a sum of two buffers is the sum of their transforms.
pub proof fn lemma_dit_additive<T: Ring>(a: Seq<Complex<T>>, b: Seq<Complex<T>>, bits: nat)
    requires
        a.len() == pow2(bits),
        b.len() == pow2(bits),
    ensures
        dit(seq_add(a, b)) == seq_add(dit(a), dit(b)),
    decreases bits,
{
    lemma2_to64();
    lemma_dit_len(a, bits);
    lemma_dit_len(b, bits);
    if bits == 0 {
        assert(dit(seq_add(a, b)) =~= seq_add(dit(a), dit(b)));
    } else {
        let h = (bits - 1) as nat;
        lemma_pow2_unfold(bits);
        lemma_pow2_pos(h);
        assert(evens(seq_add(a, b)) =~= seq_add(evens(a), evens(b)));
        assert(odds(seq_add(a, b)) =~= seq_add(odds(a), odds(b)));
        lemma_dit_additive(evens(a), evens(b), h);
        lemma_dit_additive(odds(a), odds(b), h);
        lemma_dit_len(evens(a), h);
        lemma_dit_len(evens(b), h);
        lemma_dit_len(odds(a), h);
        lemma_dit_len(odds(b), h);
        let (ea, oa, eb, ob) = (dit(evens(a)), dit(odds(a)), dit(evens(b)), dit(odds(b)));
        let n = a.len() as int;
        assert forall|k: int| 0 <= k < n implies combine(seq_add(ea, eb), seq_add(oa, ob))[k]
            == seq_add(combine(ea, oa), combine(eb, ob))[k] by {
            let j = if k < n / 2 {
                k
            } else {
                k - n / 2
            };
            lemma_butterfly_additive(ea[j], eb[j], oa[j], ob[j], j, n);
        }
        assert(combine(seq_add(ea, eb), seq_add(oa, ob)) =~= seq_add(
            combine(ea, oa),
            combine(eb, ob),
        ));
    }
}

/// The transform of a multiple of a buffer is that multiple of its transform.
pub proof fn lemma_dit_homogeneous<T: Ring>(c: Complex<T>, a: Seq<Complex<T>>, bits: nat)
    requires
        a.len() == pow2(bits),
    ensures
        dit(seq_scale(c, a)) == seq_scale(c, dit(a)),
    decreases bits,
{
    lemma2_to64();
    lemma_dit_len(a, bits);
    if bits == 0 {
        assert(dit(seq_scale(c, a)) =~= seq_scale(c, dit(a)));
    } else {
        let h = (bits - 1) as nat;
        lemma_pow2_unfold(bits);
        lemma_pow2_pos(h);
        assert(evens(seq_scale(c, a)) =~= seq_scale(c, evens(a)));
        assert(odds(seq_scale(c, a)) =~= seq_scale(c, odds(a)));
        lemma_dit_homogeneous(c, evens(a), h);
        lemma_dit_homogeneous(c, odds(a), h);
        lemma_dit_len(evens(a), h);
        lemma_dit_len(odds(a), h);
        let (e, o) = (dit(evens(a)), dit(odds(a)));
        let n = a.len() as int;
        assert forall|k: int| 0 <= k < n implies combine(seq_scale(c, e), seq_scale(c, o))[k]
            == seq_scale(c, combine(e, o))[k] by {
            let j = if k < n / 2 {
                k
            } else {
                k - n / 2
            };
            lemma_butterfly_homogeneous(c, e[j], o[j], j, n);
        }
        assert(combine(seq_scale(c, e), seq_scale(c, o)) =~= seq_scale(c, combine(e, o)));
    }
}

/// Linearity: with exact scalars, the transform of a sum of two buffers is the
/// sum of their transforms, and the transform of a buffer multiplied by a
/// number is the transform of the buffer multiplied by that number.
pub proof fn lemma_cfft_linear<T: Ring>(
    a: Seq<Complex<T>>,
    b: Seq<Complex<T>>,
    c: Complex<T>,
    bits: nat,
)
    requires
        a.len() == pow2(bits),
        b.len() == pow2(bits),
    ensures
        dit(seq_add(a, b)) == seq_add(dit(a), dit(b)),
        dit(seq_scale(c, a)) == seq_scale(c, dit(a)),
{
    lemma_dit_additive(a, b, bits);
    lemma_dit_homogeneous(c, a, bits);
}

/// The transform of elements of the ring is made of elements of the ring.
pub proof fn lemma_dit_members<T: Ring>(x: Seq<Complex<T>>, bits: nat)
    requires
        x.len() == pow2(bits),
        all_members(x),
    ensures
        all_members(dit(x)),
{
    lemma2_to64();
    lemma_dit_len(x, bits);
    if bits > 0 {
        lemma_pow2_unfold(bits);
        lemma_pow2_pos((bits - 1) as nat);
        lemma_dit_len(evens(x), (bits - 1) as nat);
        lemma_dit_len(odds(x), (bits - 1) as nat);
        let (e, o) = (dit(evens(x)), dit(odds(x)));
        let n = x.len() as int;
        assert forall|k: int| 0 <= k < n implies #[trigger] is_member(dit(x)[k]) by {
            let j = if k < n / 2 {
                k
            } else {
                k - n / 2
            };
            let t = rotate(j, n, o[j]);
            T::lemma_closed(e[j].re, t.re);
            T::lemma_closed(e[j].im, t.im);
        }
    }
}

} // verus!
