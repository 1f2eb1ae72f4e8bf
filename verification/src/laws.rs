//! Laws the library states of itself.
//!
//! The contracts of `IntPoly::mult_int` and `IntPoly::mult_tern` pin their
//! results to two differently shaped sums: the full cyclic convolution and
//! the sparse shift sum.  The lemmas here prove the two sums equal, so that
//! every multiplication routine returns coefficient-equal results.  A
//! further law records that the deterministic randomness backend is a
//! function of its seed.

use vstd::prelude::*;
use crate::rand::{det_byte, RandContext};
use crate::types::{
    conv_at, conv_partial, cyc, seq_disjoint, seq_distinct, seq_has, shift_sum, tern_conv_at,
    TernPoly,
};

verus! {

/// The dense coefficients built from the first `m1` entries of `ones` and
/// the first `m2` entries of `neg_ones`.
pub open spec fn dense_partial(n: nat, ones: Seq<u16>, neg_ones: Seq<u16>, m1: int, m2: int) -> Seq<
    int,
> {
    Seq::new(
        n,
        |j: int|
            if seq_has(ones.subrange(0, m1), j) {
                1int
            } else if seq_has(neg_ones.subrange(0, m2), j) {
                -1int
            } else {
                0int
            },
    )
}

/// A convolution with the zero polynomial is zero.
proof fn lemma_conv_zero(a: Seq<int>, d: Seq<int>, k: int, j: nat)
    requires
        j <= d.len(),
        forall|i: int| 0 <= i < d.len() ==> d[i] == 0,
    ensures
        conv_partial(a, d, k, j) == 0,
    decreases j,
{
    if j > 0 {
        lemma_conv_zero(a, d, k, (j - 1) as nat);
    }
}

/// Updating one coefficient of the dense operand adds one term to the
/// convolution.
proof fn lemma_conv_update(a: Seq<int>, d: Seq<int>, k: int, j: nat, p: int, val: int)
    requires
        a.len() == d.len(),
        a.len() >= 1,
        j <= d.len(),
        0 <= p < d.len(),
    ensures
        conv_partial(a, d.update(p, val), k, j) == conv_partial(a, d, k, j) + (if p < j {
            a[cyc(a.len() as int, k, p)] * (val - d[p])
        } else {
            0int
        }),
    decreases j,
{
    if j > 0 {
        lemma_conv_update(a, d, k, (j - 1) as nat, p, val);
        let d2 = d.update(p, val);
        assert(d2.len() == d.len());
        if p == j - 1 {
            assert(d2[j - 1] == val);
            assert(a[cyc(a.len() as int, k, j - 1)] * val - a[cyc(a.len() as int, k, j - 1)] * d[j
                - 1] == a[cyc(a.len() as int, k, j - 1)] * (val - d[j - 1]))
                by (nonlinear_arith);
        } else {
            assert(d2[j - 1] == d[j - 1]);
        }
    }
}

/// The convolution with the partial dense form equals the partial shift
/// sums.
proof fn lemma_dense_partial_conv(
    a: Seq<int>,
    n: nat,
    ones: Seq<u16>,
    neg_ones: Seq<u16>,
    k: int,
    m1: int,
    m2: int,
)
    requires
        a.len() == n,
        n >= 1,
        forall|i: int| 0 <= i < ones.len() ==> #[trigger] ones[i] < n,
        forall|i: int| 0 <= i < neg_ones.len() ==> #[trigger] neg_ones[i] < n,
        seq_distinct(ones),
        seq_distinct(neg_ones),
        seq_disjoint(ones, neg_ones),
        0 <= m1 <= ones.len(),
        0 <= m2 <= neg_ones.len(),
        m2 > 0 ==> m1 == ones.len(),
    ensures
        conv_partial(a, dense_partial(n, ones, neg_ones, m1, m2), k, n) == shift_sum(
            a,
            ones,
            k,
            m1 as nat,
        ) - shift_sum(a, neg_ones, k, m2 as nat),
    decreases m1 + m2 + (if m2 > 0 {
        1int
    } else {
        0int
    }),
{
    if m2 == 0 && m1 == 0 {
        let d = dense_partial(n, ones, neg_ones, 0, 0);
        assert(forall|i: int| 0 <= i < d.len() ==> d[i] == 0);
        lemma_conv_zero(a, d, k, n);
    } else if m2 == 0 {
        lemma_dense_partial_conv(a, n, ones, neg_ones, k, m1 - 1, 0);
        let pre = dense_partial(n, ones, neg_ones, m1 - 1, 0);
        let post = dense_partial(n, ones, neg_ones, m1, 0);
        let p = ones[m1 - 1] as int;
        let opre = ones.subrange(0, m1 - 1);
        let opost = ones.subrange(0, m1);
        assert(!seq_has(opre, p));
        assert(0 <= m1 - 1 < opost.len() && opost[m1 - 1] == p);
        assert(seq_has(opost, p));
        assert(forall|j: int| seq_has(opre, j) ==> seq_has(opost, j));
        assert(forall|j: int| seq_has(opost, j) && j != p ==> seq_has(opre, j));
        assert(pre[p] == 0);
        assert(post =~= pre.update(p, 1));
        lemma_conv_update(a, pre, k, n, p, 1);
    } else {
        lemma_dense_partial_conv(a, n, ones, neg_ones, k, m1, m2 - 1);
        let pre = dense_partial(n, ones, neg_ones, m1, m2 - 1);
        let post = dense_partial(n, ones, neg_ones, m1, m2);
        let p = neg_ones[m2 - 1] as int;
        let npre = neg_ones.subrange(0, m2 - 1);
        let npost = neg_ones.subrange(0, m2);
        assert(!seq_has(npre, p));
        assert(0 <= m2 - 1 < npost.len() && npost[m2 - 1] == p);
        assert(seq_has(npost, p));
        assert(forall|j: int| seq_has(npre, j) ==> seq_has(npost, j));
        assert(forall|j: int| seq_has(npost, j) && j != p ==> seq_has(npre, j));
        assert(ones.subrange(0, m1) =~= ones);
        assert(!seq_has(ones.subrange(0, m1), p));
        assert(pre[p] == 0);
        assert(post =~= pre.update(p, -1));
        lemma_conv_update(a, pre, k, n, p, -1);
    }
}

/// Multiply equivalence: for every dense polynomial `a` and well-formed
/// ternary polynomial `t` of the same degree, the sparse shift-sum product
/// that `mult_tern` computes equals, coefficient for coefficient, the full
/// cyclic convolution with the dense form of `t` that `mult_int` computes.
/// Together with the contracts of the two routines, every multiplication
/// implementation therefore returns coefficient-equal results modulo any
/// modulus.
pub proof fn lemma_tern_mult_matches_general(a: Seq<int>, t: &TernPoly, k: int)
    requires
        t.wf(),
        a.len() == t.n as int,
    ensures
        tern_conv_at(a, t.ones@, t.neg_ones@, k) == conv_at(a, t@, k),
{
    lemma_dense_partial_conv(
        a,
        t.n as nat,
        t.ones@,
        t.neg_ones@,
        k,
        t.ones@.len() as int,
        t.neg_ones@.len() as int,
    );
    assert(t.ones@.subrange(0, t.ones@.len() as int) =~= t.ones@);
    assert(t.neg_ones@.subrange(0, t.neg_ones@.len() as int) =~= t.neg_ones@);
    assert(dense_partial(
        t.n as nat,
        t.ones@,
        t.neg_ones@,
        t.ones@.len() as int,
        t.neg_ones@.len() as int,
    ) =~= t@);
}

/// Multiply equivalence, stated over results: whatever the dense routine
/// returns for `a` times the dense form of `t`, and whatever the sparse
/// routine returns for `a` times `t`, reduced modulo the same modulus, the
/// two coefficient sequences are equal.  The hypotheses are exactly the
/// contracts of `IntPoly::mult_int` and `IntPoly::mult_tern`.
pub proof fn lemma_mult_implementations_agree(
    a: Seq<int>,
    t: &TernPoly,
    r1: Seq<int>,
    r2: Seq<int>,
    m: int,
)
    requires
        t.wf(),
        a.len() == t.n as int,
        m >= 1,
        r1.len() == a.len(),
        r2.len() == a.len(),
        forall|k: int| 0 <= k < r1.len() ==> r1[k] == conv_at(a, t@, k) % m,
        forall|k: int|
            0 <= k < r2.len() ==> r2[k] == tern_conv_at(a, t.ones@, t.neg_ones@, k) % m,
    ensures
        r1 == r2,
{
    assert forall|k: int| 0 <= k < r1.len() implies r1[k] == r2[k] by {
        lemma_tern_mult_matches_general(a, t, k);
    }
    assert(r1 =~= r2);
}

/// Determinism of the seeded randomness backend: two well-formed
/// deterministic contexts with the same seed and the same stream position
/// see the same byte at every offset.  Together with the contract of
/// `rand::generate`, which pins every output byte to `det_byte` of the seed
/// and position, equal seeds therefore yield identical byte streams.
pub proof fn lemma_deterministic_streams_agree(c1: &RandContext, c2: &RandContext, j: int)
    requires
        c1.wf(),
        c2.wf(),
        c1.rand_gen.deterministic,
        c2.rand_gen.deterministic,
        c1.seed@ == c2.seed@,
        c1.pos() == c2.pos(),
    ensures
        det_byte(c1.seed@, c1.pos() + j) == det_byte(c2.seed@, c2.pos() + j),
{
}

} // verus!
