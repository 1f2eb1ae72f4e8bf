//! The index generation function and the mask generation function: both
//! derive pseudorandom material from a seed by repeated digest calls.  The
//! IGF yields indices below `N` (for the blinding polynomial); the MGF
//! yields a ternary masking polynomial.
//!
//! The parameter set's `min_calls_r` and `min_calls_mask` only size an
//! up-front batch of digest calls; blocks are derived here one at a time on
//! demand, which yields the same stream byte for byte.

use vstd::prelude::*;
use crate::digest::hash;
use crate::encparams::{pow2_u16, EncParams};
use crate::rand::clone_u8_vec;
use crate::types::{
    lemma_seq_has_push, seq_disjoint, seq_distinct, seq_has, IntPoly, PrivPoly, ProdPoly,
    TernPoly, MAX_DEGREE, MAX_ONES,
};

verus! {

/// Digest-driven bit source: a seed digest plus a running counter, handed
/// out bit by bit.
struct BitSource {
    kind: crate::encparams::DigestKind,
    z: Vec<u8>,
    counter: u32,
    /// Pending bits, each 0 or 1, least significant bit of each digest byte
    /// first.
    bits: Vec<u8>,
    /// Read position within `bits`.
    pos: usize,
}

impl BitSource {
    spec fn wf(&self) -> bool {
        &&& self.pos <= self.bits@.len()
        &&& forall|i: int| 0 <= i < self.bits@.len() ==> #[trigger] self.bits@[i] <= 1
    }
}

/// Start a bit source from a seed, hashing the seed first when the
/// parameter set says so.
fn bit_source_init(seed: &Vec<u8>, params: &EncParams) -> (r: BitSource)
    requires
        params.wf(),
    ensures
        r.wf(),
{
    let z = if params.hash_seed == 1 {
        hash(params.digest, seed)
    } else {
        clone_u8_vec(seed)
    };
    BitSource { kind: params.digest, z, counter: 0, bits: Vec::new(), pos: 0 }
}

/// Refill the pending bits from the next digest block.  Fails only when the
/// 32-bit block counter is exhausted.
fn bit_source_refill(s: &mut BitSource) -> (r: bool)
    requires
        old(s).wf(),
    ensures
        final(s).wf(),
        r ==> final(s).pos < final(s).bits@.len(),
{
    if s.counter == 0xFFFFFFFFu32 {
        return false;
    }
    let c = s.counter;
    let mut input = clone_u8_vec(&s.z);
    proof {
        assert(c as int / 0x1000000 < 256) by (nonlinear_arith)
            requires
                0 <= c <= 0xFFFFFFFFu32,
        ;
    }
    input.push(((c / 0x1000000) % 256) as u8);
    input.push(((c / 0x10000) % 256) as u8);
    input.push(((c / 0x100) % 256) as u8);
    input.push((c % 256) as u8);
    let block = hash(s.kind, &input);
    let mut bits: Vec<u8> = Vec::new();
    let mut i: usize = 0;
    while i < block.len()
        invariant
            i <= block@.len(),
            block@.len() <= 64,
            bits@.len() == 8 * i,
            forall|k: int| 0 <= k < bits@.len() ==> #[trigger] bits@[k] <= 1,
        decreases block@.len() - i,
    {
        let b = block[i];
        bits.push(b % 2);
        bits.push((b / 2) % 2);
        bits.push((b / 4) % 2);
        bits.push((b / 8) % 2);
        bits.push((b / 16) % 2);
        bits.push((b / 32) % 2);
        bits.push((b / 64) % 2);
        bits.push((b / 128) % 2);
        i += 1;
    }
    s.bits = bits;
    s.pos = 0;
    s.counter = c + 1;
    if s.bits.len() == 0 {
        return false;
    }
    true
}

/// Read `c` bits as a little-endian value.  Fails only when the bit source
/// is exhausted.
fn bit_source_take(s: &mut BitSource, c: u16) -> (r: Option<u16>)
    requires
        old(s).wf(),
        1 <= c <= 15,
    ensures
        final(s).wf(),
        r is Some ==> r->0 < crate::encparams::spec_pow2(c as nat),
{
    let mut v: u32 = 0;
    let mut pw: u32 = 1;
    let mut t: u16 = 0;
    proof {
        crate::encparams::lemma_pow2_pos(0);
        crate::encparams::lemma_pow2_mono(0, 15);
    }
    while t < c
        invariant
            s.wf(),
            1 <= c <= 15,
            t <= c,
            pw as int == crate::encparams::spec_pow2(t as nat),
            v < pw,
            pw as int <= crate::encparams::spec_pow2(15),
        decreases c - t,
    {
        proof {
            crate::encparams::lemma_pow2_mono(t as nat, 15);
            crate::encparams::lemma_pow2_mono(t as nat + 1, 15);
            assert(crate::encparams::spec_pow2(15) == 0x8000) by {
                reveal_with_fuel(crate::encparams::spec_pow2, 17);
            }
        }
        if s.pos >= s.bits.len() {
            if !bit_source_refill(s) {
                return None;
            }
        }
        if s.pos >= s.bits.len() {
            return None;
        }
        let b = s.bits[s.pos];
        s.pos = s.pos + 1;
        if b == 1 {
            v = v + pw;
        }
        pw = pw * 2;
        t += 1;
    }
    proof {
        crate::encparams::lemma_pow2_mono(c as nat, 15);
        assert(crate::encparams::spec_pow2(15) == 0x8000) by {
            reveal_with_fuel(crate::encparams::spec_pow2, 17);
        }
    }
    Some(v as u16)
}

/// Draw the next index below `n`, rejecting draws in the biased tail of the
/// `c`-bit window.  Fails only when the bit source is exhausted.
fn igf_next(s: &mut BitSource, n: u16, c: u16) -> (r: Option<u16>)
    requires
        old(s).wf(),
        1 <= c <= 15,
        1 <= n,
        n as int <= crate::encparams::spec_pow2(c as nat),
    ensures
        final(s).wf(),
        r is Some ==> r->0 < n,
{
    let pc: u16 = pow2_u16(c);
    // Largest multiple of n that fits in the c-bit window.
    let limit: u16 = pc - pc % n;
    let mut tries: u32 = 0;
    while tries < 1000
        invariant
            s.wf(),
            1 <= c <= 15,
            1 <= n,
            n as int <= crate::encparams::spec_pow2(c as nat),
            limit == pc - pc % n,
            pc as int == crate::encparams::spec_pow2(c as nat),
        decreases 1000 - tries,
    {
        tries += 1;
        let v = match bit_source_take(s, c) {
            Some(v) => v,
            None => {
                return None;
            },
        };
        if v < limit {
            return Some(v % n);
        }
    }
    None
}

/// Derive a ternary polynomial with the given weights from the bit source,
/// drawing distinct indices.
fn igf_tern(s: &mut BitSource, n: u16, num_ones: u16, num_neg_ones: u16, c: u16) -> (r: Option<
    TernPoly,
>)
    requires
        old(s).wf(),
        1 <= c <= 15,
        1 <= n as int <= MAX_DEGREE,
        n as int <= crate::encparams::spec_pow2(c as nat),
        num_ones as int <= MAX_ONES,
        num_neg_ones as int <= MAX_ONES,
        num_ones as int + num_neg_ones as int <= n as int,
    ensures
        final(s).wf(),
        r is Some ==> {
            &&& r->0.wf()
            &&& r->0.n == n
            &&& r->0.ones@.len() == num_ones as int
            &&& r->0.neg_ones@.len() == num_neg_ones as int
        },
{
    let mut used: Vec<bool> = Vec::new();
    let mut i: usize = 0;
    while i < n as usize
        invariant
            i <= n as int,
            used@.len() == i,
            forall|j: int| 0 <= j < i ==> !used@[j],
        decreases n as int - i,
    {
        used.push(false);
        i += 1;
    }
    let mut ones: Vec<u16> = Vec::new();
    if !igf_fill(s, n, c, num_ones, &mut used, &mut ones) {
        return None;
    }
    let ghost used1 = used@;
    let mut neg_ones: Vec<u16> = Vec::new();
    if !igf_fill(s, n, c, num_neg_ones, &mut used, &mut neg_ones) {
        return None;
    }
    proof {
        assert(seq_disjoint(ones@, neg_ones@)) by {
            assert forall|a: int, b: int|
                0 <= a < ones@.len() && 0 <= b < neg_ones@.len() implies ones@[a]
                != neg_ones@[b] by {
                if ones@[a] == neg_ones@[b] {
                    let v = neg_ones@[b] as int;
                    assert(seq_has(neg_ones@, v));
                    assert(!used1[v]);
                    assert(seq_has(ones@, v));
                }
            }
        }
    }
    Some(TernPoly { n, ones, neg_ones })
}

/// Fill `out` with `count` fresh distinct indices drawn from the bit
/// source.
fn igf_fill(
    s: &mut BitSource,
    n: u16,
    c: u16,
    count: u16,
    used: &mut Vec<bool>,
    out: &mut Vec<u16>,
) -> (r: bool)
    requires
        old(s).wf(),
        1 <= c <= 15,
        1 <= n as int <= MAX_DEGREE,
        n as int <= crate::encparams::spec_pow2(c as nat),
        old(used)@.len() == n as int,
        old(out)@.len() == 0,
        count <= n,
    ensures
        final(s).wf(),
        final(used)@.len() == n as int,
        r ==> {
            &&& final(out)@.len() == count as int
            &&& seq_distinct(final(out)@)
            &&& forall|i: int| 0 <= i < final(out)@.len() ==> #[trigger] final(out)@[i] < n
            &&& forall|j: int|
                0 <= j < n as int ==> final(used)@[j] == (old(used)@[j] || seq_has(
                    final(out)@,
                    j,
                ))
            &&& forall|j: int| seq_has(final(out)@, j) ==> 0 <= j < n as int && !old(used)@[j]
        },
{
    let fuel: u32 = 50 * count as u32 + 200;
    let mut attempts: u32 = 0;
    while attempts < fuel && out.len() < count as usize
        invariant
            s.wf(),
            1 <= c <= 15,
            1 <= n as int <= MAX_DEGREE,
            n as int <= crate::encparams::spec_pow2(c as nat),
            used@.len() == n as int,
            old(used)@.len() == n as int,
            out@.len() <= count as int,
            seq_distinct(out@),
            forall|i: int| 0 <= i < out@.len() ==> #[trigger] out@[i] < n,
            forall|j: int| #![trigger used@[j]]
                0 <= j < n as int ==> used@[j] == (old(used)@[j] || seq_has(out@, j)),
            forall|j: int| #![trigger seq_has(out@, j)]
                seq_has(out@, j) ==> 0 <= j < n as int && !old(used)@[j],
        decreases fuel - attempts,
    {
        attempts += 1;
        let idx16 = match igf_next(s, n, c) {
            Some(v) => v,
            None => {
                return false;
            },
        };
        let idx = idx16 as usize;
        if !used[idx] {
            let ghost u0 = used@;
            used.set(idx, true);
            let ghost o0 = out@;
            out.push(idx16);
            proof {
                assert(used@ == u0.update(idx as int, true));
                assert(out@ == o0.push(idx16));
                assert(seq_has(out@, idx as int)) by {
                    lemma_seq_has_push(o0, idx16, idx as int);
                }
                assert(seq_distinct(out@)) by {
                    assert(!seq_has(o0, idx as int));
                    assert forall|a: int, b: int| 0 <= a < b < out@.len() implies out@[a]
                        != out@[b] by {
                        if b < o0.len() {
                            assert(o0[a] != o0[b]);
                        } else {
                            assert(out@[b] == idx16);
                            assert(0 <= a < o0.len() && o0[a] == out@[a]);
                            if out@[a] == idx16 {
                                assert(seq_has(o0, idx as int));
                            }
                        }
                    }
                }
                assert forall|j: int| #![trigger used@[j]]
                    0 <= j < n as int implies used@[j] == (old(used)@[j] || seq_has(
                    out@,
                    j,
                )) by {
                    lemma_seq_has_push(o0, idx16, j);
                    assert(u0[j] == (old(used)@[j] || seq_has(o0, j)));
                    if j != idx as int {
                        assert(used@[j] == u0[j]);
                    }
                }
                assert forall|j: int| #![trigger seq_has(out@, j)]
                    seq_has(out@, j) implies 0 <= j < n as int && !old(used)@[j] by {
                    lemma_seq_has_push(o0, idx16, j);
                    if j == idx as int {
                        assert(u0[j] == (old(used)@[j] || seq_has(o0, j)));
                    }
                }
            }
        }
    }
    out.len() == count as usize
}

/// Derive the blinding polynomial from a seed: ternary with the private
/// weight, or product form for product-form parameter sets.
pub(crate) fn gen_blind_poly(seed: &Vec<u8>, params: &EncParams) -> (r: Option<PrivPoly>)
    requires
        params.wf(),
    ensures
        r is Some ==> {
            &&& r->0.wf()
            &&& crate::types::priv_deg(&(r->0)) == params.n as int
        },
{
    let mut s = bit_source_init(seed, params);
    proof {
        crate::encparams::lemma_pow2_pos(params.c as nat);
    }
    if params.prod_flag == 1 {
        let f1 = match igf_tern(&mut s, params.n, params.df1, params.df1, params.c) {
            Some(f) => f,
            None => {
                return None;
            },
        };
        let f2 = match igf_tern(&mut s, params.n, params.df2, params.df2, params.c) {
            Some(f) => f,
            None => {
                return None;
            },
        };
        let f3 = match igf_tern(&mut s, params.n, params.df3, params.df3, params.c) {
            Some(f) => f,
            None => {
                return None;
            },
        };
        Some(PrivPoly::Product(ProdPoly { n: params.n, f1, f2, f3 }))
    } else {
        match igf_tern(&mut s, params.n, params.df1, params.df1, params.c) {
            Some(t) => Some(PrivPoly::Ternary(t)),
            None => None,
        }
    }
}

/// The base-three digits one pool byte yields: five for a byte below 243,
/// none for a byte in the biased tail.
pub open spec fn trits_of_byte(b: int) -> Seq<int> {
    if b < 243 {
        seq![b % 3, b / 3 % 3, b / 9 % 3, b / 27 % 3, b / 81 % 3]
    } else {
        Seq::empty()
    }
}

/// The digits a byte sequence yields, in order.
pub open spec fn trits_of_bytes(s: Seq<u8>) -> Seq<int>
    decreases s.len(),
{
    if s.len() == 0 {
        Seq::empty()
    } else {
        trits_of_byte(s[0] as int) + trits_of_bytes(s.drop_first())
    }
}

/// The first `c` digest blocks of the mask pool for the hashed seed `z`.
pub open spec fn mgf_blocks(kind: crate::encparams::DigestKind, z: Seq<u8>, c: nat) -> Seq<u8>
    decreases c,
{
    if c == 0 {
        Seq::empty()
    } else {
        mgf_blocks(kind, z, (c - 1) as nat) + crate::digest::digest_of(
            kind,
            z + crate::rand::be32(c - 1),
        )
    }
}

/// The mask trit pool: the digits of the digest blocks derived from the
/// seed digest, a function of the seed and the algorithm alone.
pub open spec fn mgf_pool(kind: crate::encparams::DigestKind, input: Seq<u8>, c: nat) -> Seq<int> {
    trits_of_bytes(mgf_blocks(kind, crate::digest::digest_of(kind, input), c))
}

/// The digits of a concatenation are the concatenated digits.
proof fn lemma_trits_concat(a: Seq<u8>, b: Seq<u8>)
    ensures
        trits_of_bytes(a + b) == trits_of_bytes(a) + trits_of_bytes(b),
    decreases a.len(),
{
    if a.len() == 0 {
        assert(a + b =~= b);
        assert(trits_of_bytes(a) + trits_of_bytes(b) =~= trits_of_bytes(b));
    } else {
        lemma_trits_concat(a.drop_first(), b);
        assert((a + b).drop_first() =~= a.drop_first() + b);
        assert(trits_of_byte((a + b)[0] as int) == trits_of_byte(a[0] as int));
        assert(trits_of_byte(a[0] as int) + (trits_of_bytes(a.drop_first()) + trits_of_bytes(b))
            =~= (trits_of_byte(a[0] as int) + trits_of_bytes(a.drop_first())) + trits_of_bytes(
            b,
        ));
    }
}

/// Every digit of the pool is a base-three digit.
proof fn lemma_trits_range(s: Seq<u8>)
    ensures
        forall|i: int| 0 <= i < trits_of_bytes(s).len() ==> 0 <= #[trigger] trits_of_bytes(s)[i]
            <= 2,
    decreases s.len(),
{
    if s.len() > 0 {
        lemma_trits_range(s.drop_first());
        vstd::arithmetic::div_mod::lemma_mod_bound(s[0] as int, 3);
        vstd::arithmetic::div_mod::lemma_mod_bound(s[0] as int / 3, 3);
        vstd::arithmetic::div_mod::lemma_mod_bound(s[0] as int / 9, 3);
        vstd::arithmetic::div_mod::lemma_mod_bound(s[0] as int / 27, 3);
        vstd::arithmetic::div_mod::lemma_mod_bound(s[0] as int / 81, 3);
        let h = trits_of_byte(s[0] as int);
        let rest = trits_of_bytes(s.drop_first());
        assert forall|i: int| 0 <= i < trits_of_bytes(s).len() implies 0
            <= #[trigger] trits_of_bytes(s)[i] <= 2 by {
            if i < h.len() {
                assert(trits_of_bytes(s)[i] == h[i]);
            } else {
                assert(trits_of_bytes(s)[i] == rest[i - h.len()]);
            }
        }
    }
}

/// A shorter pool is a prefix of a longer one.
proof fn lemma_mgf_pool_prefix(
    kind: crate::encparams::DigestKind,
    input: Seq<u8>,
    c: nat,
    d: nat,
)
    requires
        c <= d,
    ensures
        mgf_pool(kind, input, c).len() <= mgf_pool(kind, input, d).len(),
        mgf_pool(kind, input, d).take(mgf_pool(kind, input, c).len() as int) == mgf_pool(
            kind,
            input,
            c,
        ),
        forall|k: int|
            0 <= k < mgf_pool(kind, input, c).len() ==> #[trigger] mgf_pool(kind, input, d)[k]
                == mgf_pool(kind, input, c)[k],
    decreases d,
{
    let z = crate::digest::digest_of(kind, input);
    if c == d {
        assert(mgf_pool(kind, input, c).take(mgf_pool(kind, input, c).len() as int) =~= mgf_pool(
            kind,
            input,
            c,
        ));
    } else {
        lemma_mgf_pool_prefix(kind, input, c, (d - 1) as nat);
        lemma_trits_concat(
            mgf_blocks(kind, z, (d - 1) as nat),
            crate::digest::digest_of(kind, z + crate::rand::be32(d - 1)),
        );
        assert(mgf_pool(kind, input, d).take(mgf_pool(kind, input, c).len() as int) =~= mgf_pool(
            kind,
            input,
            c,
        ));
    }
}

/// Derive the ternary masking polynomial from the packed representative:
/// digest blocks converted to base-three digits, five per byte below 243.
/// The result is exactly the first `n` digits of the mask pool, a function
/// of the input alone; the call fails only when even 2000 blocks yield
/// fewer than `n` digits.
#[verifier::rlimit(50)]
pub(crate) fn mgf(input: &Vec<u8>, params: &EncParams) -> (r: Option<IntPoly>)
    requires
        params.wf(),
    ensures
        r is Some <==> mgf_pool(params.digest, input@, 2000).len() >= params.n as int,
        r is Some ==> {
            &&& r->0@.len() == params.n as int
            &&& r->0@ == mgf_pool(params.digest, input@, 2000).take(params.n as int)
            &&& forall|i: int| 0 <= i < params.n as int ==> 0 <= #[trigger] r->0@[i] <= 2
        },
{
    let z = hash(params.digest, input);
    let ghost zspec = crate::digest::digest_of(params.digest, input@);
    let n = params.n as usize;
    let mut pool: Vec<i16> = Vec::new();
    let mut counter: u32 = 0;
    while counter < 2000 && pool.len() < n
        invariant
            params.wf(),
            n == params.n as int,
            z@ == zspec,
            zspec == crate::digest::digest_of(params.digest, input@),
            counter <= 2000,
            pool@.map_values(|t: i16| t as int) == mgf_pool(
                params.digest,
                input@,
                counter as nat,
            ),
        decreases 2000 - counter,
    {
        let c = counter;
        let mut input2 = clone_u8_vec(&z);
        proof {
            assert(c as int / 0x1000000 < 256) by (nonlinear_arith)
                requires
                    0 <= c <= 0xFFFFFFFFu32,
            ;
        }
        input2.push(((c / 0x1000000) % 256) as u8);
        input2.push(((c / 0x10000) % 256) as u8);
        input2.push(((c / 0x100) % 256) as u8);
        input2.push((c % 256) as u8);
        proof {
            assert(input2@ =~= zspec + crate::rand::be32(c as int));
        }
        let block = hash(params.digest, &input2);
        let mut i: usize = 0;
        while i < block.len()
            invariant
                params.wf(),
                z@ == zspec,
                zspec == crate::digest::digest_of(params.digest, input@),
                block@ == crate::digest::digest_of(params.digest, zspec + crate::rand::be32(
                    c as int,
                )),
                i <= block@.len(),
                block@.len() <= 64,
                pool@.map_values(|t: i16| t as int) == mgf_pool(
                    params.digest,
                    input@,
                    c as nat,
                ) + trits_of_bytes(block@.take(i as int)),
            decreases block@.len() - i,
        {
            let b = block[i];
            let ghost pool0 = pool@;
            if b < 243 {
                let v = b as i16;
                pool.push(v % 3);
                pool.push((v / 3) % 3);
                pool.push((v / 9) % 3);
                pool.push((v / 27) % 3);
                pool.push((v / 81) % 3);
            }
            proof {
                assert(pool@.map_values(|t: i16| t as int) =~= pool0.map_values(|t: i16| t as int)
                    + trits_of_byte(block@[i as int] as int));
                lemma_trits_concat(block@.take(i as int), seq![block@[i as int]]);
                assert(block@.take(i as int + 1) =~= block@.take(i as int) + seq![
                    block@[i as int],
                ]);
                assert(seq![block@[i as int]].drop_first() =~= Seq::<u8>::empty());
                assert(trits_of_bytes(Seq::<u8>::empty()) =~= Seq::<int>::empty());
                assert(trits_of_bytes(seq![block@[i as int]]) =~= trits_of_byte(
                    block@[i as int] as int,
                ) + trits_of_bytes(Seq::<u8>::empty()));
                assert(trits_of_bytes(seq![block@[i as int]]) =~= trits_of_byte(
                    block@[i as int] as int,
                ));
                assert(pool@.map_values(|t: i16| t as int) =~= mgf_pool(
                    params.digest,
                    input@,
                    c as nat,
                ) + trits_of_bytes(block@.take(i as int + 1)));
            }
            i += 1;
        }
        proof {
            assert(block@.take(block@.len() as int) =~= block@);
            assert(pool@.map_values(|t: i16| t as int) == mgf_pool(params.digest, input@, c as nat)
                + trits_of_bytes(block@));
            lemma_trits_concat(mgf_blocks(params.digest, zspec, c as nat), block@);
            assert(mgf_blocks(params.digest, zspec, c as nat + 1) =~= mgf_blocks(
                params.digest,
                zspec,
                c as nat,
            ) + block@);
            assert(trits_of_bytes(mgf_blocks(params.digest, zspec, c as nat + 1))
                == trits_of_bytes(mgf_blocks(params.digest, zspec, c as nat)) + trits_of_bytes(
                block@,
            ));
            assert(mgf_pool(params.digest, input@, c as nat + 1) == trits_of_bytes(
                mgf_blocks(params.digest, zspec, c as nat + 1),
            ));
            assert(mgf_pool(params.digest, input@, c as nat) == trits_of_bytes(
                mgf_blocks(params.digest, zspec, c as nat),
            ));
            assert(pool@.map_values(|t: i16| t as int) =~= mgf_pool(
                params.digest,
                input@,
                c as nat + 1,
            ));
        }
        counter += 1;
    }
    proof {
        lemma_mgf_pool_prefix(params.digest, input@, counter as nat, 2000);
        lemma_trits_range(mgf_blocks(params.digest, zspec, counter as nat));
    }
    if pool.len() < n {
        proof {
            assert(counter == 2000);
        }
        return None;
    }
    let mut coeffs: Vec<i16> = Vec::new();
    let mut i: usize = 0;
    while i < n
        invariant
            n <= pool@.len(),
            pool@.map_values(|t: i16| t as int) == mgf_pool(
                params.digest,
                input@,
                counter as nat,
            ),
            forall|k: int| #![trigger pool@[k]]
                0 <= k < pool@.len() ==> 0 <= mgf_pool(params.digest, input@, counter as nat)[k]
                    <= 2,
            i <= n,
            coeffs@.len() == i,
            forall|k: int| 0 <= k < i ==> coeffs@[k] == pool@[k],
            forall|k: int| 0 <= k < i ==> 0 <= #[trigger] coeffs@[k] <= 2,
        decreases n - i,
    {
        proof {
            assert(pool@.map_values(|t: i16| t as int)[i as int] == pool@[i as int] as int);
        }
        coeffs.push(pool[i]);
        i += 1;
    }
    let r = IntPoly { coeffs };
    proof {
        lemma_mgf_pool_prefix(params.digest, input@, counter as nat, 2000);
        assert(r@ =~= mgf_pool(params.digest, input@, 2000).take(params.n as int));
    }
    Some(r)
}

} // verus!
