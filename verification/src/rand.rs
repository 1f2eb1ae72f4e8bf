//! The randomness provider: a pluggable generator with an
//! acquire/generate/release lifecycle.
//!
//! Two backends exist.  The default draws entropy from the operating system.
//! The deterministic backend derives an unbounded byte stream from a seed by
//! hashing the seed together with a running block counter; two contexts with
//! the same seed yield the same stream, byte for byte, which the contracts
//! below pin down exactly.  A context is exclusively owned by its creator
//! and is released when it goes out of scope.

use vstd::prelude::*;
use crate::digest::sha256_of;
use crate::encparams::{lemma_pow2_add, lemma_pow2_mono, lemma_pow2_pos, pow2_u16, spec_pow2};
use crate::types::{
    lemma_seq_has_push, seq_disjoint, seq_distinct, seq_has, Error, IntPoly, ProdPoly, TernPoly,
    MAX_DEGREE, MAX_ONES,
};

verus! {

/// A random number generator backend.
#[derive(Debug, PartialEq, Eq, Structural, Clone, Copy)]
pub struct RandGen {
    /// Whether the backend is the seeded deterministic one.
    pub deterministic: bool,
}

/// The default backend: operating-system entropy.
pub fn rng_default() -> (r: RandGen)
    ensures
        !r.deterministic,
{
    RandGen { deterministic: false }
}

/// The deterministic backend: a digest-driven stream derived from a seed.
pub fn rng_igf2() -> (r: RandGen)
    ensures
        r.deterministic,
{
    RandGen { deterministic: true }
}

/// Byte `0..4` of the 32-bit block counter, big endian.
pub open spec fn be32(c: int) -> Seq<u8> {
    seq![
        ((c / 0x1000000) % 256) as u8,
        ((c / 0x10000) % 256) as u8,
        ((c / 0x100) % 256) as u8,
        (c % 256) as u8,
    ]
}

/// Block `c` of the deterministic stream for `seed`.
pub open spec fn det_block(seed: Seq<u8>, c: int) -> Seq<u8> {
    sha256_of(seed + be32(c))
}

/// Byte `i` of the deterministic stream for `seed`.
pub open spec fn det_byte(seed: Seq<u8>, i: int) -> u8 {
    det_block(seed, i / 32)[i % 32]
}

/// A random context for key generation and encryption.  It holds the chosen
/// backend and, for the deterministic backend, the seed and the stream
/// position.
#[derive(Debug)]
pub struct RandContext {
    /// The backend.
    pub rand_gen: RandGen,
    /// The seed; empty for the entropy backend.
    pub seed: Vec<u8>,
    /// Number of digest blocks produced so far.
    pub counter: u32,
    /// Unconsumed tail of the last produced block.
    pub buf: Vec<u8>,
}

impl RandContext {
    /// The position in the deterministic stream: every byte before it has
    /// been handed out.
    pub open spec fn pos(&self) -> int {
        self.counter as int * 32 - self.buf@.len()
    }

    /// Structural invariant: the unconsumed buffer holds exactly the stream
    /// bytes from the current position up to the end of the last block.
    pub open spec fn wf(&self) -> bool {
        if self.rand_gen.deterministic {
            &&& self.buf@.len() <= 32
            &&& self.buf@.len() <= self.counter as int * 32
            &&& forall|j: int|
                0 <= j < self.buf@.len() ==> self.buf@[j] == det_byte(
                    self.seed@,
                    self.pos() + j,
                )
        } else {
            self.buf@.len() == 0
        }
    }

    /// The seed the context was created with; empty for the entropy backend.
    pub fn get_seed(&self) -> (r: &Vec<u8>)
        ensures
            r@ == self.seed@,
    {
        &self.seed
    }

    /// The backend of this context.
    pub fn get_rng(&self) -> (r: &RandGen)
        ensures
            r == self.rand_gen,
    {
        &self.rand_gen
    }
}

/// Relies on `getrandom::fill`: on success the buffer has been filled with
/// entropy from the operating system.  Nothing more is assumed of the bytes.
#[verifier::external_body]
fn os_fill(len: usize) -> (r: Option<Vec<u8>>)
    ensures
        r is Some ==> r->0@.len() == len,
{
    let mut buf = vec![0u8; len];
    match getrandom::fill(&mut buf) {
        Ok(()) => Some(buf),
        Err(_) => None,
    }
}

/// Copy a byte vector.
pub(crate) fn clone_u8_vec(s: &Vec<u8>) -> (r: Vec<u8>)
    ensures
        r@ == s@,
{
    let mut v: Vec<u8> = Vec::new();
    let mut i: usize = 0;
    while i < s.len()
        invariant
            i <= s@.len(),
            v@.len() == i,
            forall|j: int| 0 <= j < i ==> v@[j] == s@[j],
        decreases s@.len() - i,
    {
        v.push(s[i]);
        i += 1;
    }
    assert(v@ =~= s@);
    v
}

/// Produce the next block of the deterministic stream into the buffer.
fn refill(ctx: &mut RandContext)
    requires
        old(ctx).wf(),
        old(ctx).rand_gen.deterministic,
        old(ctx).buf@.len() == 0,
        old(ctx).counter < 0xFFFFFFFFu32,
    ensures
        final(ctx).wf(),
        final(ctx).rand_gen == old(ctx).rand_gen,
        final(ctx).seed@ == old(ctx).seed@,
        final(ctx).buf@.len() == 32,
        final(ctx).pos() == old(ctx).pos(),
        final(ctx).counter == old(ctx).counter + 1,
{
    let c = ctx.counter;
    let mut input = clone_u8_vec(&ctx.seed);
    proof {
        assert(c as int / 0x1000000 < 256) by (nonlinear_arith)
            requires
                0 <= c <= 0xFFFFFFFFu32,
        ;
    }
    input.push(((c / 0x1000000) % 256) as u8);
    input.push(((c / 0x10000) % 256) as u8);
    input.push(((c / 0x100) % 256) as u8);
    input.push((c % 256) as u8);
    proof {
        assert(input@ =~= ctx.seed@ + be32(c as int));
    }
    let block = crate::digest::sha256_digest(&input);
    ctx.buf = block;
    ctx.counter = c + 1;
    proof {
        assert(ctx.pos() == c as int * 32);
        assert forall|j: int| 0 <= j < ctx.buf@.len() implies ctx.buf@[j] == det_byte(
            ctx.seed@,
            ctx.pos() + j,
        ) by {
            vstd::arithmetic::div_mod::lemma_fundamental_div_mod_converse(
                c as int * 32 + j,
                32,
                c as int,
                j,
            );
            assert(det_byte(ctx.seed@, c as int * 32 + j) == det_block(ctx.seed@, c as int)[j]);
        }
    }
}

/// Generate `length` random bytes.
///
/// For the deterministic backend the output is exactly the stream bytes at
/// the context's position, and the position advances by `length`; the call
/// fails (with `Error::Prng`) only when the 32-bit block counter would be
/// exhausted.  For the entropy backend the operating system decides success,
/// and only the length of the output is known.
pub fn generate(length: u16, rand_ctx: &mut RandContext) -> (r: Result<Vec<u8>, Error>)
    requires
        old(rand_ctx).wf(),
    ensures
        final(rand_ctx).wf(),
        final(rand_ctx).rand_gen == old(rand_ctx).rand_gen,
        final(rand_ctx).seed@ == old(rand_ctx).seed@,
        r is Ok ==> r->Ok_0@.len() == length,
        r is Err ==> r == Result::<Vec<u8>, Error>::Err(Error::Prng),
        old(rand_ctx).rand_gen.deterministic ==> {
            &&& (r is Ok <==> old(rand_ctx).counter as int + length as int / 32 + 2
                <= 0xFFFFFFFF)
            &&& (r is Ok ==> {
                &&& forall|j: int|
                    0 <= j < length as int ==> r->Ok_0@[j] == det_byte(
                        old(rand_ctx).seed@,
                        old(rand_ctx).pos() + j,
                    )
                &&& final(rand_ctx).pos() == old(rand_ctx).pos() + length as int
            })
            &&& (r is Err ==> final(rand_ctx).pos() == old(rand_ctx).pos())
        },
        !old(rand_ctx).rand_gen.deterministic ==> final(rand_ctx).counter == old(
            rand_ctx,
        ).counter && final(rand_ctx).buf@ == old(rand_ctx).buf@,
{
    if !rand_ctx.rand_gen.deterministic {
        match os_fill(length as usize) {
            Some(v) => Ok(v),
            None => Err(Error::Prng),
        }
    } else {
        let blocks_needed: u32 = length as u32 / 32 + 2;
        if rand_ctx.counter > 0xFFFFFFFFu32 - blocks_needed {
            return Err(Error::Prng);
        }
        let ghost pos0 = rand_ctx.pos();
        let ghost seed0 = rand_ctx.seed@;
        let mut out: Vec<u8> = Vec::new();
        while out.len() < length as usize
            invariant
                rand_ctx.wf(),
                rand_ctx.rand_gen.deterministic,
                rand_ctx.rand_gen == old(rand_ctx).rand_gen,
                rand_ctx.seed@ == seed0,
                seed0 == old(rand_ctx).seed@,
                out@.len() <= length as int,
                forall|j: int| 0 <= j < out@.len() ==> out@[j] == det_byte(seed0, pos0 + j),
                rand_ctx.pos() == pos0 + out@.len(),
                pos0 + length as int + 32 <= 0xFFFFFFFFi64 * 32,
                rand_ctx.counter as int * 32 <= pos0 + length as int + 32,
            decreases length as int - out@.len(),
        {
            if rand_ctx.buf.len() == 0 {
                proof {
                    assert(rand_ctx.counter as int * 32 == rand_ctx.pos());
                    assert(rand_ctx.counter < 0xFFFFFFFFu32);
                }
                refill(rand_ctx);
            }
            let b = rand_ctx.buf.remove(0);
            out.push(b);
        }
        Ok(out)
    }
}

/// Initialize a random context for a backend.  The deterministic backend
/// needs a seed, so it is refused here; use `init_det`.
pub fn init(rand_gen: &RandGen) -> (r: Result<RandContext, Error>)
    ensures
        r is Ok <==> !rand_gen.deterministic,
        r is Err ==> r == Result::<RandContext, Error>::Err(Error::Prng),
        r is Ok ==> r->Ok_0.wf() && r->Ok_0.rand_gen == *rand_gen,
{
    if rand_gen.deterministic {
        Err(Error::Prng)
    } else {
        Ok(RandContext { rand_gen: *rand_gen, seed: Vec::new(), counter: 0, buf: Vec::new() })
    }
}

/// Initialize a deterministic random context from a seed.  For the entropy
/// backend the seed is kept but does not influence the stream.
pub fn init_det(rand_gen: &RandGen, seed: &[u8]) -> (r: Result<RandContext, Error>)
    ensures
        r is Ok,
        r is Ok ==> {
            &&& r->Ok_0.wf()
            &&& r->Ok_0.rand_gen == *rand_gen
            &&& r->Ok_0.seed@ == seed@
            &&& r->Ok_0.pos() == 0
        },
{
    let mut s: Vec<u8> = Vec::new();
    let mut i: usize = 0;
    while i < seed.len()
        invariant
            i <= seed@.len(),
            s@.len() == i,
            forall|j: int| 0 <= j < i ==> s@[j] == seed@[j],
        decreases seed@.len() - i,
    {
        s.push(seed[i]);
        i += 1;
    }
    proof {
        assert(s@ =~= seed@);
    }
    Ok(RandContext { rand_gen: *rand_gen, seed: s, counter: 0, buf: Vec::new() })
}

impl RandGen {
    /// Initialize a context for this backend, recording `rand_gen` as the
    /// context's generator.
    pub fn init(&self, rand_gen: &RandGen) -> (r: Result<RandContext, Error>)
        ensures
            r is Ok <==> !self.deterministic,
            r is Ok ==> r->Ok_0.wf() && r->Ok_0.rand_gen == *rand_gen,
    {
        if self.deterministic {
            Err(Error::Prng)
        } else {
            Ok(RandContext { rand_gen: *rand_gen, seed: Vec::new(), counter: 0, buf: Vec::new() })
        }
    }

    /// Generate random data from a context of this backend.
    pub fn generate(&self, length: u16, rand_ctx: &mut RandContext) -> (r: Result<Vec<u8>, Error>)
        requires
            old(rand_ctx).wf(),
        ensures
            final(rand_ctx).wf(),
            final(rand_ctx).rand_gen == old(rand_ctx).rand_gen,
            final(rand_ctx).seed@ == old(rand_ctx).seed@,
            r is Ok ==> r->Ok_0@.len() == length,
            r is Err ==> r == Result::<Vec<u8>, Error>::Err(Error::Prng),
            old(rand_ctx).rand_gen.deterministic ==> {
                &&& (r is Ok <==> old(rand_ctx).counter as int + length as int / 32 + 2
                    <= 0xFFFFFFFF)
                &&& (r is Ok ==> {
                    &&& forall|j: int|
                        0 <= j < length as int ==> r->Ok_0@[j] == det_byte(
                            old(rand_ctx).seed@,
                            old(rand_ctx).pos() + j,
                        )
                    &&& final(rand_ctx).pos() == old(rand_ctx).pos() + length as int
                })
            },
    {
        generate(length, rand_ctx)
    }
}

/// Draw `count` distinct indices below `n` that are not yet marked in
/// `used`, marking them; rejection sampling, two random bytes per draw.
///
/// A false result means the random budget ran out before `count` fresh
/// indices were found.
fn sample_indices(
    n: u16,
    count: u16,
    used: &mut Vec<bool>,
    out: &mut Vec<u16>,
    rand_ctx: &mut RandContext,
) -> (r: bool)
    requires
        old(rand_ctx).wf(),
        1 <= n as int <= MAX_DEGREE,
        old(used)@.len() == n as int,
        old(out)@.len() == 0,
        count <= n,
    ensures
        final(rand_ctx).wf(),
        final(rand_ctx).rand_gen == old(rand_ctx).rand_gen,
        final(rand_ctx).seed@ == old(rand_ctx).seed@,
        final(used)@.len() == n as int,
        r ==> {
            &&& final(out)@.len() == count as int
            &&& seq_distinct(final(out)@)
            &&& forall|i: int| 0 <= i < final(out)@.len() ==> #[trigger] final(out)@[i] < n
            &&& forall|j: int|
                0 <= j < n ==> final(used)@[j] == (old(used)@[j] || seq_has(final(out)@, j))
            &&& forall|j: int| seq_has(final(out)@, j) ==> 0 <= j < n && !old(used)@[j]
        },
{
    let fuel: u32 = 50 * count as u32 + 200;
    let mut attempts: u32 = 0;
    while attempts < fuel && out.len() < count as usize
        invariant
            rand_ctx.wf(),
            rand_ctx.rand_gen == old(rand_ctx).rand_gen,
            rand_ctx.seed@ == old(rand_ctx).seed@,
            1 <= n as int <= MAX_DEGREE,
            used@.len() == n as int,
            out@.len() <= count as int,
            seq_distinct(out@),
            forall|i: int| 0 <= i < out@.len() ==> #[trigger] out@[i] < n,
            forall|j: int| 0 <= j < n ==> used@[j] == (old(used)@[j] || seq_has(out@, j)),
            forall|j: int| seq_has(out@, j) ==> 0 <= j < n && !old(used)@[j],
        decreases fuel - attempts,
    {
        attempts += 1;
        let data = match generate(2, rand_ctx) {
            Ok(d) => d,
            Err(_) => {
                return false;
            },
        };
        let idx: usize = (data[0] as usize + 256 * data[1] as usize) % n as usize;
        if !used[idx] {
            used.set(idx, true);
            let ghost o0 = out@;
            out.push(idx as u16);
            proof {
                assert(out@ == o0.push(idx as u16));
                assert(seq_has(out@, idx as int)) by {
                    lemma_seq_has_push(o0, idx as u16, idx as int);
                }
                assert(seq_distinct(out@)) by {
                    assert(!seq_has(o0, idx as int));
                    assert forall|i: int, j: int| 0 <= i < j < out@.len() implies out@[i]
                        != out@[j] by {
                        if j < o0.len() {
                            assert(o0[i] != o0[j]);
                        } else {
                            assert(out@[j] == idx as u16);
                            assert(0 <= i < o0.len() && o0[i] == out@[i]);
                            if out@[i] == idx as u16 {
                                assert(seq_has(o0, idx as int));
                            }
                        }
                    }
                }
                assert forall|j: int| 0 <= j < n implies used@[j] == (old(used)@[j] || seq_has(
                    out@,
                    j,
                )) by {
                    lemma_seq_has_push(o0, idx as u16, j);
                }
                assert forall|j: int| seq_has(out@, j) implies 0 <= j < n && !old(used)@[j] by {
                    lemma_seq_has_push(o0, idx as u16, j);
                }
            }
        }
    }
    out.len() == count as usize
}

impl TernPoly {
    /// Random ternary polynomial with exactly `num_ones` coefficients `+1`
    /// and `num_neg_ones` coefficients `-1`, at distinct positions, by
    /// rejection sampling.  Returns `None` when the randomness budget is
    /// exhausted before the target weight is reached.
    pub fn rand(n: u16, num_ones: u16, num_neg_ones: u16, rand_ctx: &mut RandContext) -> (r:
        Option<TernPoly>)
        requires
            old(rand_ctx).wf(),
            1 <= n as int <= MAX_DEGREE,
            num_ones as int <= MAX_ONES,
            num_neg_ones as int <= MAX_ONES,
            num_ones as int + num_neg_ones as int <= n as int,
        ensures
            final(rand_ctx).wf(),
            final(rand_ctx).rand_gen == old(rand_ctx).rand_gen,
            final(rand_ctx).seed@ == old(rand_ctx).seed@,
            r is Some ==> {
                &&& r->0.wf()
                &&& r->0.n == n
                &&& r->0.ones@.len() == num_ones as int
                &&& r->0.neg_ones@.len() == num_neg_ones as int
            },
    {
        let mut used: Vec<bool> = Vec::new();
        let mut i: usize = 0;
        while i < n as usize
            invariant
                i <= n as int,
                used@.len() == i,
                forall|j: int| 0 <= j < i ==> !used@[j],
            decreases n as int - i,
        {
            used.push(false);
            i += 1;
        }
        let mut ones: Vec<u16> = Vec::new();
        let mut neg_ones: Vec<u16> = Vec::new();
        let ghost used0 = used@;
        if !sample_indices(n, num_ones, &mut used, &mut ones, rand_ctx) {
            return None;
        }
        let ghost used1 = used@;
        if !sample_indices(n, num_neg_ones, &mut used, &mut neg_ones, rand_ctx) {
            return None;
        }
        proof {
            assert(seq_disjoint(ones@, neg_ones@)) by {
                assert forall|i: int, j: int|
                    0 <= i < ones@.len() && 0 <= j < neg_ones@.len() implies ones@[i]
                    != neg_ones@[j] by {
                    if ones@[i] == neg_ones@[j] {
                        let v = neg_ones@[j] as int;
                        assert(seq_has(neg_ones@, v));
                        assert(!used1[v]);
                        assert(seq_has(ones@, v));
                    }
                }
            }
        }
        let t = TernPoly { n, ones, neg_ones };
        Some(t)
    }
}

impl ProdPoly {
    /// Random product-form polynomial: three random ternary factors with the
    /// given weights.  Returns `None` when the randomness budget is
    /// exhausted.
    pub fn rand(
        n: u16,
        df1: u16,
        df2: u16,
        df3_ones: u16,
        df3_neg_ones: u16,
        rand_ctx: &mut RandContext,
    ) -> (r: Option<ProdPoly>)
        requires
            old(rand_ctx).wf(),
            1 <= n as int <= MAX_DEGREE,
            df1 as int <= MAX_ONES,
            df2 as int <= MAX_ONES,
            df3_ones as int <= MAX_ONES,
            df3_neg_ones as int <= MAX_ONES,
            2 * df1 as int <= n as int,
            2 * df2 as int <= n as int,
            df3_ones as int + df3_neg_ones as int <= n as int,
        ensures
            final(rand_ctx).wf(),
            final(rand_ctx).rand_gen == old(rand_ctx).rand_gen,
            final(rand_ctx).seed@ == old(rand_ctx).seed@,
            r is Some ==> {
                &&& r->0.wf()
                &&& r->0.n == n
                &&& r->0.f1.ones@.len() == df1 as int && r->0.f1.neg_ones@.len() == df1 as int
                &&& r->0.f2.ones@.len() == df2 as int && r->0.f2.neg_ones@.len() == df2 as int
                &&& r->0.f3.ones@.len() == df3_ones as int && r->0.f3.neg_ones@.len()
                    == df3_neg_ones as int
            },
    {
        let f1 = match TernPoly::rand(n, df1, df1, rand_ctx) {
            Some(f) => f,
            None => {
                return None;
            },
        };
        let f2 = match TernPoly::rand(n, df2, df2, rand_ctx) {
            Some(f) => f,
            None => {
                return None;
            },
        };
        let f3 = match TernPoly::rand(n, df3_ones, df3_neg_ones, rand_ctx) {
            Some(f) => f,
            None => {
                return None;
            },
        };
        Some(ProdPoly { n, f1, f2, f3 })
    }
}

impl IntPoly {
    /// Random dense polynomial with `n` coefficients of `pow2q` random bits
    /// each.  Returns `None` when the randomness source fails.
    pub fn rand(n: u16, pow2q: u16, rand_ctx: &mut RandContext) -> (r: Option<IntPoly>)
        requires
            old(rand_ctx).wf(),
            1 <= n as int <= MAX_DEGREE,
            1 <= pow2q <= 15,
        ensures
            final(rand_ctx).wf(),
            final(rand_ctx).rand_gen == old(rand_ctx).rand_gen,
            final(rand_ctx).seed@ == old(rand_ctx).seed@,
            r is Some ==> {
                &&& r->0@.len() == n as int
                &&& forall|i: int|
                    0 <= i < n as int ==> 0 <= #[trigger] r->0@[i] < spec_pow2(pow2q as nat)
            },
    {
        let data = match generate(2 * n, rand_ctx) {
            Ok(d) => d,
            Err(_) => {
                return None;
            },
        };
        let shift: u16 = 16 - pow2q;
        let div: u32 = pow2_u16(shift) as u32;
        let ghost bound = spec_pow2(pow2q as nat);
        proof {
            lemma_pow2_add(shift as nat, pow2q as nat);
            lemma_pow2_mono(pow2q as nat, 15);
            lemma_pow2_mono(shift as nat, 15);
            lemma_pow2_pos(pow2q as nat);
            lemma_pow2_pos(shift as nat);
            assert(spec_pow2(15) == 0x8000) by {
                reveal_with_fuel(spec_pow2, 17);
            }
            assert(spec_pow2(16) == 0x10000) by {
                reveal_with_fuel(spec_pow2, 17);
            }
        }
        let mut coeffs: Vec<i16> = Vec::new();
        let mut i: usize = 0;
        while i < n as usize
            invariant
                data@.len() == 2 * n as int,
                i <= n as int,
                1 <= div <= 0x8000,
                div as int * bound == 0x10000,
                1 <= bound <= 0x8000,
                coeffs@.len() == i,
                forall|j: int| 0 <= j < i ==> 0 <= #[trigger] coeffs@[j] < bound,
            decreases n as int - i,
        {
            let v: u32 = data[2 * i] as u32 + 256 * data[2 * i + 1] as u32;
            let c: u32 = v / div;
            proof {
                vstd::arithmetic::div_mod::lemma_multiply_divide_lt(
                    v as int,
                    div as int,
                    bound,
                );
            }
            coeffs.push(c as i16);
            i += 1;
        }
        Some(IntPoly { coeffs })
    }
}

} // verus!
