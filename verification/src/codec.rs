//! The codec: fixed-width byte encoding of polynomials and keys.
//!
//! Coefficients are packed at `log2(q)` bits each; ternary index sets are
//! packed at `log2(N-1) + 1` bits per index.  Decoding is the exact inverse,
//! which `lemma_poly_codec_roundtrip` and
//! `lemma_public_key_codec_roundtrip` prove from the contracts.

use vstd::prelude::*;
use vstd::arithmetic::power2::pow2;
use crate::bitpack::{byte_bit, lemma_bitpack_roundtrip, pack_bits, spec_bit, stream_bit, unpack_bits};
use crate::encparams::{
    lemma_pow2_log2, lemma_spec_pow2_eq, log2, spec_enc_len, spec_is_pow2, spec_log2, EncParams,
};
use crate::types::{
    lemma_seq_has_push, priv_deg, seq_disjoint, seq_distinct, seq_has, IntPoly, PrivPoly,
    PrivateKey, ProdPoly, PublicKey, TernPoly, MAX_DEGREE, MAX_ONES,
};

verus! {

/// The coefficients of a polynomial as unsigned values.
pub open spec fn poly_vals(p: Seq<int>) -> Seq<u16> {
    Seq::new(p.len(), |i: int| p[i] as u16)
}

/// Whether a byte stream can begin a public-key or ciphertext decode: a
/// plausible degree and modulus followed by enough packed bytes.
pub open spec fn pub_import_valid(arr: Seq<u8>) -> bool {
    &&& arr.len() >= 4
    &&& {
        let n = arr[0] as int * 256 + arr[1] as int;
        let q = arr[2] as int * 256 + arr[3] as int;
        &&& 11 <= n <= MAX_DEGREE
        &&& 4 <= q <= 4096
        &&& spec_is_pow2(q)
        &&& 2 <= spec_log2(q) <= 12
        &&& arr.len() >= 4 + spec_enc_len(n, q)
    }
}

impl IntPoly {
    /// Pack the coefficients at `log2(q)` bits each.
    pub fn to_arr(&self, params: &EncParams) -> (r: Vec<u8>)
        requires
            params.wf(),
            self@.len() == params.n as int,
            forall|i: int| 0 <= i < self@.len() ==> 0 <= #[trigger] self@[i] < params.q,
        ensures
            r@.len() == spec_enc_len(params.n as int, params.q as int),
            forall|j: int|
                0 <= j < params.n as int * spec_log2(params.q as int) ==> byte_bit(r@, j)
                    == stream_bit(poly_vals(self@), spec_log2(params.q as int), j),
            forall|j: int|
                params.n as int * spec_log2(params.q as int) <= j < r@.len() * 8 ==> byte_bit(
                    r@,
                    j,
                ) == false,
    {
        let bits = log2(params.q);
        let n = self.coeffs.len();
        let mut vals: Vec<u16> = Vec::new();
        let mut i: usize = 0;
        while i < n
            invariant
                n == self@.len(),
                forall|k: int| 0 <= k < n ==> 0 <= #[trigger] self@[k] < params.q,
                i <= n,
                vals@.len() == i,
                forall|k: int| 0 <= k < i ==> vals@[k] == poly_vals(self@)[k],
            decreases n - i,
        {
            vals.push(self.coeffs[i] as u16);
            i += 1;
        }
        proof {
            assert(vals@ =~= poly_vals(self@));
            assert(vals@.len() * bits as int <= 60000) by (nonlinear_arith)
                requires
                    vals@.len() <= 1500,
                    0 <= bits <= 16,
            ;
        }
        pack_bits(&vals, bits)
    }

    /// Unpack `n` coefficients of `log2(q)` bits each; the exact inverse of
    /// `to_arr`.
    pub fn from_arr(arr: &[u8], n: u16, q: u16) -> (r: IntPoly)
        requires
            11 <= n as int && n as int <= MAX_DEGREE,
            4 <= q <= 4096,
            spec_is_pow2(q as int),
            2 <= spec_log2(q as int) <= 12,
            arr@.len() >= spec_enc_len(n as int, q as int),
        ensures
            r@.len() == n as int,
            forall|i: int| 0 <= i < n as int ==> 0 <= #[trigger] r@[i] < q,
            forall|i: int, t: int| #![trigger spec_bit(poly_vals(r@)[i] as int, t as nat)]
                0 <= i < n as int && 0 <= t < spec_log2(q as int) ==> spec_bit(
                    poly_vals(r@)[i] as int,
                    t as nat,
                ) == byte_bit(arr@, i * spec_log2(q as int) + t),
            forall|i: int|
                0 <= i < n as int ==> #[trigger] r@[i] == crate::bitpack::val_of_bits(
                    arr@,
                    i * spec_log2(q as int),
                    spec_log2(q as int) as nat,
                ),
    {
        let bits = log2(q);
        proof {
            assert(n as int * bits as int <= 60000) by (nonlinear_arith)
                requires
                    n as int <= 1500,
                    0 <= bits <= 16,
            ;
            assert(arr@.len() * 8 >= n as int * bits as int) by {
                let total = n as int * bits as int;
                assert(arr@.len() >= (total + 7) / 8);
                assert((total + 7) / 8 * 8 >= total) by {
                    vstd::arithmetic::div_mod::lemma_fundamental_div_mod(total + 7, 8);
                    vstd::arithmetic::div_mod::lemma_mod_bound(total + 7, 8);
                }
            }
        }
        let vals = unpack_bits(arr, n as usize, bits);
        proof {
            lemma_pow2_log2(q as int);
            lemma_spec_pow2_eq(spec_log2(q as int) as nat);
            assert(pow2(bits as nat) == q);
        }
        let mut coeffs: Vec<i16> = Vec::new();
        let mut i: usize = 0;
        while i < n as usize
            invariant
                vals@.len() == n as int,
                pow2(bits as nat) == q,
                q <= 4096,
                forall|k: int| 0 <= k < n as int ==> 0 <= #[trigger] vals@[k] < pow2(bits as nat),
                i <= n as int,
                coeffs@.len() == i,
                forall|k: int| 0 <= k < i ==> coeffs@[k] == vals@[k] as i16,
                forall|k: int| 0 <= k < i ==> 0 <= #[trigger] coeffs@[k] < q,
            decreases n as int - i,
        {
            coeffs.push(vals[i] as i16);
            i += 1;
        }
        let r = IntPoly { coeffs };
        proof {
            assert(poly_vals(r@) =~= vals@);
            assert forall|i: int| 0 <= i < n as int implies #[trigger] r@[i]
                == crate::bitpack::val_of_bits(
                arr@,
                i * spec_log2(q as int),
                spec_log2(q as int) as nat,
            ) by {
                assert(vals@[i] as int == crate::bitpack::val_of_bits(
                    arr@,
                    i * bits as int,
                    bits as nat,
                ));
                assert(r@[i] == vals@[i] as int);
            }
        }
        r
    }
}

/// Codec round trip for polynomials: a packed coefficient array decoded with
/// the same degree and modulus yields the original coefficients.  The
/// hypotheses are exactly the contracts of `to_arr` and `from_arr`.
pub proof fn lemma_poly_codec_roundtrip(p: Seq<int>, arr: Seq<u8>, p2: Seq<int>, n: int, q: int)
    requires
        p.len() == n,
        p2.len() == n,
        11 <= n <= MAX_DEGREE,
        4 <= q <= 4096,
        spec_is_pow2(q),
        2 <= spec_log2(q) <= 12,
        forall|i: int| 0 <= i < n ==> 0 <= #[trigger] p[i] < q,
        forall|i: int| 0 <= i < n ==> 0 <= #[trigger] p2[i] < q,
        forall|j: int|
            0 <= j < n * spec_log2(q) ==> byte_bit(arr, j) == stream_bit(
                poly_vals(p),
                spec_log2(q),
                j,
            ),
        forall|i: int, t: int| #![trigger spec_bit(poly_vals(p2)[i] as int, t as nat)]
            0 <= i < n && 0 <= t < spec_log2(q) ==> spec_bit(poly_vals(p2)[i] as int, t as nat)
                == byte_bit(arr, i * spec_log2(q) + t),
    ensures
        p2 == p,
{
    let bits = spec_log2(q);
    lemma_pow2_log2(q);
    lemma_spec_pow2_eq(bits as nat);
    assert(pow2(bits as nat) == q);
    assert forall|i: int| 0 <= i < n implies poly_vals(p)[i] < pow2(bits as nat) by {
        assert(0 <= p[i] < q);
    }
    assert forall|i: int| 0 <= i < n implies poly_vals(p2)[i] < pow2(bits as nat) by {
        assert(0 <= p2[i] < q);
    }
    lemma_bitpack_roundtrip(poly_vals(p), arr, poly_vals(p2), bits);
    assert forall|i: int| 0 <= i < n implies p2[i] == p[i] by {
        assert(poly_vals(p2)[i] == poly_vals(p)[i]);
        assert(p[i] as u16 == p2[i] as u16);
    }
    assert(p2 =~= p);
}

/// Copy a byte range into a fresh vector.
pub(crate) fn copy_range(arr: &[u8], from: usize, to: usize) -> (r: Vec<u8>)
    requires
        from <= to <= arr@.len(),
    ensures
        r@ == arr@.subrange(from as int, to as int),
{
    let mut v: Vec<u8> = Vec::new();
    let mut i: usize = from;
    while i < to
        invariant
            from <= i <= to <= arr@.len(),
            v@.len() == i - from,
            forall|k: int| 0 <= k < v@.len() ==> v@[k] == arr@[from + k],
        decreases to - i,
    {
        v.push(arr[i]);
        i += 1;
    }
    assert(v@ =~= arr@.subrange(from as int, to as int));
    v
}

/// Append a vector to another.
pub(crate) fn append_vec(out: &mut Vec<u8>, v: &Vec<u8>)
    ensures
        final(out)@ == old(out)@ + v@,
{
    let n = v.len();
    let mut i: usize = 0;
    while i < n
        invariant
            n == v@.len(),
            i <= n,
            out@.len() == old(out)@.len() + i,
            forall|k: int| 0 <= k < old(out)@.len() ==> out@[k] == old(out)@[k],
            forall|k: int| 0 <= k < i ==> out@[old(out)@.len() + k] == v@[k],
        decreases n - i,
    {
        out.push(v[i]);
        i += 1;
    }
    assert(out@ =~= old(out)@ + v@);
}

impl PublicKey {
    /// Export as four header bytes (degree and modulus, big endian) followed
    /// by the packed public polynomial.
    pub fn export(&self, params: &EncParams) -> (r: Vec<u8>)
        requires
            params.wf(),
            self.q == params.q,
            self.h@.len() == params.n as int,
            forall|i: int| 0 <= i < self.h@.len() ==> 0 <= #[trigger] self.h@[i] < self.q,
        ensures
            r@.len() == 4 + spec_enc_len(params.n as int, params.q as int),
            r@[0] as int == params.n as int / 256,
            r@[1] as int == params.n as int % 256,
            r@[2] as int == params.q as int / 256,
            r@[3] as int == params.q as int % 256,
            forall|j: int|
                0 <= j < params.n as int * spec_log2(params.q as int) ==> byte_bit(
                    r@.subrange(4, r@.len() as int),
                    j,
                ) == stream_bit(poly_vals(self.h@), spec_log2(params.q as int), j),
            forall|j: int|
                params.n as int * spec_log2(params.q as int) <= j < spec_enc_len(
                    params.n as int,
                    params.q as int,
                ) * 8 ==> byte_bit(r@.subrange(4, r@.len() as int), j) == false,
    {
        let mut out: Vec<u8> = Vec::new();
        out.push((params.n / 256) as u8);
        out.push((params.n % 256) as u8);
        out.push((params.q / 256) as u8);
        out.push((params.q % 256) as u8);
        let body = self.h.to_arr(params);
        append_vec(&mut out, &body);
        proof {
            assert(out@.subrange(4, out@.len() as int) =~= body@);
        }
        out
    }

    /// Import a public key previously written by `export`.  A stream that
    /// cannot hold one decodes to the empty key with modulus zero.
    pub fn import(arr: &[u8]) -> (r: PublicKey)
        ensures
            pub_import_valid(arr@) ==> {
                let n = arr@[0] as int * 256 + arr@[1] as int;
                let q = arr@[2] as int * 256 + arr@[3] as int;
                &&& r.q == q
                &&& r.h@.len() == n
                &&& forall|i: int| 0 <= i < n ==> 0 <= #[trigger] r.h@[i] < q
                &&& forall|i: int, t: int|
                    #![trigger spec_bit(poly_vals(r.h@)[i] as int, t as nat)]
                    0 <= i < n && 0 <= t < spec_log2(q) ==> spec_bit(
                        poly_vals(r.h@)[i] as int,
                        t as nat,
                    ) == byte_bit(arr@.subrange(4, arr@.len() as int), i * spec_log2(q) + t)
            },
            !pub_import_valid(arr@) ==> r.q == 0 && r.h@.len() == 0,
    {
        if arr.len() < 4 {
            return PublicKey { q: 0, h: IntPoly { coeffs: Vec::new() } };
        }
        let n: u16 = arr[0] as u16 * 256 + arr[1] as u16;
        let q: u16 = arr[2] as u16 * 256 + arr[3] as u16;
        if n < 11 || n as usize > MAX_DEGREE || q < 4 || q > 4096 {
            return PublicKey { q: 0, h: IntPoly { coeffs: Vec::new() } };
        }
        if !crate::encparams::is_pow2(q) {
            return PublicKey { q: 0, h: IntPoly { coeffs: Vec::new() } };
        }
        let bits = log2(q);
        if bits < 2 || bits > 12 {
            return PublicKey { q: 0, h: IntPoly { coeffs: Vec::new() } };
        }
        proof {
            assert(n as int * bits as int <= 60000) by (nonlinear_arith)
                requires
                    n as int <= 1500,
                    0 <= bits <= 16,
            ;
        }
        let need: usize = (n as usize * bits as usize + 7) / 8;
        if arr.len() < 4 + need {
            return PublicKey { q: 0, h: IntPoly { coeffs: Vec::new() } };
        }
        let body = copy_range(arr, 4, arr.len());
        let h = IntPoly::from_arr(body.as_slice(), n, q);
        PublicKey { q, h }
    }
}

/// Codec round trip for public keys: importing an exported key recovers the
/// modulus and every coefficient of the public polynomial.  The hypotheses
/// are exactly the contracts of `PublicKey::export` and
/// `PublicKey::import`.
pub proof fn lemma_public_key_codec_roundtrip(
    kq: int,
    kh: Seq<int>,
    arr: Seq<u8>,
    rq: int,
    rh: Seq<int>,
    n: int,
    q: int,
)
    requires
        11 <= n <= MAX_DEGREE,
        4 <= q <= 4096,
        spec_is_pow2(q),
        2 <= spec_log2(q) <= 12,
        kq == q,
        kh.len() == n,
        forall|i: int| 0 <= i < n ==> 0 <= #[trigger] kh[i] < q,
        // what export wrote
        arr.len() == 4 + spec_enc_len(n, q),
        arr[0] as int == n / 256,
        arr[1] as int == n % 256,
        arr[2] as int == q / 256,
        arr[3] as int == q % 256,
        forall|j: int|
            0 <= j < n * spec_log2(q) ==> byte_bit(arr.subrange(4, arr.len() as int), j)
                == stream_bit(poly_vals(kh), spec_log2(q), j),
        // what import read back
        pub_import_valid(arr) ==> {
            &&& rq == arr[2] as int * 256 + arr[3] as int
            &&& rh.len() == arr[0] as int * 256 + arr[1] as int
            &&& forall|i: int| 0 <= i < rh.len() ==> 0 <= #[trigger] rh[i] < q
            &&& forall|i: int, t: int|
                #![trigger spec_bit(poly_vals(rh)[i] as int, t as nat)]
                0 <= i < rh.len() && 0 <= t < spec_log2(q) ==> spec_bit(
                    poly_vals(rh)[i] as int,
                    t as nat,
                ) == byte_bit(arr.subrange(4, arr.len() as int), i * spec_log2(q) + t)
        },
    ensures
        rq == kq,
        rh == kh,
{
    vstd::arithmetic::div_mod::lemma_fundamental_div_mod(n, 256);
    vstd::arithmetic::div_mod::lemma_fundamental_div_mod(q, 256);
    assert(arr[0] as int * 256 + arr[1] as int == n);
    assert(arr[2] as int * 256 + arr[3] as int == q);
    assert(pub_import_valid(arr));
    lemma_poly_codec_roundtrip(kh, arr.subrange(4, arr.len() as int), rh, n, q);
}

/// A written ternary index block stands at `pos`: two big-endian counts,
/// then the `+1` and `-1` indices of `t` packed at `bits` bits each.
pub open spec fn tern_block_at(arr: Seq<u8>, pos: int, t: &TernPoly, bits: int) -> bool {
    let o = t.ones@.len() as int;
    let g = t.neg_ones@.len() as int;
    let len = 4 + (bits * (o + g) + 7) / 8;
    &&& 0 <= pos
    &&& pos + len <= arr.len()
    &&& arr[pos] as int == o / 256
    &&& arr[pos + 1] as int == o % 256
    &&& arr[pos + 2] as int == g / 256
    &&& arr[pos + 3] as int == g % 256
    &&& forall|j: int|
        0 <= j < (o + g) * bits ==> byte_bit(arr.subrange(pos + 4, pos + len), j) == stream_bit(
            t.ones@ + t.neg_ones@,
            bits,
            j,
        )
}

/// A parsed ternary index block at `pos`: the counts of `t` are the header
/// bytes, and the bits of its indices are the packed bytes that follow.
pub open spec fn parsed_block_at(arr: Seq<u8>, pos: int, t: &TernPoly, bits: int) -> bool {
    let o = arr[pos] as int * 256 + arr[pos + 1] as int;
    let g = arr[pos + 2] as int * 256 + arr[pos + 3] as int;
    let np = pos + 4 + (bits * (o + g) + 7) / 8;
    &&& 0 <= pos
    &&& pos + 4 <= arr.len()
    &&& np <= arr.len()
    &&& t.ones@.len() == o
    &&& t.neg_ones@.len() == g
    &&& forall|i: int, tt: int|
        #![trigger spec_bit((t.ones@ + t.neg_ones@)[i] as int, tt as nat)]
        0 <= i < o + g && 0 <= tt < bits ==> spec_bit(
            (t.ones@ + t.neg_ones@)[i] as int,
            tt as nat,
        ) == byte_bit(arr.subrange(pos + 4, np), i * bits + tt)
}

/// The byte length of a written ternary index block.
pub open spec fn spec_block_len(t: &TernPoly, bits: int) -> int {
    4 + (bits * (t.ones@.len() as int + t.neg_ones@.len() as int) + 7) / 8
}

/// Where the ternary index block that starts at `pos` ends, by its header
/// counts.
pub open spec fn parsed_block_end(arr: Seq<u8>, pos: int, bits: int) -> int {
    let o = arr[pos] as int * 256 + arr[pos + 1] as int;
    let g = arr[pos + 2] as int * 256 + arr[pos + 3] as int;
    pos + 4 + (bits * (o + g) + 7) / 8
}

/// A well-formed ternary polynomial of degree `n` stands encoded at `pos`:
/// the shape every written block has.
pub open spec fn block_decodable(arr: Seq<u8>, pos: int, n: int, bits: int) -> bool {
    exists|t: TernPoly|
        {
            &&& #[trigger] tern_block_at(arr, pos, &t, bits)
            &&& t.wf()
            &&& t.n as int == n
        }
}

/// Round trip of one ternary index block at an arbitrary position: a parsed
/// block over the same bytes as a written block recovers the written index
/// sets.
pub proof fn lemma_tern_block_roundtrip_at(
    t: &TernPoly,
    t2: &TernPoly,
    arr: Seq<u8>,
    pos: int,
    bits: int,
)
    requires
        1 <= bits <= 16,
        t.wf(),
        forall|i: int|
            0 <= i < t.ones@.len() ==> (#[trigger] t.ones@[i] as int) < crate::encparams::spec_pow2(
                bits as nat,
            ),
        forall|i: int|
            0 <= i < t.neg_ones@.len() ==> (#[trigger] t.neg_ones@[i] as int)
                < crate::encparams::spec_pow2(bits as nat),
        forall|i: int|
            0 <= i < t2.ones@.len() ==> (#[trigger] t2.ones@[i] as int)
                < crate::encparams::spec_pow2(bits as nat),
        forall|i: int|
            0 <= i < t2.neg_ones@.len() ==> (#[trigger] t2.neg_ones@[i] as int)
                < crate::encparams::spec_pow2(bits as nat),
        tern_block_at(arr, pos, t, bits),
        parsed_block_at(arr, pos, t2, bits),
    ensures
        t2.ones@ == t.ones@,
        t2.neg_ones@ == t.neg_ones@,
{
    let o = t.ones@.len() as int;
    let g = t.neg_ones@.len() as int;
    vstd::arithmetic::div_mod::lemma_fundamental_div_mod(o, 256);
    vstd::arithmetic::div_mod::lemma_fundamental_div_mod(g, 256);
    assert(t2.ones@.len() == o);
    assert(t2.neg_ones@.len() == g);
    crate::encparams::lemma_spec_pow2_eq(bits as nat);
    let len = spec_block_len(t, bits);
    let block = arr.subrange(pos, pos + len);
    assert(block.subrange(4, block.len() as int) =~= arr.subrange(pos + 4, pos + len));
    assert forall|j: int| 0 <= j < (o + g) * bits implies byte_bit(
        block.subrange(4, block.len() as int),
        j,
    ) == stream_bit(t.ones@ + t.neg_ones@, bits, j) by {
        assert(byte_bit(arr.subrange(pos + 4, pos + len), j) == stream_bit(
            t.ones@ + t.neg_ones@,
            bits,
            j,
        ));
    }
    assert forall|i: int, tt: int|
        #![trigger spec_bit((t2.ones@ + t2.neg_ones@)[i] as int, tt as nat)]
        0 <= i < o + g && 0 <= tt < bits implies spec_bit(
        (t2.ones@ + t2.neg_ones@)[i] as int,
        tt as nat,
    ) == byte_bit(block.subrange(4, block.len() as int), i * bits + tt) by {
        assert(spec_bit((t2.ones@ + t2.neg_ones@)[i] as int, tt as nat) == byte_bit(
            arr.subrange(pos + 4, pos + len),
            i * bits + tt,
        ));
    }
    assert(block[0] as int == o / 256 && block[1] as int == o % 256);
    assert(block[2] as int == g / 256 && block[3] as int == g % 256);
    lemma_tern_block_roundtrip(t, t2, block, bits);
}

/// Write one packed ternary index block: two big-endian counts and the
/// `+1` then `-1` indices at `bits` bits each.
fn write_tern_block(out: &mut Vec<u8>, t: &TernPoly, bits: u16)
    requires
        t.wf(),
        1 <= bits <= 16,
    ensures
        final(out)@.len() == old(out)@.len() + 4 + (bits as int * (t.ones@.len()
            + t.neg_ones@.len()) + 7) / 8,
        forall|k: int| 0 <= k < old(out)@.len() ==> final(out)@[k] == old(out)@[k],
        final(out)@[old(out)@.len() as int] as int == t.ones@.len() / 256,
        final(out)@[old(out)@.len() as int + 1] as int == t.ones@.len() % 256,
        final(out)@[old(out)@.len() as int + 2] as int == t.neg_ones@.len() / 256,
        final(out)@[old(out)@.len() as int + 3] as int == t.neg_ones@.len() % 256,
        forall|j: int|
            0 <= j < (t.ones@.len() + t.neg_ones@.len()) * bits as int ==> byte_bit(
                final(out)@.subrange(old(out)@.len() as int + 4, final(out)@.len() as int),
                j,
            ) == stream_bit(t.ones@ + t.neg_ones@, bits as int, j),
{
    let o = t.ones.len();
    let g = t.neg_ones.len();
    let mut hdr: Vec<u8> = Vec::new();
    hdr.push((o / 256) as u8);
    hdr.push((o % 256) as u8);
    hdr.push((g / 256) as u8);
    hdr.push((g % 256) as u8);
    append_vec(out, &hdr);
    let mut idxs: Vec<u16> = Vec::new();
    let mut i: usize = 0;
    while i < o
        invariant
            o == t.ones@.len(),
            i <= o,
            idxs@.len() == i,
            forall|k: int| 0 <= k < i ==> idxs@[k] == t.ones@[k],
        decreases o - i,
    {
        idxs.push(t.ones[i]);
        i += 1;
    }
    let mut i: usize = 0;
    while i < g
        invariant
            o == t.ones@.len(),
            g == t.neg_ones@.len(),
            i <= g,
            idxs@.len() == o + i,
            forall|k: int| 0 <= k < o ==> idxs@[k] == t.ones@[k],
            forall|k: int| 0 <= k < i ==> idxs@[o + k] == t.neg_ones@[k],
        decreases g - i,
    {
        idxs.push(t.neg_ones[i]);
        i += 1;
    }
    proof {
        assert(idxs@ =~= t.ones@ + t.neg_ones@);
        assert(idxs@.len() * bits as int <= 60000) by (nonlinear_arith)
            requires
                idxs@.len() <= 998,
                0 <= bits <= 16,
        ;
    }
    let packed = pack_bits(&idxs, bits);
    append_vec(out, &packed);
    proof {
        assert(final(out)@.subrange(old(out)@.len() as int + 4, final(out)@.len() as int) =~= packed@);
    }
}

/// Read back one packed ternary index block written by `write_tern_block`,
/// validating that the indices form a well-formed ternary polynomial of
/// degree `n`.
fn read_tern_block(arr: &[u8], pos: usize, n: u16, bits: u16) -> (r: Option<(TernPoly, usize)>)
    requires
        1 <= n as int <= MAX_DEGREE,
        1 <= bits <= 16,
    ensures
        r is Some ==> {
            let t = (r->0).0;
            let np = (r->0).1;
            &&& t.wf()
            &&& t.n == n
            &&& pos < np <= arr@.len()
            &&& np == parsed_block_end(arr@, pos as int, bits as int)
            &&& parsed_block_at(arr@, pos as int, &t, bits as int)
        },
        block_decodable(arr@, pos as int, n as int, bits as int) && n as int - 1
            < crate::encparams::spec_pow2(bits as nat) ==> r is Some,
{
    let ghost decodable = block_decodable(arr@, pos as int, n as int, bits as int) && n as int - 1
        < crate::encparams::spec_pow2(bits as nat);
    let ghost tw: TernPoly = if decodable {
        choose|t: TernPoly|
            tern_block_at(arr@, pos as int, &t, bits as int) && t.wf() && t.n as int == n as int
    } else {
        arbitrary()
    };
    proof {
        if decodable {
            assert(tern_block_at(arr@, pos as int, &tw, bits as int) && tw.wf() && tw.n as int
                == n as int);
            vstd::arithmetic::div_mod::lemma_fundamental_div_mod(tw.ones@.len() as int, 256);
            vstd::arithmetic::div_mod::lemma_fundamental_div_mod(tw.neg_ones@.len() as int, 256);
        }
    }
    if pos > arr.len() || arr.len() - pos < 4 {
        proof {
            if decodable {
                assert(false);
            }
        }
        return None;
    }
    let o: usize = arr[pos] as usize * 256 + arr[pos + 1] as usize;
    let g: usize = arr[pos + 2] as usize * 256 + arr[pos + 3] as usize;
    proof {
        if decodable {
            assert(o == tw.ones@.len() && g == tw.neg_ones@.len());
        }
    }
    if o > MAX_ONES || g > MAX_ONES || o + g > n as usize {
        proof {
            if decodable {
                assert(false);
            }
        }
        return None;
    }
    proof {
        assert((o + g) * bits as int <= 60000) by (nonlinear_arith)
            requires
                o + g <= 998,
                0 <= bits <= 16,
        ;
    }
    let packed_len: usize = ((o + g) * bits as usize + 7) / 8;
    proof {
        if decodable {
            assert((o + g) as int * bits as int == bits as int * (o + g) as int)
                by (nonlinear_arith);
            assert(pos + 4 + packed_len <= arr@.len());
        }
    }
    if arr.len() - pos - 4 < packed_len {
        proof {
            if decodable {
                assert(false);
            }
        }
        return None;
    }
    let body = copy_range(arr, pos + 4, pos + 4 + packed_len);
    proof {
        let total = (o + g) * bits as int;
        assert(body@.len() * 8 >= total) by {
            vstd::arithmetic::div_mod::lemma_fundamental_div_mod(total + 7, 8);
            vstd::arithmetic::div_mod::lemma_mod_bound(total + 7, 8);
        }
    }
    let vals = unpack_bits(body.as_slice(), o + g, bits);
    proof {
        if decodable {
            // The unpacked values are exactly the encoded index sets.
            crate::encparams::lemma_spec_pow2_eq(bits as nat);
            let kidx = tw.ones@ + tw.neg_ones@;
            assert forall|k: int| 0 <= k < kidx.len() implies kidx[k] < pow2(bits as nat) by {
                if k < tw.ones@.len() {
                    assert(kidx[k] == tw.ones@[k]);
                } else {
                    assert(kidx[k] == tw.neg_ones@[k - tw.ones@.len()]);
                }
            }
            assert(body@ == arr@.subrange(
                pos as int + 4,
                pos as int + spec_block_len(&tw, bits as int),
            ));
            lemma_bitpack_roundtrip(kidx, body@, vals@, bits as int);
            assert(vals@ == kidx);
            assert(vals@.subrange(0, o as int) =~= tw.ones@);
            assert(vals@.subrange(o as int, (o + g) as int) =~= tw.neg_ones@);
        }
    }
    // Validate: all indices in range and pairwise distinct.
    let mut used: Vec<bool> = Vec::new();
    let mut i: usize = 0;
    while i < n as usize
        invariant
            i <= n as int,
            used@.len() == i,
            forall|j: int| 0 <= j < i ==> !used@[j],
        decreases n as int - i,
    {
        used.push(false);
        i += 1;
    }
    let ghost used0 = used@;
    let ones = match take_indices(&vals, 0, o, n, &mut used) {
        Some(v) => v,
        None => {
            proof {
                if decodable {
                    assert(forall|i2: int|
                        0 <= i2 < tw.ones@.len() ==> #[trigger] tw.ones@[i2] < n);
                    assert(forall|j: int| seq_has(tw.ones@, j) ==> !used0[j]) by {
                        assert(forall|j: int| seq_has(tw.ones@, j) ==> 0 <= j < n as int);
                    }
                    assert(false);
                }
            }
            return None;
        },
    };
    let ghost used1 = used@;
    let neg_ones = match take_indices(&vals, o, g, n, &mut used) {
        Some(v) => v,
        None => {
            proof {
                if decodable {
                    assert(forall|i2: int|
                        0 <= i2 < tw.neg_ones@.len() ==> #[trigger] tw.neg_ones@[i2] < n);
                    assert forall|j: int| seq_has(tw.neg_ones@, j) implies !used1[j] by {
                        let b = choose|b: int|
                            0 <= b < tw.neg_ones@.len() && tw.neg_ones@[b] == j;
                        assert(0 <= j < n as int);
                        if seq_has(ones@, j) {
                            let a = choose|a: int| 0 <= a < ones@.len() && ones@[a] == j;
                            assert(ones@[a] == tw.ones@[a]);
                            assert(tw.ones@[a] != tw.neg_ones@[b]);
                        }
                        assert(used1[j] == (used0[j] || seq_has(ones@, j)));
                    }
                    assert(false);
                }
            }
            return None;
        },
    };
    proof {
        assert(seq_disjoint(ones@, neg_ones@)) by {
            assert forall|a: int, b: int|
                0 <= a < ones@.len() && 0 <= b < neg_ones@.len() implies ones@[a]
                != neg_ones@[b] by {
                if ones@[a] == neg_ones@[b] {
                    let v = neg_ones@[b] as int;
                    assert(seq_has(neg_ones@, v));
                    assert(!used1[v]);
                    assert(seq_has(ones@, v));
                }
            }
        }
    }
    let t = TernPoly { n, ones, neg_ones };
    proof {
        assert(t.ones@ + t.neg_ones@ =~= vals@);
        assert(body@ == arr@.subrange(pos as int + 4, pos as int + 4 + packed_len as int));
        assert((o + g) as int * bits as int == bits as int * (o + g) as int) by (nonlinear_arith);
        assert(packed_len as int == (bits as int * (o + g) as int + 7) / 8);
        assert forall|i: int, tt: int|
            #![trigger spec_bit((t.ones@ + t.neg_ones@)[i] as int, tt as nat)]
            0 <= i < o + g && 0 <= tt < bits as int implies spec_bit(
            (t.ones@ + t.neg_ones@)[i] as int,
            tt as nat,
        ) == byte_bit(
            arr@.subrange(pos as int + 4, pos as int + 4 + packed_len as int),
            i * bits as int + tt,
        ) by {
            assert((t.ones@ + t.neg_ones@)[i] == vals@[i]);
            assert(spec_bit(vals@[i] as int, tt as nat) == byte_bit(
                body@,
                i * bits as int + tt,
            ));
        }
    }
    Some((t, pos + 4 + packed_len))
}

/// Codec round trip for one packed ternary index block: reading back a
/// written block recovers the index sets exactly.  The hypotheses are the
/// contracts of `write_tern_block` (over the appended bytes `block`) and
/// `read_tern_block`.
pub proof fn lemma_tern_block_roundtrip(
    t: &TernPoly,
    t2: &TernPoly,
    block: Seq<u8>,
    bits: int,
)
    requires
        1 <= bits <= 16,
        t.wf(),
        forall|i: int|
            0 <= i < t.ones@.len() ==> (#[trigger] t.ones@[i]) < pow2(bits as nat),
        forall|i: int|
            0 <= i < t.neg_ones@.len() ==> (#[trigger] t.neg_ones@[i]) < pow2(bits as nat),
        forall|i: int|
            0 <= i < t2.ones@.len() ==> (#[trigger] t2.ones@[i]) < pow2(bits as nat),
        forall|i: int|
            0 <= i < t2.neg_ones@.len() ==> (#[trigger] t2.neg_ones@[i]) < pow2(bits as nat),
        // what write_tern_block appended
        block.len() == 4 + (bits * (t.ones@.len() + t.neg_ones@.len()) + 7) / 8,
        block[0] as int == t.ones@.len() / 256,
        block[1] as int == t.ones@.len() % 256,
        block[2] as int == t.neg_ones@.len() / 256,
        block[3] as int == t.neg_ones@.len() % 256,
        forall|j: int|
            0 <= j < (t.ones@.len() + t.neg_ones@.len()) * bits ==> byte_bit(
                block.subrange(4, block.len() as int),
                j,
            ) == stream_bit(t.ones@ + t.neg_ones@, bits, j),
        // what read_tern_block parsed
        t2.ones@.len() == block[0] as int * 256 + block[1] as int,
        t2.neg_ones@.len() == block[2] as int * 256 + block[3] as int,
        forall|i: int, tt: int|
            #![trigger spec_bit((t2.ones@ + t2.neg_ones@)[i] as int, tt as nat)]
            0 <= i < t2.ones@.len() + t2.neg_ones@.len() && 0 <= tt < bits ==> spec_bit(
                (t2.ones@ + t2.neg_ones@)[i] as int,
                tt as nat,
            ) == byte_bit(block.subrange(4, block.len() as int), i * bits + tt),
    ensures
        t2.ones@ == t.ones@,
        t2.neg_ones@ == t.neg_ones@,
{
    let o = t.ones@.len() as int;
    let g = t.neg_ones@.len() as int;
    vstd::arithmetic::div_mod::lemma_fundamental_div_mod(o, 256);
    vstd::arithmetic::div_mod::lemma_fundamental_div_mod(g, 256);
    assert(t2.ones@.len() == o);
    assert(t2.neg_ones@.len() == g);
    let vals = t.ones@ + t.neg_ones@;
    let got = t2.ones@ + t2.neg_ones@;
    lemma_bitpack_roundtrip(vals, block.subrange(4, block.len() as int), got, bits);
    assert forall|i: int| 0 <= i < o implies t2.ones@[i] == t.ones@[i] by {
        assert(got[i] == vals[i]);
    }
    assert forall|i: int| 0 <= i < g implies t2.neg_ones@[i] == t.neg_ones@[i] by {
        assert(got[o + i] == vals[o + i]);
    }
    assert(t2.ones@ =~= t.ones@);
    assert(t2.neg_ones@ =~= t.neg_ones@);
}

/// Copy `count` values starting at `start`, checking that each is a fresh
/// in-range index and marking it in `used`.
fn take_indices(vals: &Vec<u16>, start: usize, count: usize, n: u16, used: &mut Vec<bool>) -> (r:
    Option<Vec<u16>>)
    requires
        start + count <= vals@.len(),
        old(used)@.len() == n as int,
        1 <= n as int <= MAX_DEGREE,
    ensures
        final(used)@.len() == n as int,
        r is Some ==> {
            &&& r->0@.len() == count as int
            &&& r->0@ == vals@.subrange(start as int, (start + count) as int)
            &&& seq_distinct(r->0@)
            &&& forall|i: int| 0 <= i < r->0@.len() ==> #[trigger] r->0@[i] < n
            &&& forall|j: int|
                0 <= j < n as int ==> final(used)@[j] == (old(used)@[j] || seq_has(r->0@, j))
            &&& forall|j: int| seq_has(r->0@, j) ==> 0 <= j < n as int && !old(used)@[j]
        },
        ({
            let vs = vals@.subrange(start as int, (start + count) as int);
            &&& forall|i: int| 0 <= i < vs.len() ==> #[trigger] vs[i] < n
            &&& seq_distinct(vs)
            &&& forall|j: int| seq_has(vs, j) ==> !old(used)@[j]
        }) ==> r is Some,
{
    let ghost vs = vals@.subrange(start as int, (start + count) as int);
    let vlen = vals.len();
    let mut out: Vec<u16> = Vec::new();
    let mut i: usize = 0;
    while i < count
        invariant
            start + count <= vlen,
            vlen == vals@.len(),
            used@.len() == n as int,
            old(used)@.len() == n as int,
            1 <= n as int <= MAX_DEGREE,
            i <= count,
            out@.len() == i,
            out@ == vals@.subrange(start as int, (start + i) as int),
            vs == vals@.subrange(start as int, (start + count) as int),
            forall|k: int| 0 <= k < i ==> out@[k] == vs[k],
            seq_distinct(out@),
            forall|k: int| 0 <= k < i ==> #[trigger] out@[k] < n,
            forall|j: int| #![trigger used@[j]]
                0 <= j < n as int ==> used@[j] == (old(used)@[j] || seq_has(out@, j)),
            forall|j: int| #![trigger seq_has(out@, j)]
                seq_has(out@, j) ==> 0 <= j < n as int && !old(used)@[j],
        decreases count - i,
    {
        let v = vals[start + i];
        proof {
            if (forall|k: int| 0 <= k < vs.len() ==> #[trigger] vs[k] < n) && seq_distinct(vs)
                && (forall|j: int| seq_has(vs, j) ==> !old(used)@[j]) {
                // Good input: this draw is in range and fresh.
                assert(vs[i as int] == v);
                assert(v < n);
                assert(seq_has(vs, v as int)) by {
                    assert(0 <= i < vs.len() && vs[i as int] == v);
                }
                assert(!old(used)@[v as int]);
                assert(!seq_has(out@, v as int)) by {
                    if seq_has(out@, v as int) {
                        let a = choose|a: int| 0 <= a < out@.len() && out@[a] == v;
                        assert(vs[a] == out@[a]);
                        assert(vs[a] == vs[i as int] && a != i);
                    }
                }
                assert(!used@[v as int]);
            }
        }
        if v >= n {
            proof {
                assert(!(forall|k: int| 0 <= k < vs.len() ==> #[trigger] vs[k] < n)) by {
                    assert(vs[i as int] == v && !(vs[i as int] < n));
                }
            }
            return None;
        }
        if used[v as usize] {
            proof {
                if (forall|k: int| 0 <= k < vs.len() ==> #[trigger] vs[k] < n) && seq_distinct(
                    vs,
                ) && (forall|j: int| seq_has(vs, j) ==> !old(used)@[j]) {
                    assert(false);
                }
            }
            return None;
        }
        let ghost u0 = used@;
        used.set(v as usize, true);
        let ghost o0 = out@;
        out.push(v);
        proof {
            assert(used@ == u0.update(v as int, true));
            assert(out@ == o0.push(v));
            assert(out@ =~= vals@.subrange(start as int, (start + i + 1) as int));
            assert(seq_has(out@, v as int)) by {
                lemma_seq_has_push(o0, v, v as int);
            }
            assert(seq_distinct(out@)) by {
                assert(!seq_has(o0, v as int));
                assert forall|a: int, b: int| 0 <= a < b < out@.len() implies out@[a]
                    != out@[b] by {
                    if b < o0.len() {
                        assert(o0[a] != o0[b]);
                    } else {
                        assert(out@[b] == v);
                        assert(0 <= a < o0.len() && o0[a] == out@[a]);
                        if out@[a] == v {
                            assert(seq_has(o0, v as int));
                        }
                    }
                }
            }
            assert forall|j: int| 0 <= j < n as int implies used@[j] == (old(used)@[j] || seq_has(
                out@,
                j,
            )) by {
                lemma_seq_has_push(o0, v, j);
                assert(u0[j] == (old(used)@[j] || seq_has(o0, j)));
                if j != v as int {
                    assert(used@[j] == u0[j]);
                }
            }
            assert forall|j: int| seq_has(out@, j) implies 0 <= j < n as int && !old(used)@[j] by {
                lemma_seq_has_push(o0, v, j);
                if j == v as int {
                    assert(u0[j] == (old(used)@[j] || seq_has(o0, j)));
                }
            }
        }
        i += 1;
    }
    Some(out)
}

/// A byte stream decodes to a private key: a plausible header followed by
/// one well-formed encoded index block (three for the product form).
pub open spec fn priv_import_decodable(arr: Seq<u8>) -> bool {
    &&& arr.len() >= 5
    &&& {
        let n = arr[0] as int * 256 + arr[1] as int;
        let q = arr[2] as int * 256 + arr[3] as int;
        let bits = crate::encparams::spec_idx_bits(n);
        &&& 11 <= n <= MAX_DEGREE
        &&& 4 <= q <= 4096
        &&& arr[4] <= 1
        &&& (arr[4] == 0 ==> block_decodable(arr, 5, n, bits))
        &&& (arr[4] == 1 ==> {
            let p1 = parsed_block_end(arr, 5, bits);
            let p2 = parsed_block_end(arr, p1, bits);
            &&& block_decodable(arr, 5, n, bits)
            &&& block_decodable(arr, p1, n, bits)
            &&& block_decodable(arr, p2, n, bits)
        })
    }
}

/// Codec round trip for ternary-form private keys: when importing an
/// exported key yields a key at all (nonzero modulus), it is the original
/// key, field for field.  The hypotheses are exactly the contracts of
/// `PrivateKey::export` and `PrivateKey::import` for the ternary form.
pub proof fn lemma_private_key_codec_roundtrip_ternary(
    kq: int,
    kt: &TernPoly,
    arr: Seq<u8>,
    rq: int,
    rt: &TernPoly,
)
    requires
        kt.wf(),
        11 <= kt.n as int <= MAX_DEGREE,
        4 <= kq <= 4096,
        rt.wf(),
        // what export wrote
        ({
            let bits = crate::encparams::spec_idx_bits(kt.n as int);
            &&& arr.len() == 5 + spec_block_len(kt, bits)
            &&& arr[0] as int == kt.n as int / 256
            &&& arr[1] as int == kt.n as int % 256
            &&& arr[2] as int == kq / 256
            &&& arr[3] as int == kq % 256
            &&& arr[4] == 0
            &&& tern_block_at(arr, 5, kt, bits)
        }),
        // what import read back, given it returned a key
        rq != 0,
        rq == arr[2] as int * 256 + arr[3] as int,
        rt.n as int == arr[0] as int * 256 + arr[1] as int,
        parsed_block_at(arr, 5, rt, crate::encparams::spec_idx_bits(rt.n as int)),
    ensures
        rq == kq,
        rt.n == kt.n,
        rt.ones@ == kt.ones@,
        rt.neg_ones@ == kt.neg_ones@,
{
    vstd::arithmetic::div_mod::lemma_fundamental_div_mod(kt.n as int, 256);
    vstd::arithmetic::div_mod::lemma_fundamental_div_mod(kq, 256);
    assert(rt.n == kt.n);
    assert(rq == kq);
    let bits = crate::encparams::spec_idx_bits(kt.n as int);
    crate::encparams::lemma_log2_upper(kt.n as int - 1);
    crate::encparams::lemma_log2_bound(kt.n as int - 1);
    assert(1 <= bits <= 16);
    crate::encparams::lemma_spec_pow2_eq(bits as nat);
    assert(kt.n as int - 1 < crate::encparams::spec_pow2(bits as nat));
    lemma_tern_block_roundtrip_at(kt, rt, arr, 5, bits);
}

/// Codec round trip for product-form private keys: when importing an
/// exported key yields a product-form key at all (nonzero modulus), it is
/// the original key, factor for factor.  The hypotheses are exactly the
/// contracts of `PrivateKey::export` and `PrivateKey::import` for the
/// product form.
pub proof fn lemma_private_key_codec_roundtrip_product(
    kq: int,
    kp: &ProdPoly,
    arr: Seq<u8>,
    rq: int,
    rp: &ProdPoly,
)
    requires
        kp.wf(),
        11 <= kp.n as int <= MAX_DEGREE,
        4 <= kq <= 4096,
        rp.wf(),
        // what export wrote
        ({
            let bits = crate::encparams::spec_idx_bits(kp.n as int);
            let l1 = spec_block_len(&kp.f1, bits);
            let l2 = spec_block_len(&kp.f2, bits);
            let l3 = spec_block_len(&kp.f3, bits);
            &&& arr.len() == 5 + l1 + l2 + l3
            &&& arr[0] as int == kp.n as int / 256
            &&& arr[1] as int == kp.n as int % 256
            &&& arr[2] as int == kq / 256
            &&& arr[3] as int == kq % 256
            &&& arr[4] == 1
            &&& tern_block_at(arr, 5, &kp.f1, bits)
            &&& tern_block_at(arr, 5 + l1, &kp.f2, bits)
            &&& tern_block_at(arr, 5 + l1 + l2, &kp.f3, bits)
        }),
        // what import read back, given it returned a product-form key
        rq != 0,
        rq == arr[2] as int * 256 + arr[3] as int,
        rp.n as int == arr[0] as int * 256 + arr[1] as int,
        ({
            let bits = crate::encparams::spec_idx_bits(rp.n as int);
            let p1 = parsed_block_end(arr, 5, bits);
            let p2 = parsed_block_end(arr, p1, bits);
            &&& parsed_block_at(arr, 5, &rp.f1, bits)
            &&& parsed_block_at(arr, p1, &rp.f2, bits)
            &&& parsed_block_at(arr, p2, &rp.f3, bits)
        }),
    ensures
        rq == kq,
        rp.n == kp.n,
        rp.f1.ones@ == kp.f1.ones@ && rp.f1.neg_ones@ == kp.f1.neg_ones@,
        rp.f2.ones@ == kp.f2.ones@ && rp.f2.neg_ones@ == kp.f2.neg_ones@,
        rp.f3.ones@ == kp.f3.ones@ && rp.f3.neg_ones@ == kp.f3.neg_ones@,
{
    vstd::arithmetic::div_mod::lemma_fundamental_div_mod(kp.n as int, 256);
    vstd::arithmetic::div_mod::lemma_fundamental_div_mod(kq, 256);
    assert(rp.n == kp.n);
    assert(rq == kq);
    let bits = crate::encparams::spec_idx_bits(kp.n as int);
    crate::encparams::lemma_log2_upper(kp.n as int - 1);
    crate::encparams::lemma_log2_bound(kp.n as int - 1);
    assert(1 <= bits <= 16);
    crate::encparams::lemma_spec_pow2_eq(bits as nat);
    assert(kp.n as int - 1 < crate::encparams::spec_pow2(bits as nat));
    let l1 = spec_block_len(&kp.f1, bits);
    let l2 = spec_block_len(&kp.f2, bits);
    let o1 = kp.f1.ones@.len() as int;
    let g1 = kp.f1.neg_ones@.len() as int;
    vstd::arithmetic::div_mod::lemma_fundamental_div_mod(o1, 256);
    vstd::arithmetic::div_mod::lemma_fundamental_div_mod(g1, 256);
    assert(parsed_block_end(arr, 5, bits) == 5 + l1);
    lemma_tern_block_roundtrip_at(&kp.f1, &rp.f1, arr, 5, bits);
    let o2 = kp.f2.ones@.len() as int;
    let g2 = kp.f2.neg_ones@.len() as int;
    vstd::arithmetic::div_mod::lemma_fundamental_div_mod(o2, 256);
    vstd::arithmetic::div_mod::lemma_fundamental_div_mod(g2, 256);
    assert(parsed_block_end(arr, 5 + l1, bits) == 5 + l1 + l2);
    lemma_tern_block_roundtrip_at(&kp.f2, &rp.f2, arr, 5 + l1, bits);
    lemma_tern_block_roundtrip_at(&kp.f3, &rp.f3, arr, 5 + l1 + l2, bits);
}

/// An exported ternary-form private key is decodable: `import` returns a
/// key (never the fallback) on every stream `export` writes.  The
/// hypotheses are the contract of `PrivateKey::export` for the ternary
/// form; combined with `lemma_private_key_codec_roundtrip_ternary` the
/// returned key is the original.
pub proof fn lemma_private_export_decodable_ternary(kq: int, kt: &TernPoly, arr: Seq<u8>)
    requires
        kt.wf(),
        11 <= kt.n as int <= MAX_DEGREE,
        4 <= kq <= 4096,
        ({
            let bits = crate::encparams::spec_idx_bits(kt.n as int);
            &&& arr.len() == 5 + spec_block_len(kt, bits)
            &&& arr[0] as int == kt.n as int / 256
            &&& arr[1] as int == kt.n as int % 256
            &&& arr[2] as int == kq / 256
            &&& arr[3] as int == kq % 256
            &&& arr[4] == 0
            &&& tern_block_at(arr, 5, kt, bits)
        }),
    ensures
        priv_import_decodable(arr),
{
    vstd::arithmetic::div_mod::lemma_fundamental_div_mod(kt.n as int, 256);
    vstd::arithmetic::div_mod::lemma_fundamental_div_mod(kq, 256);
    assert(arr[0] as int * 256 + arr[1] as int == kt.n as int);
    assert(arr[2] as int * 256 + arr[3] as int == kq);
    crate::encparams::lemma_log2_upper(kt.n as int - 1);
    let bits = crate::encparams::spec_idx_bits(kt.n as int);
    assert(bits >= 1);
    assert(arr.len() >= 5);
    assert(tern_block_at(arr, 5, kt, bits) && kt.wf() && kt.n as int == kt.n as int);
    assert(block_decodable(arr, 5, kt.n as int, bits));
}

/// An exported product-form private key is decodable, on the same grounds.
pub proof fn lemma_private_export_decodable_product(kq: int, kp: &ProdPoly, arr: Seq<u8>)
    requires
        kp.wf(),
        11 <= kp.n as int <= MAX_DEGREE,
        4 <= kq <= 4096,
        ({
            let bits = crate::encparams::spec_idx_bits(kp.n as int);
            let l1 = spec_block_len(&kp.f1, bits);
            let l2 = spec_block_len(&kp.f2, bits);
            let l3 = spec_block_len(&kp.f3, bits);
            &&& arr.len() == 5 + l1 + l2 + l3
            &&& arr[0] as int == kp.n as int / 256
            &&& arr[1] as int == kp.n as int % 256
            &&& arr[2] as int == kq / 256
            &&& arr[3] as int == kq % 256
            &&& arr[4] == 1
            &&& tern_block_at(arr, 5, &kp.f1, bits)
            &&& tern_block_at(arr, 5 + l1, &kp.f2, bits)
            &&& tern_block_at(arr, 5 + l1 + l2, &kp.f3, bits)
        }),
    ensures
        priv_import_decodable(arr),
{
    vstd::arithmetic::div_mod::lemma_fundamental_div_mod(kp.n as int, 256);
    vstd::arithmetic::div_mod::lemma_fundamental_div_mod(kq, 256);
    assert(arr[0] as int * 256 + arr[1] as int == kp.n as int);
    assert(arr[2] as int * 256 + arr[3] as int == kq);
    crate::encparams::lemma_log2_upper(kp.n as int - 1);
    let bits = crate::encparams::spec_idx_bits(kp.n as int);
    assert(bits >= 1);
    assert(arr.len() >= 5);
    let l1 = spec_block_len(&kp.f1, bits);
    let l2 = spec_block_len(&kp.f2, bits);
    assert(block_decodable(arr, 5, kp.n as int, bits)) by {
        assert(tern_block_at(arr, 5, &kp.f1, bits) && kp.f1.wf());
    }
    vstd::arithmetic::div_mod::lemma_fundamental_div_mod(kp.f1.ones@.len() as int, 256);
    vstd::arithmetic::div_mod::lemma_fundamental_div_mod(kp.f1.neg_ones@.len() as int, 256);
    assert(parsed_block_end(arr, 5, bits) == 5 + l1);
    assert(block_decodable(arr, 5 + l1, kp.n as int, bits)) by {
        assert(tern_block_at(arr, 5 + l1, &kp.f2, bits) && kp.f2.wf());
    }
    vstd::arithmetic::div_mod::lemma_fundamental_div_mod(kp.f2.ones@.len() as int, 256);
    vstd::arithmetic::div_mod::lemma_fundamental_div_mod(kp.f2.neg_ones@.len() as int, 256);
    assert(parsed_block_end(arr, 5 + l1, bits) == 5 + l1 + l2);
    assert(block_decodable(arr, 5 + l1 + l2, kp.n as int, bits)) by {
        assert(tern_block_at(arr, 5 + l1 + l2, &kp.f3, bits) && kp.f3.wf());
    }
}

impl PrivateKey {
    /// Export as a five-byte header (degree, modulus, form flag) followed by
    /// one packed ternary index block, or three for a product-form key.
    pub fn export(&self, params: &EncParams) -> (r: Vec<u8>)
        requires
            self.t.wf(),
            11 <= priv_deg(&self.t) <= MAX_DEGREE,
            4 <= self.q <= 4096,
        ensures
            r@.len() >= 5,
            r@[0] as int == priv_deg(&self.t) / 256,
            r@[1] as int == priv_deg(&self.t) % 256,
            r@[2] as int == self.q as int / 256,
            r@[3] as int == self.q as int % 256,
            r@[4] as int == (if self.t.is_product() {
                1int
            } else {
                0int
            }),
            !self.t.is_product() ==> {
                let t = self.t.get_tern_spec();
                let bits = crate::encparams::spec_idx_bits(priv_deg(&self.t));
                &&& r@.len() == 5 + spec_block_len(t, bits)
                &&& tern_block_at(r@, 5, t, bits)
            },
            self.t.is_product() ==> {
                let pp = self.t.get_prod_spec();
                let bits = crate::encparams::spec_idx_bits(priv_deg(&self.t));
                let l1 = spec_block_len(&pp.f1, bits);
                let l2 = spec_block_len(&pp.f2, bits);
                let l3 = spec_block_len(&pp.f3, bits);
                &&& r@.len() == 5 + l1 + l2 + l3
                &&& tern_block_at(r@, 5, &pp.f1, bits)
                &&& tern_block_at(r@, 5 + l1, &pp.f2, bits)
                &&& tern_block_at(r@, 5 + l1 + l2, &pp.f3, bits)
            },
    {
        let n: u16 = match &self.t {
            PrivPoly::Ternary(t) => t.n,
            PrivPoly::Product(p) => p.n,
        };
        let mut out: Vec<u8> = Vec::new();
        out.push((n / 256) as u8);
        out.push((n % 256) as u8);
        out.push((self.q / 256) as u8);
        out.push((self.q % 256) as u8);
        let bits = log2(n - 1) + 1;
        proof {
            assert(bits as int == crate::encparams::spec_idx_bits(n as int));
        }
        match &self.t {
            PrivPoly::Ternary(t) => {
                out.push(0);
                write_tern_block(&mut out, t, bits);
            },
            PrivPoly::Product(p) => {
                out.push(1);
                let ghost l1 = spec_block_len(&p.f1, bits as int);
                let ghost l2 = spec_block_len(&p.f2, bits as int);
                let ghost l3 = spec_block_len(&p.f3, bits as int);
                write_tern_block(&mut out, &p.f1, bits);
                let ghost outa = out@;
                write_tern_block(&mut out, &p.f2, bits);
                let ghost outb = out@;
                write_tern_block(&mut out, &p.f3, bits);
                proof {
                    assert(outa.len() == 5 + l1);
                    assert(outb.len() == 5 + l1 + l2);
                    assert(out@.len() == 5 + l1 + l2 + l3);
                    assert(forall|k: int| 0 <= k < outa.len() ==> out@[k] == outa[k]);
                    assert(tern_block_at(out@, 5, &p.f1, bits as int)) by {
                        assert(out@.subrange(9, 5 + l1) =~= outa.subrange(9, 5 + l1));
                        assert(forall|j: int|
                            0 <= j < (p.f1.ones@.len() + p.f1.neg_ones@.len()) * bits as int
                                ==> byte_bit(outa.subrange(9, 5 + l1), j) == stream_bit(
                                p.f1.ones@ + p.f1.neg_ones@,
                                bits as int,
                                j,
                            ));
                    }
                    assert(tern_block_at(out@, 5 + l1, &p.f2, bits as int)) by {
                        assert(out@.subrange(5 + l1 + 4, 5 + l1 + l2) =~= outb.subrange(
                            5 + l1 + 4,
                            5 + l1 + l2,
                        ));
                        assert(forall|j: int|
                            0 <= j < (p.f2.ones@.len() + p.f2.neg_ones@.len()) * bits as int
                                ==> byte_bit(outb.subrange(5 + l1 + 4, 5 + l1 + l2), j)
                                == stream_bit(p.f2.ones@ + p.f2.neg_ones@, bits as int, j));
                    }
                    assert(tern_block_at(out@, 5 + l1 + l2, &p.f3, bits as int)) by {
                        assert(out@.subrange(5 + l1 + l2 + 4, out@.len() as int) =~= out@.subrange(
                            outb.len() as int + 4,
                            out@.len() as int,
                        ));
                    }
                }
            },
        }
        out
    }

    /// Import a private key previously written by `export`.  A stream that
    /// does not decode to a well-formed key yields the empty ternary key
    /// with modulus zero.
    pub fn import(arr: &[u8]) -> (r: PrivateKey)
        ensures
            r.t.wf(),
            priv_import_decodable(arr@) ==> {
                &&& r.q != 0
                &&& r.q == arr@[2] as int * 256 + arr@[3] as int
                &&& priv_deg(&r.t) == arr@[0] as int * 256 + arr@[1] as int
                &&& r.t.is_product() == (arr@[4] == 1)
            },
            r.q != 0 ==> {
                &&& arr@.len() >= 5
                &&& r.q == arr@[2] as int * 256 + arr@[3] as int
                &&& priv_deg(&r.t) == arr@[0] as int * 256 + arr@[1] as int
                &&& r.t.is_product() == (arr@[4] == 1)
            },
            r.q != 0 && !r.t.is_product() ==> parsed_block_at(
                arr@,
                5,
                r.t.get_tern_spec(),
                crate::encparams::spec_idx_bits(priv_deg(&r.t)),
            ),
            r.q != 0 && r.t.is_product() ==> {
                let pp = r.t.get_prod_spec();
                let bits = crate::encparams::spec_idx_bits(priv_deg(&r.t));
                let p1 = parsed_block_end(arr@, 5, bits);
                let p2 = parsed_block_end(arr@, p1, bits);
                &&& parsed_block_at(arr@, 5, &pp.f1, bits)
                &&& parsed_block_at(arr@, p1, &pp.f2, bits)
                &&& parsed_block_at(arr@, p2, &pp.f3, bits)
            },
    {
        let fallback = PrivateKey {
            q: 0,
            t: PrivPoly::Ternary(TernPoly { n: 1, ones: Vec::new(), neg_ones: Vec::new() }),
        };
        let ghost decodable = priv_import_decodable(arr@);
        if arr.len() < 5 {
            proof {
                if decodable {
                    assert(false);
                }
            }
            return fallback;
        }
        let n: u16 = arr[0] as u16 * 256 + arr[1] as u16;
        let q: u16 = arr[2] as u16 * 256 + arr[3] as u16;
        let flag = arr[4];
        if n < 11 || n as usize > MAX_DEGREE || q < 4 || q > 4096 || flag > 1 {
            proof {
                if decodable {
                    assert(false);
                }
            }
            return fallback;
        }
        let bits = log2(n - 1) + 1;
        proof {
            assert(bits as int == crate::encparams::spec_idx_bits(n as int));
            if decodable {
                crate::encparams::lemma_log2_upper(n as int - 1);
                assert(n as int - 1 < crate::encparams::spec_pow2(bits as nat));
            }
        }
        if flag == 0 {
            match read_tern_block(arr, 5, n, bits) {
                Some((t, _)) => PrivateKey { q, t: PrivPoly::Ternary(t) },
                None => {
                    proof {
                        if decodable {
                            assert(false);
                        }
                    }
                    fallback
                },
            }
        } else {
            let (f1, p1) = match read_tern_block(arr, 5, n, bits) {
                Some(x) => x,
                None => {
                    proof {
                        if decodable {
                            assert(false);
                        }
                    }
                    return fallback;
                },
            };
            let (f2, p2) = match read_tern_block(arr, p1, n, bits) {
                Some(x) => x,
                None => {
                    proof {
                        if decodable {
                            assert(false);
                        }
                    }
                    return fallback;
                },
            };
            let (f3, _) = match read_tern_block(arr, p2, n, bits) {
                Some(x) => x,
                None => {
                    proof {
                        if decodable {
                            assert(false);
                        }
                    }
                    return fallback;
                },
            };
            PrivateKey { q, t: PrivPoly::Product(ProdPoly { n, f1, f2, f3 }) }
        }
    }
}

} // verus!
