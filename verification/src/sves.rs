//! The encryption/decryption transform: SVES-style padding, message-to-
//! ternary conversion, masking, and the padding validation performed on
//! decryption.

use vstd::prelude::*;
use crate::bitpack::pack_bits;
use crate::codec::copy_range;
use crate::encparams::{spec_enc_len, spec_max_msg_len, EncParams};
use crate::igf::{gen_blind_poly, mgf};
use crate::rand::{generate, RandContext};
use crate::types::{priv_deg, Error, IntPoly, PrivPoly, PrivateKey, PublicKey, MAX_DEGREE};

verus! {

/// Whether a public key belongs with a parameter set: matching modulus and
/// degree, coefficients reduced.
pub open spec fn pub_key_matches(k: &PublicKey, p: &EncParams) -> bool {
    &&& k.q == p.q
    &&& k.h@.len() == p.n as int
    &&& forall|i: int| 0 <= i < k.h@.len() ==> 0 <= #[trigger] k.h@[i] < p.q
}

/// Whether a private key belongs with a parameter set.
pub open spec fn priv_key_matches(k: &PrivateKey, p: &EncParams) -> bool {
    &&& k.q == p.q
    &&& k.t.wf()
    &&& priv_deg(&k.t) == p.n as int
}

/// The number of coefficients equal to `v` among the first `i`.
pub open spec fn count_eq(s: Seq<int>, v: int, i: nat) -> int
    decreases i,
{
    if i == 0 {
        0
    } else {
        count_eq(s, v, (i - 1) as nat) + if s[i - 1] == v {
            1int
        } else {
            0int
        }
    }
}

/// Check that a public key belongs with a parameter set.
pub fn check_pub_key(k: &PublicKey, p: &EncParams) -> (r: bool)
    ensures
        r == pub_key_matches(k, p),
{
    if k.q != p.q {
        return false;
    }
    if k.h.coeffs.len() != p.n as usize {
        return false;
    }
    let m = k.h.coeffs.len();
    let mut i: usize = 0;
    while i < m
        invariant
            m == k.h@.len(),
            i <= m,
            forall|j: int| 0 <= j < i ==> 0 <= #[trigger] k.h@[j] < p.q,
        decreases m - i,
    {
        let c = k.h.coeffs[i];
        if c < 0 || c as i32 >= p.q as i32 {
            assert(!(0 <= k.h@[i as int] < p.q));
            return false;
        }
        i += 1;
    }
    true
}

/// Count the coefficients equal to `v`.
pub fn count_sym(p: &IntPoly, v: i16) -> (r: usize)
    ensures
        r as int == count_eq(p@, v as int, p@.len()),
{
    let m = p.coeffs.len();
    let mut count: usize = 0;
    let mut i: usize = 0;
    while i < m
        invariant
            m == p@.len(),
            i <= m,
            count <= i,
            count as int == count_eq(p@, v as int, i as nat),
        decreases m - i,
    {
        if p.coeffs[i] == v {
            count += 1;
        }
        i += 1;
    }
    count
}

/// The three message bits group `p` of a byte buffer carries, as a value;
/// bits past the end of the buffer read as zero.
pub open spec fn bits3_val(m: Seq<u8>, p: int) -> int {
    let b0: int = if 3 * p < m.len() * 8 && crate::bitpack::byte_bit(m, 3 * p) {
        1
    } else {
        0
    };
    let b1: int = if 3 * p + 1 < m.len() * 8 && crate::bitpack::byte_bit(m, 3 * p + 1) {
        1
    } else {
        0
    };
    let b2: int = if 3 * p + 2 < m.len() * 8 && crate::bitpack::byte_bit(m, 3 * p + 2) {
        1
    } else {
        0
    };
    b0 + 2 * b1 + 4 * b2
}

/// Bit `j` of a byte buffer, least significant bit of each byte first.
fn buf_bit(m: &Vec<u8>, j: usize) -> (r: u8)
    requires
        j < m@.len() * 8,
    ensures
        r <= 1,
        (r == 1) == crate::bitpack::byte_bit(m@, j as int),
{
    proof {
        vstd::arithmetic::div_mod::lemma_div_is_ordered(j as int, m@.len() * 8 - 1, 8);
        assert((m@.len() * 8 - 1) / 8 < m@.len()) by {
            vstd::arithmetic::div_mod::lemma_fundamental_div_mod_converse(
                m@.len() * 8 - 1,
                8,
                m@.len() - 1,
                7,
            );
        }
    }
    let b = m[j / 8];
    let off = j % 8;
    let pw16 = crate::encparams::pow2_u16(off as u16);
    proof {
        crate::encparams::lemma_pow2_pos(off as nat);
        crate::encparams::lemma_pow2_mono(off as nat, 7);
        assert(crate::encparams::spec_pow2(7) == 128) by {
            reveal_with_fuel(crate::encparams::spec_pow2, 9);
        }
        crate::encparams::lemma_spec_pow2_eq(off as nat);
    }
    let pw = pw16 as u8;
    let r = (b / pw) % 2;
    proof {
        assert(pw as int == vstd::arithmetic::power2::pow2(off as nat));
        assert(r as int == b as int / pw as int % 2);
        assert((r == 1) == crate::bitpack::spec_bit(m@[j as int / 8] as int, (j as int % 8) as nat));
    }
    r
}

/// Convert a padded message buffer to `n` ternary coefficients: each group
/// of three bits yields two base-three digits; unused trailing
/// coefficients are zero.
fn bytes_to_trits(m: &Vec<u8>, n: u16) -> (r: Option<IntPoly>)
    requires
        1 <= n as int <= MAX_DEGREE,
        m@.len() <= 4096,
    ensures
        r is Some <==> 2 * ((m@.len() * 8 + 2) / 3) <= n as int,
        r is Some ==> {
            &&& r->0@.len() == n as int
            &&& forall|i: int| 0 <= i < n as int ==> 0 <= #[trigger] r->0@[i] <= 2
            &&& forall|p: int| #![trigger r->0@[2 * p]]
                0 <= p < (m@.len() * 8 + 2) / 3 ==> r->0@[2 * p] == bits3_val(m@, p) % 3
                    && r->0@[2 * p + 1] == bits3_val(m@, p) / 3
            &&& forall|i: int|
                2 * ((m@.len() * 8 + 2) / 3) <= i < n as int ==> #[trigger] r->0@[i] == 0
        },
{
    let total_bits: usize = m.len() * 8;
    let pairs: usize = (total_bits + 2) / 3;
    if 2 * pairs > n as usize {
        return None;
    }
    let mut coeffs: Vec<i16> = Vec::new();
    let mut p: usize = 0;
    while p < pairs
        invariant
            total_bits == m@.len() * 8,
            pairs == (total_bits + 2) / 3,
            2 * pairs <= n as int,
            p <= pairs,
            coeffs@.len() == 2 * p,
            forall|i: int| 0 <= i < coeffs@.len() ==> 0 <= #[trigger] coeffs@[i] <= 2,
            forall|k: int| #![trigger coeffs@[2 * k]]
                0 <= k < p ==> coeffs@[2 * k] == bits3_val(m@, k) % 3 && coeffs@[2 * k + 1]
                    == bits3_val(m@, k) / 3,
        decreases pairs - p,
    {
        let j0 = 3 * p;
        let b0: u8 = if j0 < total_bits {
            buf_bit(m, j0)
        } else {
            0
        };
        let b1: u8 = if j0 + 1 < total_bits {
            buf_bit(m, j0 + 1)
        } else {
            0
        };
        let b2: u8 = if j0 + 2 < total_bits {
            buf_bit(m, j0 + 2)
        } else {
            0
        };
        let v: u8 = b0 + 2 * b1 + 4 * b2;
        proof {
            assert(v as int == bits3_val(m@, p as int));
        }
        let ghost c0 = coeffs@;
        coeffs.push((v % 3) as i16);
        coeffs.push((v / 3) as i16);
        proof {
            assert forall|k: int| #![trigger coeffs@[2 * k]]
                0 <= k < p + 1 implies coeffs@[2 * k] == bits3_val(m@, k) % 3 && coeffs@[2 * k
                + 1] == bits3_val(m@, k) / 3 by {
                if k < p {
                    assert(coeffs@[2 * k] == c0[2 * k]);
                    assert(coeffs@[2 * k + 1] == c0[2 * k + 1]);
                } else {
                    assert(coeffs@[2 * k] as int == v as int % 3);
                    assert(coeffs@[2 * k + 1] as int == v as int / 3);
                }
            }
        }
        p += 1;
    }
    let mut i: usize = coeffs.len();
    while i < n as usize
        invariant
            total_bits == m@.len() * 8,
            pairs == (total_bits + 2) / 3,
            2 * pairs <= i,
            i == coeffs@.len(),
            i <= n as int,
            forall|k: int| 0 <= k < coeffs@.len() ==> 0 <= #[trigger] coeffs@[k] <= 2,
            forall|k: int| #![trigger coeffs@[2 * k]]
                0 <= k < pairs ==> coeffs@[2 * k] == bits3_val(m@, k) % 3 && coeffs@[2 * k + 1]
                    == bits3_val(m@, k) / 3,
            forall|k: int| 2 * pairs <= k < i ==> #[trigger] coeffs@[k] == 0,
        decreases n as int - i,
    {
        let ghost c0 = coeffs@;
        coeffs.push(0);
        proof {
            assert forall|k: int| #![trigger coeffs@[2 * k]]
                0 <= k < pairs implies coeffs@[2 * k] == bits3_val(m@, k) % 3 && coeffs@[2 * k
                + 1] == bits3_val(m@, k) / 3 by {
                assert(coeffs@[2 * k] == c0[2 * k]);
                assert(coeffs@[2 * k + 1] == c0[2 * k + 1]);
            }
        }
        i += 1;
    }
    Some(IntPoly { coeffs })
}

/// The three-bit group value coefficient pair `p` encodes.
pub open spec fn pair_val(t: Seq<int>, p: int) -> int {
    t[2 * p] + 3 * t[2 * p + 1]
}

/// Convert ternary coefficients back to `out_len` bytes: each coefficient
/// pair yields one three-bit group; the pair `(2, 2)` is not a valid
/// encoding.  On success every output bit is pinned: bit `j` is bit
/// `j mod 3` of the value pair `j / 3` encodes.
#[verifier::rlimit(60)]
fn trits_to_bytes(t: &IntPoly, out_len: usize) -> (r: Option<Vec<u8>>)
    requires
        forall|i: int| 0 <= i < t@.len() ==> 0 <= #[trigger] t@[i] <= 2,
        out_len <= 4096,
    ensures
        r is Some <==> 2 * ((out_len * 8 + 2) / 3) <= t@.len() && (forall|p: int|
            0 <= p < (out_len * 8 + 2) / 3 ==> #[trigger] pair_val(t@, p) <= 7),
        r is Some ==> {
            &&& r->0@.len() == out_len
            &&& forall|j: int|
                0 <= j < out_len * 8 ==> crate::bitpack::byte_bit(r->0@, j)
                    == crate::bitpack::spec_bit(pair_val(t@, j / 3), (j % 3) as nat)
        },
{
    let total_bits: usize = out_len * 8;
    let pairs: usize = (total_bits + 2) / 3;
    if 2 * pairs > t.coeffs.len() {
        return None;
    }
    proof {
        vstd::arithmetic::power2::lemma2_to64();
    }
    let mut out: Vec<u8> = Vec::new();
    let mut cur: u16 = 0;
    let mut nb: u16 = 0;
    let mut p: usize = 0;
    while p < pairs
        invariant
            total_bits == out_len * 8,
            pairs == (total_bits + 2) / 3,
            2 * pairs <= t@.len(),
            forall|i: int| 0 <= i < t@.len() ==> 0 <= #[trigger] t@[i] <= 2,
            p <= pairs,
            out@.len() <= out_len,
            nb <= 7,
            (cur as int) < vstd::arithmetic::power2::pow2(nb as nat),
            out@.len() * 8 + nb as int == 3 * p,
            forall|k: int| 0 <= k < p ==> #[trigger] pair_val(t@, k) <= 7,
            forall|j: int|
                0 <= j < out@.len() * 8 ==> crate::bitpack::byte_bit(out@, j)
                    == crate::bitpack::spec_bit(pair_val(t@, j / 3), (j % 3) as nat),
            forall|l: int| #![trigger crate::bitpack::spec_bit(cur as int, l as nat)]
                0 <= l < nb as int ==> crate::bitpack::spec_bit(cur as int, l as nat)
                    == crate::bitpack::spec_bit(
                    pair_val(t@, (out@.len() * 8 + l) / 3),
                    ((out@.len() * 8 + l) % 3) as nat,
                ),
        decreases pairs - p,
    {
        proof {
            assert(2 * p < t@.len());
            assert(0 <= t@[2 * p] <= 2);
            assert(0 <= t@[2 * p + 1] <= 2);
        }
        let t1 = t.coeffs[2 * p];
        let t2 = t.coeffs[2 * p + 1];
        let v: u16 = t1 as u16 + 3 * t2 as u16;
        proof {
            assert(v as int == pair_val(t@, p as int));
        }
        if v > 7 {
            proof {
                assert(pair_val(t@, p as int) > 7);
            }
            return None;
        }
        let mut k: usize = 0;
        while k < 3
            invariant
                total_bits == out_len * 8,
                pairs == (total_bits + 2) / 3,
                2 * pairs <= t@.len(),
                forall|i: int| 0 <= i < t@.len() ==> 0 <= #[trigger] t@[i] <= 2,
                p < pairs,
                v as int == pair_val(t@, p as int),
                v <= 7,
                k <= 3,
                out@.len() <= out_len,
                nb <= 7,
                (cur as int) < vstd::arithmetic::power2::pow2(nb as nat),
                out@.len() * 8 + nb as int == 3 * p + k,
                forall|j: int|
                    0 <= j < out@.len() * 8 ==> crate::bitpack::byte_bit(out@, j)
                        == crate::bitpack::spec_bit(pair_val(t@, j / 3), (j % 3) as nat),
                forall|l: int| #![trigger crate::bitpack::spec_bit(cur as int, l as nat)]
                    0 <= l < nb as int ==> crate::bitpack::spec_bit(cur as int, l as nat)
                        == crate::bitpack::spec_bit(
                        pair_val(t@, (out@.len() * 8 + l) / 3),
                        ((out@.len() * 8 + l) % 3) as nat,
                    ),
            decreases 3 - k,
        {
            proof {
                vstd::arithmetic::power2::lemma2_to64();
            }
            let bit: u16 = if k == 0 {
                v % 2
            } else if k == 1 {
                (v / 2) % 2
            } else {
                (v / 4) % 2
            };
            proof {
                assert((bit == 1) == crate::bitpack::spec_bit(v as int, k as nat)) by {
                    assert(vstd::arithmetic::power2::pow2(0) == 1);
                    assert(vstd::arithmetic::power2::pow2(1) == 2);
                    assert(vstd::arithmetic::power2::pow2(2) == 4);
                }
            }
            let pw = crate::encparams::pow2_u16(nb);
            proof {
                crate::encparams::lemma_spec_pow2_eq(nb as nat);
                crate::bitpack::lemma_add_bit(cur as int, nb as nat, nb as nat);
            }
            let ghost cur0 = cur as int;
            let ghost j_new = out@.len() * 8 + nb as int;
            let cur2: u16 = if bit == 1 {
                cur + pw
            } else {
                cur
            };
            proof {
                // The new accumulator carries the old bits plus this one.
                vstd::arithmetic::power2::lemma_pow2_strictly_increases(nb as nat, nb as nat + 1);
                assert forall|l: int| #![trigger crate::bitpack::spec_bit(cur2 as int, l as nat)]
                    0 <= l < nb as int + 1 implies crate::bitpack::spec_bit(
                    cur2 as int,
                    l as nat,
                ) == crate::bitpack::spec_bit(
                    pair_val(t@, (out@.len() * 8 + l) / 3),
                    ((out@.len() * 8 + l) % 3) as nat,
                ) by {
                    if l < nb as int {
                        assert(crate::bitpack::spec_bit(cur as int, l as nat)
                            == crate::bitpack::spec_bit(
                            pair_val(t@, (out@.len() * 8 + l) / 3),
                            ((out@.len() * 8 + l) % 3) as nat,
                        ));
                        if bit == 1 {
                            crate::bitpack::lemma_add_bit(cur0, nb as nat, l as nat);
                            assert(cur2 as int == cur0 + vstd::arithmetic::power2::pow2(
                                nb as nat,
                            ));
                            assert(crate::bitpack::spec_bit(cur2 as int, l as nat)
                                == crate::bitpack::spec_bit(cur0, l as nat));
                        } else {
                            assert(cur2 == cur);
                        }
                    } else {
                        assert(l == nb as int);
                        vstd::arithmetic::div_mod::lemma_fundamental_div_mod_converse(
                            j_new,
                            3,
                            p as int,
                            k as int,
                        );
                        assert(j_new / 3 == p as int && j_new % 3 == k as int);
                        assert(crate::bitpack::spec_bit(pair_val(t@, p as int), k as nat) == (bit
                            == 1));
                        if bit == 1 {
                            assert(cur2 as int == cur0 + vstd::arithmetic::power2::pow2(
                                nb as nat,
                            ));
                            assert(crate::bitpack::spec_bit(cur2 as int, nb as nat));
                        } else {
                            assert(cur2 as int / vstd::arithmetic::power2::pow2(nb as nat) as int
                                == 0);
                            assert(!crate::bitpack::spec_bit(cur2 as int, nb as nat));
                        }
                    }
                }
                assert((cur2 as int) < vstd::arithmetic::power2::pow2(nb as nat + 1));
            }
            cur = cur2;
            nb += 1;
            if nb == 8 {
                let byte: u8 = (cur % 256) as u8;
                proof {
                    assert(vstd::arithmetic::power2::pow2(8) == 256);
                    assert(byte as int == cur as int);
                }
                let ghost out0 = out@;
                proof {
                    // The write position is inside the output.
                    assert(out@.len() < out_len) by {
                        assert(out@.len() * 8 + 8 == 3 * p + k + 1);
                        assert(3 * p + k + 1 <= 3 * pairs);
                        assert(3 * pairs <= total_bits + 2);
                        if out@.len() >= out_len {
                            assert(out@.len() * 8 + 8 >= total_bits + 8);
                        }
                    }
                }
                out.push(byte);
                cur = 0;
                nb = 0;
                proof {
                    assert forall|j: int| 0 <= j < out@.len() * 8 implies crate::bitpack::byte_bit(
                        out@,
                        j,
                    ) == crate::bitpack::spec_bit(pair_val(t@, j / 3), (j % 3) as nat) by {
                        crate::bitpack::lemma_div8_bound_pub(j, out@.len() as int);
                        let jb = j / 8;
                        if jb < out0.len() {
                            assert(out@[jb] == out0[jb]);
                            assert(crate::bitpack::byte_bit(out@, j) == crate::bitpack::byte_bit(
                                out0,
                                j,
                            ));
                        } else {
                            assert(out@[jb] == byte);
                            assert(j == out0.len() * 8 + (j % 8));
                            assert(crate::bitpack::byte_bit(out@, j) == crate::bitpack::spec_bit(
                                byte as int,
                                (j % 8) as nat,
                            ));
                        }
                    }
                }
            }
            k += 1;
        }
        p += 1;
    }
    proof {
        // Every output byte was completed inside the loop.
        assert(out@.len() == out_len) by {
            assert(out@.len() * 8 + nb as int == 3 * pairs);
            assert(3 * pairs >= total_bits) by {
                vstd::arithmetic::div_mod::lemma_fundamental_div_mod(total_bits as int + 2, 3);
                vstd::arithmetic::div_mod::lemma_mod_bound(total_bits as int + 2, 3);
            }
            if out@.len() < out_len {
                assert(out@.len() * 8 + nb as int <= total_bits - 8 + 7);
            }
        }
    }
    Some(out)
}

/// Combine the message trits with the masking polynomial:
/// `(mtrin + mask) mod 3`, with the residue 2 written as -1.
fn combine_mask(mtrin: &IntPoly, mask: &IntPoly) -> (r: IntPoly)
    requires
        mtrin@.len() == mask@.len(),
        forall|i: int| 0 <= i < mtrin@.len() ==> 0 <= #[trigger] mtrin@[i] <= 2,
        forall|i: int| 0 <= i < mask@.len() ==> 0 <= #[trigger] mask@[i] <= 2,
    ensures
        r@.len() == mtrin@.len(),
        forall|i: int| #![trigger r@[i]]
            0 <= i < mtrin@.len() ==> r@[i] == (if (mtrin@[i] + mask@[i]) % 3 == 2 {
                -1int
            } else {
                (mtrin@[i] + mask@[i]) % 3
            }),
{
    let n = mtrin.coeffs.len();
    let mut out: Vec<i16> = Vec::new();
    let mut i: usize = 0;
    while i < n
        invariant
            n == mtrin@.len(),
            n == mask@.len(),
            forall|k: int| 0 <= k < n ==> 0 <= #[trigger] mtrin@[k] <= 2,
            forall|k: int| 0 <= k < n ==> 0 <= #[trigger] mask@[k] <= 2,
            i <= n,
            out@.len() == i,
            forall|k: int| #![trigger out@[k]]
                0 <= k < i ==> out@[k] as int == (if (mtrin@[k] + mask@[k]) % 3 == 2 {
                    -1int
                } else {
                    (mtrin@[k] + mask@[k]) % 3
                }),
        decreases n - i,
    {
        proof {
            assert(0 <= mtrin@[i as int] <= 2);
            assert(0 <= mask@[i as int] <= 2);
        }
        let sum: i16 = mtrin.coeffs[i] + mask.coeffs[i];
        let m3: i16 = sum % 3;
        assert(0 <= m3 <= 2);
        let c: i16 = if m3 == 2 {
            -1
        } else {
            m3
        };
        out.push(c);
        i += 1;
    }
    IntPoly { coeffs: out }
}

/// Remove the masking polynomial from the recovered message polynomial:
/// `(mp - mask) mod 3`, into `{0, 1, 2}`.
fn unmask_trits(mp: &IntPoly, mask: &IntPoly) -> (r: IntPoly)
    requires
        mp@.len() == mask@.len(),
        forall|i: int| 0 <= i < mp@.len() ==> -1 <= #[trigger] mp@[i] <= 1,
        forall|i: int| 0 <= i < mask@.len() ==> 0 <= #[trigger] mask@[i] <= 2,
    ensures
        r@.len() == mp@.len(),
        forall|i: int| #![trigger r@[i]]
            0 <= i < mp@.len() ==> r@[i] == (mp@[i] - mask@[i]) % 3,
{
    let n = mp.coeffs.len();
    let mut out: Vec<i16> = Vec::new();
    let mut i: usize = 0;
    while i < n
        invariant
            n == mp@.len(),
            n == mask@.len(),
            forall|k: int| 0 <= k < n ==> -1 <= #[trigger] mp@[k] <= 1,
            forall|k: int| 0 <= k < n ==> 0 <= #[trigger] mask@[k] <= 2,
            i <= n,
            out@.len() == i,
            forall|k: int| #![trigger out@[k]]
                0 <= k < i ==> out@[k] as int == (mp@[k] - mask@[k]) % 3,
        decreases n - i,
    {
        proof {
            assert(-1 <= mp@[i as int] <= 1);
            assert(0 <= mask@[i as int] <= 2);
        }
        let diff: i32 = mp.coeffs[i] as i32 - mask.coeffs[i] as i32;
        let red = crate::types::reduce_mod3(diff);
        out.push(red as i16);
        i += 1;
    }
    IntPoly { coeffs: out }
}

/// The coefficients reduced modulo four, the mask generation seed values.
pub open spec fn mod4_vals(s: Seq<int>) -> Seq<u16> {
    Seq::new(s.len(), |i: int| (s[i] % 4) as u16)
}

/// Pack the low two bits of every coefficient, four per byte: the seed for
/// the mask generation function, pinned bit for bit.
fn pack_mod4(p: &IntPoly) -> (r: Vec<u8>)
    requires
        p@.len() <= MAX_DEGREE,
    ensures
        r@.len() == (p@.len() * 2 + 7) / 8,
        forall|j: int|
            0 <= j < p@.len() * 2 ==> crate::bitpack::byte_bit(r@, j)
                == crate::bitpack::stream_bit(mod4_vals(p@), 2, j),
        forall|j: int|
            p@.len() * 2 <= j < r@.len() * 8 ==> crate::bitpack::byte_bit(r@, j) == false,
{
    let m = p.coeffs.len();
    let mut vals: Vec<u16> = Vec::new();
    let mut i: usize = 0;
    while i < m
        invariant
            m == p@.len(),
            i <= m,
            vals@.len() == i,
            forall|k: int| 0 <= k < i ==> vals@[k] == mod4_vals(p@)[k],
        decreases m - i,
    {
        let c = p.coeffs[i] as i32;
        let red = crate::types::reduce(c, 4);
        proof {
            assert(red as u16 as int == p@[i as int] % 4);
        }
        vals.push(red as u16);
        i += 1;
    }
    proof {
        assert(vals@ =~= mod4_vals(p@));
        assert(vals@.len() * 2 <= 60000);
    }
    pack_bits(&vals, 2)
}

/// The blinding seed: the parameter set identifier, the message, the random
/// prefix and the truncated public key.
fn make_sdata(params: &EncParams, msg: &[u8], b: &Vec<u8>, htrunc: &Vec<u8>) -> (r: Vec<u8>)
    ensures
        r@ == seq![params.oid[0], params.oid[1], params.oid[2]] + msg@ + b@ + htrunc@,
{
    let mut out: Vec<u8> = Vec::new();
    out.push(params.oid[0]);
    out.push(params.oid[1]);
    out.push(params.oid[2]);
    let ghost oid3 = seq![params.oid[0], params.oid[1], params.oid[2]];
    proof {
        assert(out@ =~= oid3);
    }
    let mut i: usize = 0;
    while i < msg.len()
        invariant
            i <= msg@.len(),
            out@ == oid3 + msg@.subrange(0, i as int),
        decreases msg@.len() - i,
    {
        out.push(msg[i]);
        proof {
            assert(out@ =~= oid3 + msg@.subrange(0, i as int + 1));
        }
        i += 1;
    }
    proof {
        assert(msg@.subrange(0, msg@.len() as int) =~= msg@);
    }
    let mut i: usize = 0;
    while i < b.len()
        invariant
            i <= b@.len(),
            out@ == oid3 + msg@ + b@.subrange(0, i as int),
        decreases b@.len() - i,
    {
        out.push(b[i]);
        proof {
            assert(out@ =~= oid3 + msg@ + b@.subrange(0, i as int + 1));
        }
        i += 1;
    }
    proof {
        assert(b@.subrange(0, b@.len() as int) =~= b@);
        assert(oid3 + msg@ + b@.subrange(0, b@.len() as int) =~= oid3 + msg@ + b@);
    }
    let mut i: usize = 0;
    while i < htrunc.len()
        invariant
            i <= htrunc@.len(),
            out@ == oid3 + msg@ + b@ + htrunc@.subrange(0, i as int),
        decreases htrunc@.len() - i,
    {
        out.push(htrunc[i]);
        proof {
            assert(out@ =~= oid3 + msg@ + b@ + htrunc@.subrange(0, i as int + 1));
        }
        i += 1;
    }
    proof {
        assert(htrunc@.subrange(0, htrunc@.len() as int) =~= htrunc@);
        assert(out@ =~= oid3 + msg@ + b@ + htrunc@);
    }
    out
}

/// The truncated packed public key bound into the blinding seed: the first
/// `pklen/8` bytes of the packed public polynomial, bit for bit.
fn h_trunc(public: &PublicKey, params: &EncParams) -> (r: Vec<u8>)
    requires
        params.wf(),
        pub_key_matches(public, params),
    ensures
        r@.len() == params.pklen as int / 8,
        forall|j: int|
            0 <= j < r@.len() * 8 ==> crate::bitpack::byte_bit(r@, j) == (if j < params.n as int
                * crate::encparams::spec_log2(params.q as int) {
                crate::bitpack::stream_bit(
                    crate::codec::poly_vals(public.h@),
                    crate::encparams::spec_log2(params.q as int),
                    j,
                )
            } else {
                false
            }),
{
    let arr = public.h.to_arr(params);
    let want = (params.pklen / 8) as usize;
    proof {
        assert(want <= arr@.len());
    }
    let r = copy_range(arr.as_slice(), 0, want);
    proof {
        assert forall|j: int| 0 <= j < r@.len() * 8 implies crate::bitpack::byte_bit(r@, j) == (
        if j < params.n as int * crate::encparams::spec_log2(params.q as int) {
            crate::bitpack::stream_bit(
                crate::codec::poly_vals(public.h@),
                crate::encparams::spec_log2(params.q as int),
                j,
            )
        } else {
            false
        }) by {
            assert(0 <= j / 8 < r@.len()) by {
                vstd::arithmetic::div_mod::lemma_fundamental_div_mod_converse(
                    r@.len() * 8 - 1,
                    8,
                    r@.len() - 1,
                    7,
                );
                vstd::arithmetic::div_mod::lemma_div_is_ordered(0, j, 8);
                vstd::arithmetic::div_mod::lemma_div_is_ordered(j, r@.len() * 8 - 1, 8);
                vstd::arithmetic::div_mod::lemma_basic_div(0, 8);
            }
            assert(r@[j / 8] == arr@[j / 8]);
            assert(crate::bitpack::byte_bit(r@, j) == crate::bitpack::byte_bit(arr@, j));
        }
    }
    r
}

/// Core encryption: pad, convert to ternary, mask, and emit `h*r + m'`.
/// The caller has already validated the parameters, the key and the
/// message length.
pub(crate) fn encrypt_impl(
    msg: &[u8],
    public: &PublicKey,
    params: &EncParams,
    rand_ctx: &mut RandContext,
) -> (r: Result<Vec<u8>, Error>)
    requires
        old(rand_ctx).wf(),
        params.wf(),
        pub_key_matches(public, params),
        msg@.len() <= spec_max_msg_len(params.n as int, params.db as int),
    ensures
        final(rand_ctx).wf(),
        final(rand_ctx).rand_gen == old(rand_ctx).rand_gen,
        final(rand_ctx).seed@ == old(rand_ctx).seed@,
        r is Ok ==> r->Ok_0@.len() == spec_enc_len(params.n as int, params.q as int),
        r is Err ==> r->Err_0 == Error::Prng,
{
    let n = params.n;
    let mask: u16 = params.q - 1;
    let db_bytes: usize = (params.db / 8) as usize;
    let max_len: usize = params.max_msg_len() as usize;
    let htrunc = h_trunc(public, params);
    let mut attempts: u32 = 0;
    while attempts < 100
        invariant
            rand_ctx.wf(),
            rand_ctx.rand_gen == old(rand_ctx).rand_gen,
            rand_ctx.seed@ == old(rand_ctx).seed@,
            params.wf(),
            pub_key_matches(public, params),
            msg@.len() <= spec_max_msg_len(params.n as int, params.db as int),
            n == params.n,
            mask == params.q - 1,
            db_bytes == params.db as int / 8,
            max_len == spec_max_msg_len(params.n as int, params.db as int),
        decreases 100 - attempts,
    {
        attempts += 1;
        let b = match generate(db_bytes as u16, rand_ctx) {
            Ok(v) => v,
            Err(_) => {
                return Err(Error::Prng);
            },
        };
        // M = b | len | msg | zero padding
        let mut m_buf: Vec<u8> = Vec::new();
        crate::codec::append_vec(&mut m_buf, &b);
        m_buf.push(msg.len() as u8);
        let mut i: usize = 0;
        while i < msg.len()
            invariant
                i <= msg@.len(),
                m_buf@.len() == db_bytes + 1 + i,
                db_bytes <= 32,
                msg@.len() <= 255,
            decreases msg@.len() - i,
        {
            m_buf.push(msg[i]);
            i += 1;
        }
        let mut i: usize = msg.len();
        while i < max_len
            invariant
                msg@.len() <= i <= max_len,
                max_len <= 255,
                db_bytes <= 32,
                m_buf@.len() == db_bytes + 1 + i,
            decreases max_len - i,
        {
            m_buf.push(0);
            i += 1;
        }
        let mtrin = match bytes_to_trits(&m_buf, n) {
            Some(x) => x,
            None => {
                return Err(Error::Prng);
            },
        };
        let sdata = make_sdata(params, msg, &b, &htrunc);
        let r_poly = match gen_blind_poly(&sdata, params) {
            Some(x) => x,
            None => {
                return Err(Error::Prng);
            },
        };
        let (big_r, ok) = public.h.mult_priv(&r_poly, mask);
        assert(ok);
        let r4 = pack_mod4(&big_r);
        let mask_poly = match mgf(&r4, params) {
            Some(x) => x,
            None => {
                return Err(Error::Prng);
            },
        };
        // m' = (mtrin + mask) mod 3, with 2 mapped to -1
        let mp = combine_mask(&mtrin, &mask_poly);
        proof {
            assert(forall|k: int| 0 <= k < mp@.len() ==> -1 <= #[trigger] mp@[k] <= 1);
        }
        let c_one = count_sym(&mp, 1);
        let c_zero = count_sym(&mp, 0);
        let c_neg = count_sym(&mp, -1);
        if c_one < params.dm0 as usize || c_zero < params.dm0 as usize || c_neg < params.dm0
            as usize {
            continue ;
        }
        // e = R + m' mod q
        let mut e = big_r;
        proof {
            assert forall|k: int| 0 <= k < e@.len() implies -0x8000 <= #[trigger] (e@[k]
                + mp@[k]) <= 0x7FFF by {
                assert(-1 <= mp@[k] <= 1);
            }
        }
        e.add(&mp);
        let ghost pre = e@;
        e.mod_mask(mask);
        proof {
            assert forall|k: int| 0 <= k < e@.len() implies 0 <= #[trigger] e@[k]
                < params.q by {
                vstd::arithmetic::div_mod::lemma_mod_bound(pre[k], params.q as int);
                assert(e@[k] == pre[k] % (mask as int + 1));
            }
        }
        let out = e.to_arr(params);
        return Ok(out);
    }
    Err(Error::Prng)
}

/// The decoded ciphertext polynomial: each coefficient read from its packed
/// bits.
pub open spec fn decoded_poly(enc: Seq<u8>, params: &EncParams) -> Seq<int> {
    let lb = crate::encparams::spec_log2(params.q as int);
    Seq::new(params.n as nat, |i: int| crate::bitpack::val_of_bits(enc, i * lb, lb as nat))
}

/// The candidate message polynomial decryption recovers before any check:
/// `center(3*(e*t mod q) + e mod q) mod 3`, with the residue 2 written as
/// -1 — a function of the ciphertext and the key alone.
pub open spec fn decrypt_candidate(enc: Seq<u8>, t: &PrivPoly, params: &EncParams) -> Seq<int> {
    let q = params.q as int;
    let e = decoded_poly(enc, params);
    let a = Seq::new(
        params.n as nat,
        |k: int|
            match t {
                PrivPoly::Ternary(tp) => crate::types::tern_conv_at(
                    e,
                    tp.ones@,
                    tp.neg_ones@,
                    k,
                ) % q,
                PrivPoly::Product(pp) => crate::types::prod_conv_at(e, pp, q, k),
            },
    );
    Seq::new(
        params.n as nat,
        |k: int|
            {
                let c = (3 * a[k] + e[k]) % q;
                let centered = if c > q / 2 {
                    c - q
                } else {
                    c
                };
                let m3 = centered % 3;
                if m3 == 2 {
                    -1int
                } else {
                    m3
                }
            },
    )
}

/// The minimum-symbol-count policy on the candidate polynomial.
pub open spec fn dm0_ok(cand: Seq<int>, params: &EncParams) -> bool {
    &&& count_eq(cand, 1, cand.len()) >= params.dm0 as int
    &&& count_eq(cand, 0, cand.len()) >= params.dm0 as int
    &&& count_eq(cand, -1, cand.len()) >= params.dm0 as int
}

/// Core decryption: recover the candidate message polynomial, validate the
/// minimum-weight policy, strip and check the padding, and re-derive the
/// blinding polynomial for comparison.  The caller has already validated
/// the parameters, the key pair and the ciphertext length.
pub(crate) fn decrypt_impl(enc: &[u8], kp: &crate::types::KeyPair, params: &EncParams) -> (r:
    Result<Vec<u8>, Error>)
    requires
        params.wf(),
        priv_key_matches(&kp.private, params),
        pub_key_matches(&kp.public, params),
        enc@.len() == spec_enc_len(params.n as int, params.q as int),
    ensures
        r is Ok ==> r->Ok_0@.len() <= spec_max_msg_len(params.n as int, params.db as int),
        r is Err ==> (r->Err_0 == Error::Md0Violation || r->Err_0 == Error::NoZeroPad
            || r->Err_0 == Error::InvalidEncoding || r->Err_0 == Error::InvalidMaxLength
            || r->Err_0 == Error::Prng),
        !dm0_ok(decrypt_candidate(enc@, &kp.private.t, params), params) ==> r == Result::<
            Vec<u8>,
            Error,
        >::Err(Error::Md0Violation),
{
    let n = params.n;
    let q = params.q;
    let mask: u16 = q - 1;
    let db_bytes: usize = (params.db / 8) as usize;
    let max_len: usize = params.max_msg_len() as usize;
    let e = IntPoly::from_arr(enc, n, q);
    // a = e*t, then m' = center(3a + e mod q) mod 3 with 2 mapped to -1
    let (mut d, ok) = e.mult_priv(&kp.private.t, mask);
    assert(ok);
    proof {
        assert forall|k: int| 0 <= k < d@.len() implies 0 <= #[trigger] d@[k] < q by {
            if kp.private.t.is_product() {
                let pp = kp.private.t.get_prod_spec();
                let u1 = Seq::new(
                    e@.len(),
                    |j: int|
                        crate::types::tern_conv_at(e@, pp.f1.ones@, pp.f1.neg_ones@, j) % (
                        q as int),
                );
                let u2 = crate::types::tern_conv_at(u1, pp.f2.ones@, pp.f2.neg_ones@, k) % (
                q as int);
                let u3 = crate::types::tern_conv_at(e@, pp.f3.ones@, pp.f3.neg_ones@, k) % (
                q as int);
                vstd::arithmetic::div_mod::lemma_mod_bound(u2 + u3, q as int);
            } else {
                let tp = kp.private.t.get_tern_spec();
                vstd::arithmetic::div_mod::lemma_mod_bound(
                    crate::types::tern_conv_at(e@, tp.ones@, tp.neg_ones@, k),
                    q as int,
                );
            }
        }
        assert forall|k: int| 0 <= k < d@.len() implies -0x8000 <= #[trigger] (d@[k] * 3)
            <= 0x7FFF by {
            assert(0 <= d@[k] < q);
        }
    }
    let ghost d0 = d@;
    d.mult_fac(3);
    let ghost d1v = d@;
    d.add(&e);
    let ghost d2v = d@;
    d.mod_center(q);
    let ghost d4v = d@;
    d.mod3();
    let ghost d5v = d@;
    let m = d.coeffs.len();
    let mut mp_coeffs: Vec<i16> = Vec::new();
    let mut i: usize = 0;
    while i < m
        invariant
            m == d@.len(),
            d@ == d5v,
            forall|k: int| 0 <= k < m ==> 0 <= #[trigger] d@[k] <= 2,
            i <= m,
            mp_coeffs@.len() == i,
            forall|k: int| 0 <= k < i ==> -1 <= #[trigger] mp_coeffs@[k] <= 1,
            forall|k: int| #![trigger mp_coeffs@[k]]
                0 <= k < i ==> mp_coeffs@[k] as int == (if d5v[k] == 2 {
                    -1int
                } else {
                    d5v[k]
                }),
        decreases m - i,
    {
        proof {
            assert(0 <= d@[i as int] <= 2);
        }
        let c = d.coeffs[i];
        let c2: i16 = if c == 2 {
            -1
        } else {
            c
        };
        mp_coeffs.push(c2);
        i += 1;
    }
    let mp = IntPoly { coeffs: mp_coeffs };
    proof {
        let cand = decrypt_candidate(enc@, &kp.private.t, params);
        let espec = decoded_poly(enc@, params);
        assert(espec =~= e@);
        assert forall|k: int| 0 <= k < params.n as int implies mp@[k] == cand[k] by {
            let qi = params.q as int;
            let a = Seq::new(
                params.n as nat,
                |k2: int|
                    match &kp.private.t {
                        PrivPoly::Ternary(tp) => crate::types::tern_conv_at(
                            espec,
                            tp.ones@,
                            tp.neg_ones@,
                            k2,
                        ) % qi,
                        PrivPoly::Product(pp) => crate::types::prod_conv_at(espec, pp, qi, k2),
                    },
            );
            assert(d0[k] == a[k]);
            assert(d1v[k] == d0[k] * 3);
            assert(d2v[k] == d1v[k] + e@[k]);
            assert(3 * a[k] + espec[k] == d2v[k]);
            let c = (3 * a[k] + espec[k]) % qi;
            assert(d4v[k] == (if c > qi / 2 {
                c - qi
            } else {
                c
            }));
            assert(d5v[k] == d4v[k] % 3);
            assert(mp@[k] == (if d5v[k] == 2 {
                -1int
            } else {
                d5v[k]
            }));
        }
        assert(mp@ =~= cand);
    }
    let c_one = count_sym(&mp, 1);
    let c_zero = count_sym(&mp, 0);
    let c_neg = count_sym(&mp, -1);
    if c_one < params.dm0 as usize || c_zero < params.dm0 as usize || c_neg < params.dm0
        as usize {
        return Err(Error::Md0Violation);
    }
    proof {
        assert(dm0_ok(decrypt_candidate(enc@, &kp.private.t, params), params)) by {
            let cand = decrypt_candidate(enc@, &kp.private.t, params);
            assert(cand == mp@);
            assert(count_eq(cand, 1, cand.len()) == c_one as int);
            assert(count_eq(cand, 0, cand.len()) == c_zero as int);
            assert(count_eq(cand, -1, cand.len()) == c_neg as int);
        }
    }
    // cR = e - m' mod q
    let mut c_r = e.clone();
    proof {
        assert forall|k: int| 0 <= k < c_r@.len() implies -0x8000 <= #[trigger] (c_r@[k]
            - mp@[k]) <= 0x7FFF by {
            assert(0 <= e@[k] < q);
            assert(-1 <= mp@[k] <= 1);
        }
    }
    c_r.sub(&mp);
    let ghost pre = c_r@;
    c_r.mod_mask(mask);
    proof {
        assert forall|k: int| 0 <= k < c_r@.len() implies 0 <= #[trigger] c_r@[k] < q by {
            vstd::arithmetic::div_mod::lemma_mod_bound(pre[k], q as int);
            assert(c_r@[k] == pre[k] % (mask as int + 1));
        }
    }
    let r4 = pack_mod4(&c_r);
    let cmask = match mgf(&r4, params) {
        Some(x) => x,
        None => {
            return Err(Error::Prng);
        },
    };
    // mtrin = (m' - mask) mod 3
    let mtrin = unmask_trits(&mp, &cmask);
    proof {
        assert(forall|k: int| 0 <= k < mtrin@.len() ==> 0 <= #[trigger] mtrin@[k] <= 2);
    }
    let m_len: usize = db_bytes + 1 + max_len;
    let m_buf = match trits_to_bytes(&mtrin, m_len) {
        Some(x) => x,
        None => {
            return Err(Error::InvalidEncoding);
        },
    };
    let b = copy_range(m_buf.as_slice(), 0, db_bytes);
    let l: usize = m_buf[db_bytes] as usize;
    if l > max_len {
        return Err(Error::InvalidMaxLength);
    }
    let msg = copy_range(m_buf.as_slice(), db_bytes + 1, db_bytes + 1 + l);
    let mut i: usize = db_bytes + 1 + l;
    while i < m_len
        invariant
            m_len == m_buf@.len(),
            i <= m_len,
            dm0_ok(decrypt_candidate(enc@, &kp.private.t, params), params),
        decreases m_len - i,
    {
        if m_buf[i] != 0 {
            return Err(Error::NoZeroPad);
        }
        i += 1;
    }
    // Re-derive the blinding polynomial and verify h*r.
    let htrunc = h_trunc(&kp.public, params);
    let sdata = make_sdata(params, msg.as_slice(), &b, &htrunc);
    let cr = match gen_blind_poly(&sdata, params) {
        Some(x) => x,
        None => {
            return Err(Error::Prng);
        },
    };
    let (cr2, ok2) = kp.public.h.mult_priv(&cr, mask);
    assert(ok2);
    if !cr2.equals_mod(&c_r, q) {
        return Err(Error::Md0Violation);
    }
    Ok(msg)
}

} // verus!
