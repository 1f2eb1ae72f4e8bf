//! Tight bit packing: `count` values of `bits` bits each laid into bytes,
//! least-significant bit first, and the exact inverse.
//!
//! The wire format of keys and ciphertexts is built from this packing, so
//! its contracts pin every bit: bit `j` of the byte stream is bit `j % bits`
//! of value `j / bits`, and unpacking recovers every value exactly.

use vstd::prelude::*;
use vstd::arithmetic::power2::{lemma2_to64, lemma_pow2_adds, lemma_pow2_pos, lemma_pow2_unfold, pow2};
use vstd::arithmetic::div_mod::{
    lemma_basic_div, lemma_div_denominator, lemma_fundamental_div_mod,
    lemma_fundamental_div_mod_converse, lemma_hoist_over_denominator, lemma_mod_multiples_vanish,
};

verus! {

/// Bit `t` of the value `v`.
pub open spec fn spec_bit(v: int, t: nat) -> bool {
    v / pow2(t) as int % 2 == 1
}

/// Bit `j` of a byte stream, least-significant bit of each byte first.
pub open spec fn byte_bit(bytes: Seq<u8>, j: int) -> bool {
    spec_bit(bytes[j / 8] as int, (j % 8) as nat)
}

/// Bit `j` of the packed stream of `bits`-bit values.
pub open spec fn stream_bit(vals: Seq<u16>, bits: int, j: int) -> bool {
    spec_bit(vals[j / bits] as int, (j % bits) as nat)
}

/// Adding `pow2(off)` to a value whose bits at `off` and above are zero sets
/// exactly bit `off`.
pub(crate) proof fn lemma_add_bit(b: int, off: nat, t: nat)
    requires
        0 <= b < pow2(off),
    ensures
        t < off ==> (b + pow2(off)) / pow2(t) as int % 2 == b / pow2(t) as int % 2,
        t == off ==> (b + pow2(off)) / pow2(t) as int % 2 == 1,
        t >= off ==> b / pow2(t) as int == 0,
        b + pow2(off) < pow2(off + 1),
{
    lemma_pow2_pos(off);
    lemma_pow2_pos(t);
    lemma_pow2_unfold(off + 1);
    if t < off {
        // pow2(off) == pow2(t) * pow2(off - t), and pow2(off - t) is even.
        lemma_pow2_adds(t, (off - t) as nat);
        lemma_pow2_pos((off - t) as nat);
        lemma_pow2_unfold((off - t) as nat);
        let m = pow2((off - t) as nat) as int;
        assert(pow2(off) == pow2(t) * pow2((off - t) as nat));
        lemma_hoist_over_denominator(b, m, pow2(t));
        assert(b / pow2(t) as int + m == (b + m * pow2(t)) / pow2(t) as int);
        assert(m * pow2(t) == pow2(off)) by (nonlinear_arith)
            requires
                pow2(off) == pow2(t) * pow2((off - t) as nat),
                m == pow2((off - t) as nat),
        ;
        // m is even, so adding it keeps parity.
        let h = pow2((off - t - 1) as nat) as int;
        assert(m == 2 * h);
        lemma_mod_multiples_vanish(h, b / pow2(t) as int, 2);
    }
    if t >= off {
        lemma_pow2_pos(t);
        let p = crate::encparams::spec_pow2(0);
        assert(pow2(off) <= pow2(t)) by {
            vstd::arithmetic::power2::lemma_pow2_strictly_increases(off, t + 1);
            if off < t {
                vstd::arithmetic::power2::lemma_pow2_strictly_increases(off, t);
            }
        }
        lemma_basic_div(b, pow2(t) as int);
    }
    if t == off {
        lemma_hoist_over_denominator(b, 1, pow2(off));
        assert((b + pow2(off)) / pow2(off) as int == b / pow2(off) as int + 1);
        lemma_basic_div(b, pow2(off) as int);
    }
}

/// A value below `pow2(w)` is determined by its bits below `w`.
proof fn lemma_bits_unique(a: int, b: int, w: nat)
    requires
        0 <= a < pow2(w),
        0 <= b < pow2(w),
        forall|t: nat| t < w ==> spec_bit(a, t) == spec_bit(b, t),
    ensures
        a == b,
    decreases w,
{
    if w == 0 {
        assert(pow2(0) == 1) by {
            lemma2_to64();
        }
    } else {
        assert(spec_bit(a, 0) == spec_bit(b, 0));
        assert(pow2(0) == 1) by {
            lemma2_to64();
        }
        assert(a % 2 == b % 2) by {
            assert(a / 1 == a && b / 1 == b);
            assert(a % 2 == 1 <==> b % 2 == 1);
        }
        let a2 = a / 2;
        let b2 = b / 2;
        assert(pow2(w) == 2 * pow2((w - 1) as nat)) by {
            lemma_pow2_unfold(w);
        }
        assert(a2 < pow2((w - 1) as nat) && b2 < pow2((w - 1) as nat));
        assert forall|t: nat| t < (w - 1) as nat implies spec_bit(a2, t) == spec_bit(b2, t) by {
            lemma_pow2_unfold(t + 1);
            lemma_pow2_pos(t);
            lemma_div_denominator(a, 2, pow2(t) as int);
            lemma_div_denominator(b, 2, pow2(t) as int);
            assert(a2 / pow2(t) as int == a / pow2(t + 1) as int);
            assert(b2 / pow2(t) as int == b / pow2(t + 1) as int);
            assert(spec_bit(a, t + 1) == spec_bit(b, t + 1));
        }
        lemma_bits_unique(a2, b2, (w - 1) as nat);
        lemma_fundamental_div_mod(a, 2);
        lemma_fundamental_div_mod(b, 2);
        assert(a == 2 * a2 + a % 2);
        assert(b == 2 * b2 + b % 2);
    }
}

/// The value the `w` bits starting at bit `j0` of a byte stream hold, least
/// significant bit first.
pub open spec fn val_of_bits(bytes: Seq<u8>, j0: int, w: nat) -> int
    decreases w,
{
    if w == 0 {
        0
    } else {
        (if byte_bit(bytes, j0) {
            1int
        } else {
            0int
        }) + 2 * val_of_bits(bytes, j0 + 1, (w - 1) as nat)
    }
}

/// A value below `pow2(w)` whose bits match a bit range of a byte stream is
/// the value of that range.
pub proof fn lemma_val_of_bits(v: int, bytes: Seq<u8>, j0: int, w: nat)
    requires
        0 <= v < pow2(w),
        forall|t: int| #![trigger spec_bit(v, t as nat)]
            0 <= t < w ==> spec_bit(v, t as nat) == byte_bit(bytes, j0 + t),
    ensures
        v == val_of_bits(bytes, j0, w),
    decreases w,
{
    if w == 0 {
        assert(pow2(0) == 1) by {
            lemma2_to64();
        }
    } else {
        assert(pow2(0) == 1) by {
            lemma2_to64();
        }
        let t0: int = 0;
        assert(spec_bit(v, t0 as nat) == byte_bit(bytes, j0 + t0));
        assert(spec_bit(v, 0) == byte_bit(bytes, j0));
        assert(v / 1 == v);
        let v2 = v / 2;
        assert(v2 < pow2((w - 1) as nat)) by {
            lemma_pow2_unfold(w);
        }
        assert forall|t: int| #![trigger spec_bit(v2, t as nat)]
            0 <= t < (w - 1) as nat implies spec_bit(v2, t as nat)
            == byte_bit(bytes, j0 + 1 + t) by {
            lemma_pow2_unfold(t as nat + 1);
            lemma_pow2_pos(t as nat);
            lemma_div_denominator(v, 2, pow2(t as nat) as int);
            assert(v2 / pow2(t as nat) as int == v / pow2(t as nat + 1) as int);
            let t1: int = t + 1;
            assert(spec_bit(v, t1 as nat) == byte_bit(bytes, j0 + t1));
        }
        lemma_val_of_bits(v2, bytes, j0 + 1, (w - 1) as nat);
        lemma_fundamental_div_mod(v, 2);
        assert(v % 2 == (if byte_bit(bytes, j0) {
            1int
        } else {
            0int
        })) by {
            assert(spec_bit(v, 0) == (v % 2 == 1));
        }
    }
}

/// A bit index inside a byte stream addresses a byte inside the stream.
pub(crate) proof fn lemma_div8_bound_pub(j: int, len: int)
    requires
        0 <= j < len * 8,
    ensures
        0 <= j / 8 < len,
        0 <= j % 8 < 8,
        j == 8 * (j / 8) + j % 8,
{
    lemma_div8_bound(j, len);
}

/// A bit index inside a byte stream addresses a byte inside the stream.
proof fn lemma_div8_bound(j: int, len: int)
    requires
        0 <= j < len * 8,
    ensures
        0 <= j / 8 < len,
        0 <= j % 8 < 8,
        j == 8 * (j / 8) + j % 8,
{
    lemma_fundamental_div_mod_converse(len * 8 - 1, 8, len - 1, 7);
    vstd::arithmetic::div_mod::lemma_div_is_ordered(0, j, 8);
    vstd::arithmetic::div_mod::lemma_div_is_ordered(j, len * 8 - 1, 8);
    lemma_basic_div(0, 8);
    lemma_fundamental_div_mod(j, 8);
    vstd::arithmetic::div_mod::lemma_mod_bound(j, 8);
}

/// Two to the power `e`, executable, for exponents up to 16.
fn pow2w(e: u16) -> (r: u32)
    requires
        e <= 16,
    ensures
        r == pow2(e as nat),
        1 <= r <= 0x10000,
{
    proof {
        lemma2_to64();
    }
    let mut r: u32 = 1;
    let mut i: u16 = 0;
    while i < e
        invariant
            i <= e,
            e <= 16,
            r == pow2(i as nat),
            pow2(16) == 0x10000,
        decreases e - i,
    {
        proof {
            lemma_pow2_unfold(i as nat + 1);
            vstd::arithmetic::power2::lemma_pow2_strictly_increases(i as nat, 16);
        }
        r = r * 2;
        i = i + 1;
    }
    proof {
        lemma_pow2_pos(e as nat);
        if (e as nat) < 16 {
            vstd::arithmetic::power2::lemma_pow2_strictly_increases(e as nat, 16);
        }
    }
    r
}

/// Pack the low `bits` bits of each value tightly into bytes, least
/// significant bit first; the trailing bits of the last byte are zero.
pub fn pack_bits(vals: &Vec<u16>, bits: u16) -> (r: Vec<u8>)
    requires
        1 <= bits <= 16,
        vals@.len() * bits as int <= 60000,
    ensures
        r@.len() == (vals@.len() * bits as int + 7) / 8,
        forall|j: int|
            0 <= j < vals@.len() * bits as int ==> byte_bit(r@, j) == stream_bit(
                vals@,
                bits as int,
                j,
            ),
        forall|j: int|
            vals@.len() * bits as int <= j < r@.len() * 8 ==> byte_bit(r@, j) == false,
{
    let count = vals.len();
    let total: usize = count * bits as usize;
    let out_len: usize = (total + 7) / 8;
    let mut out: Vec<u8> = Vec::new();
    let mut z: usize = 0;
    while z < out_len
        invariant
            z <= out_len,
            out@.len() == z,
            forall|k: int| 0 <= k < z ==> out@[k] == 0,
        decreases out_len - z,
    {
        out.push(0);
        z += 1;
    }
    proof {
        lemma2_to64();
    }
    let mut i: usize = 0;
    let mut j: usize = 0;
    while i < count
        invariant
            1 <= bits <= 16,
            count == vals@.len(),
            total == count * bits as int,
            total <= 60000,
            out_len == (total + 7) / 8,
            out@.len() == out_len,
            i <= count,
            j == i * bits as int,
            total <= out_len * 8,
            forall|j2: int| 0 <= j2 < j ==> byte_bit(out@, j2) == stream_bit(vals@, bits as int, j2),
            forall|j2: int| j <= j2 < out_len * 8 ==> byte_bit(out@, j2) == false,
            j % 8 != 0 ==> out@[j as int / 8] < pow2((j % 8) as nat),
            j % 8 == 0 ==> (j / 8 < out_len ==> out@[j as int / 8] == 0),
            forall|k: int| j / 8 < k < out_len ==> out@[k] == 0,
        decreases count - i,
    {
        proof {
            lemma2_to64();
            assert((i + 1) * bits as int == i * bits as int + bits as int) by (nonlinear_arith);
            assert((i + 1) * bits as int <= count * bits as int) by (nonlinear_arith)
                requires
                    i < count,
                    bits >= 1,
            ;
        }
        let v: u32 = vals[i] as u32;
        let mut t: u16 = 0;
        let mut pwt: u32 = 1;
        while t < bits
            invariant
                1 <= bits <= 16,
                count == vals@.len(),
                total == count * bits as int,
                total <= 60000,
                out_len == (total + 7) / 8,
                out@.len() == out_len,
                i < count,
                v == vals@[i as int],
                t <= bits,
                t < bits ==> pwt == pow2(t as nat),
                1 <= pwt <= 0x10000,
                pow2(16) == 0x10000,
                pow2(0) == 1,
                j == i * bits as int + t,
                (i + 1) * bits as int == i * bits as int + bits as int,
                (i + 1) * bits as int <= total,
                total <= out_len * 8,
                forall|j2: int|
                    0 <= j2 < j ==> byte_bit(out@, j2) == stream_bit(vals@, bits as int, j2),
                forall|j2: int| j <= j2 < out_len * 8 ==> byte_bit(out@, j2) == false,
                j % 8 != 0 ==> out@[j as int / 8] < pow2((j % 8) as nat),
                j % 8 == 0 ==> (j / 8 < out_len ==> out@[j as int / 8] == 0),
                forall|k: int| j / 8 < k < out_len ==> out@[k] == 0,
            decreases bits - t,
        {
            let jb: usize = j / 8;
            let off: u16 = (j % 8) as u16;
            proof {
                assert(j < total) by {
                    assert(j < (i + 1) * bits as int);
                }
                assert(j / 8 < out_len) by {
                    assert(j <= total - 1);
                    assert(j / 8 <= (total - 1) / 8) by {
                        vstd::arithmetic::div_mod::lemma_div_is_ordered(
                            j as int,
                            total - 1,
                            8,
                        );
                    }
                    assert((total - 1) / 8 < out_len);
                }
            }
            let pwoff: u32 = pow2w(off);
            let bit: u32 = (v / pwt) % 2;
            let ghost out0 = out@;
            let ghost bj = out@[jb as int] as int;
            proof {
                lemma2_to64();
                lemma_fundamental_div_mod_converse(j as int, 8, jb as int, off as int);
                lemma_fundamental_div_mod_converse(j as int, bits as int, i as int, t as int);
                if off == 0 {
                    assert(bj == 0);
                }
                assert(bj < pow2(off as nat));
            }
            if bit == 1 {
                let nb32: u32 = out[jb] as u32 + pwoff;
                proof {
                    lemma_add_bit(bj, off as nat, 0);
                    assert(pow2(off as nat + 1) <= pow2(8)) by {
                        if off as nat + 1 < 8 {
                            vstd::arithmetic::power2::lemma_pow2_strictly_increases(
                                off as nat + 1,
                                8,
                            );
                        }
                    }
                    assert(nb32 < 0x100);
                }
                out.set(jb, nb32 as u8);
            }
            proof {
                lemma2_to64();
                let newb = out@[jb as int] as int;
                assert(out@.len() == out0.len());
                assert(forall|k: int|
                    0 <= k < out0.len() && k != jb as int ==> out@[k] == out0[k]);
                if bit == 1 {
                    assert(newb == bj + pow2(off as nat));
                } else {
                    assert(newb == bj);
                }
                lemma_add_bit(bj, off as nat, off as nat);
                assert(spec_bit(v as int, t as nat) == (bit == 1)) by {
                    assert(v as int / pwt as int % 2 == bit);
                }
                assert(byte_bit(out@, j as int) == (bit == 1));
                assert(stream_bit(vals@, bits as int, j as int) == (bit == 1));
                assert forall|j2: int| 0 <= j2 < j + 1 implies byte_bit(out@, j2) == stream_bit(
                    vals@,
                    bits as int,
                    j2,
                ) by {
                    if j2 < j {
                        lemma_div8_bound(j2, out_len as int);
                        let jb2 = j2 / 8;
                        let off2 = (j2 % 8) as nat;
                        assert(byte_bit(out0, j2) == stream_bit(vals@, bits as int, j2));
                        if jb2 == jb as int {
                            assert(off2 < off as nat);
                            if bit == 1 {
                                lemma_add_bit(bj, off as nat, off2);
                                assert(spec_bit(newb, off2) == spec_bit(bj, off2));
                            }
                            assert(byte_bit(out@, j2) == byte_bit(out0, j2));
                        } else {
                            assert(out@[jb2] == out0[jb2]);
                            assert(byte_bit(out@, j2) == byte_bit(out0, j2));
                        }
                    }
                }
                assert forall|j2: int| j + 1 <= j2 < out_len * 8 implies byte_bit(out@, j2)
                    == false by {
                    lemma_div8_bound(j2, out_len as int);
                    let jb2 = j2 / 8;
                    let off2 = (j2 % 8) as nat;
                    assert(byte_bit(out0, j2) == false);
                    if jb2 == jb as int {
                        assert(off2 > off as nat);
                        if bit == 1 {
                            lemma_add_bit(bj, off as nat, off2);
                            assert(newb < pow2(off as nat + 1));
                            assert(pow2(off as nat + 1) <= pow2(off2)) by {
                                if off as nat + 1 < off2 {
                                    vstd::arithmetic::power2::lemma_pow2_strictly_increases(
                                        off as nat + 1,
                                        off2,
                                    );
                                }
                            }
                            lemma_basic_div(newb, pow2(off2) as int);
                            assert(byte_bit(out@, j2) == false);
                        } else {
                            assert(byte_bit(out@, j2) == byte_bit(out0, j2));
                        }
                    } else {
                        assert(out@[jb2] == out0[jb2]);
                        assert(byte_bit(out@, j2) == byte_bit(out0, j2));
                    }
                }
                let jn = j + 1;
                if jn % 8 != 0 {
                    lemma_fundamental_div_mod_converse(jn, 8, jb as int, off as int + 1);
                    assert(jn / 8 == jb as int && jn % 8 == off as int + 1);
                    if bit == 1 {
                        assert(newb < pow2(off as nat + 1));
                    } else {
                        assert(newb < pow2(off as nat));
                        vstd::arithmetic::power2::lemma_pow2_strictly_increases(
                            off as nat,
                            off as nat + 1,
                        );
                    }
                    assert(out@[jn / 8] < pow2((jn % 8) as nat));
                } else {
                    lemma_fundamental_div_mod_converse(jn, 8, jb as int + 1, 0);
                    assert(jn / 8 == jb as int + 1);
                }
                assert forall|k: int| jn / 8 < k < out_len implies out@[k] == 0 by {
                    assert((jb as int) < k);
                    assert(out@[k] == out0[k]);
                }
            }
            j += 1;
            t += 1;
            proof {
                lemma_pow2_unfold(t as nat);
                assert(pow2(t as nat) <= pow2(16)) by {
                    if (t as nat) < 16 {
                        vstd::arithmetic::power2::lemma_pow2_strictly_increases(t as nat, 16);
                    }
                }
            }
            if t < bits {
                pwt = pwt * 2;
            } else {
                pwt = 1;
                proof {
                    lemma2_to64();
                }
            }
        }
        i += 1;
    }
    out
}

/// Unpack `count` values of `bits` bits each from a byte stream.
pub fn unpack_bits(bytes: &[u8], count: usize, bits: u16) -> (r: Vec<u16>)
    requires
        1 <= bits <= 16,
        count * bits as int <= 60000,
        count * bits as int <= bytes@.len() * 8,
    ensures
        r@.len() == count,
        forall|i: int| 0 <= i < count ==> 0 <= #[trigger] r@[i] < pow2(bits as nat),
        forall|i: int, t: int| #![trigger spec_bit(r@[i] as int, t as nat)]
            0 <= i < count && 0 <= t < bits as int ==> spec_bit(r@[i] as int, t as nat) == byte_bit(
                bytes@,
                i * bits as int + t,
            ),
        forall|i: int|
            0 <= i < count ==> #[trigger] r@[i] as int == val_of_bits(
                bytes@,
                i * bits as int,
                bits as nat,
            ),
{
    proof {
        lemma2_to64();
    }
    let mut out: Vec<u16> = Vec::new();
    let mut i: usize = 0;
    while i < count
        invariant
            1 <= bits <= 16,
            count * bits as int <= 60000,
            count * bits as int <= bytes@.len() * 8,
            i <= count,
            out@.len() == i,
            pow2(16) == 0x10000,
            forall|i2: int| 0 <= i2 < i ==> 0 <= #[trigger] out@[i2] < pow2(bits as nat),
            forall|i2: int, t: int| #![trigger spec_bit(out@[i2] as int, t as nat)]
                0 <= i2 < i && 0 <= t < bits as int ==> spec_bit(out@[i2] as int, t as nat)
                    == byte_bit(bytes@, i2 * bits as int + t),
        decreases count - i,
    {
        let mut acc: u32 = 0;
        let mut t: u16 = 0;
        let mut pwt: u32 = 1;
        proof {
            lemma2_to64();
            assert((i + 1) * bits as int == i * bits as int + bits as int) by (nonlinear_arith);
            assert((i + 1) * bits as int <= count * bits as int) by (nonlinear_arith)
                requires
                    i < count,
                    bits >= 1,
            ;
            assert(i * bits as int >= 0) by (nonlinear_arith)
                requires
                    i >= 0,
                    bits >= 1,
            ;
        }
        while t < bits
            invariant
                1 <= bits <= 16,
                count * bits as int <= 60000,
                count * bits as int <= bytes@.len() * 8,
                i < count,
                (i + 1) * bits as int <= count * bits as int,
                (i + 1) * bits as int == i * bits as int + bits as int,
                i * bits as int >= 0,
                t <= bits,
                t < bits ==> pwt == pow2(t as nat),
                acc < pow2(t as nat),
                pow2(16) == 0x10000,
                pow2(0) == 1,
                forall|t2: int| #![trigger spec_bit(acc as int, t2 as nat)]
                    0 <= t2 < t as int ==> spec_bit(acc as int, t2 as nat) == byte_bit(
                        bytes@,
                        i * bits as int + t2,
                    ),
            decreases bits - t,
        {
            proof {
                assert(i * bits as int + t < count * bits as int) by {
                    assert(i * bits as int + t < (i + 1) * bits as int);
                }
            }
            let j: usize = i * bits as usize + t as usize;
            proof {
                assert(j < bytes@.len() * 8);
                assert(j / 8 < bytes@.len()) by {
                    vstd::arithmetic::div_mod::lemma_div_is_ordered(
                        j as int,
                        bytes@.len() * 8 - 1,
                        8,
                    );
                    assert((bytes@.len() * 8 - 1) / 8 < bytes@.len());
                }
            }
            let jb: usize = j / 8;
            let off: u16 = (j % 8) as u16;
            let pwoff: u32 = pow2w(off);
            let bit: u32 = (bytes[jb] as u32 / pwoff) % 2;
            let ghost acc0 = acc as int;
            if bit == 1 {
                proof {
                    assert(pwt < 0x10000) by {
                        if (t as nat) < 16 {
                            vstd::arithmetic::power2::lemma_pow2_strictly_increases(
                                t as nat,
                                16,
                            );
                        }
                    }
                    assert(acc < 0x10000) by {
                        if (t as nat) < 16 {
                            vstd::arithmetic::power2::lemma_pow2_strictly_increases(
                                t as nat,
                                16,
                            );
                        }
                    }
                }
                acc = acc + pwt;
            }
            proof {
                lemma2_to64();
                lemma_add_bit(acc0, t as nat, t as nat);
                assert(byte_bit(bytes@, j as int) == (bit == 1)) by {
                    assert(bytes@[jb as int] as int / pwoff as int % 2 == bit);
                }
                assert(i * bits as int + t == j);
                assert forall|t2: int| #![trigger spec_bit(acc as int, t2 as nat)]
                    0 <= t2 < t as int + 1 implies spec_bit(
                    acc as int,
                    t2 as nat,
                ) == byte_bit(bytes@, i * bits as int + t2) by {
                    if t2 == t as int {
                        if bit == 1 {
                            assert(acc as int == acc0 + pow2(t as nat));
                            assert(spec_bit(acc as int, t as nat));
                        } else {
                            assert(acc as int == acc0);
                            assert(acc as int / pow2(t as nat) as int == 0);
                        }
                    } else {
                        assert(spec_bit(acc0, t2 as nat) == byte_bit(
                            bytes@,
                            i * bits as int + t2,
                        ));
                        if bit == 1 {
                            lemma_add_bit(acc0, t as nat, t2 as nat);
                            assert(spec_bit(acc as int, t2 as nat) == spec_bit(acc0, t2 as nat));
                        }
                    }
                }
                assert(acc < pow2(t as nat + 1)) by {
                    if bit != 1 {
                        vstd::arithmetic::power2::lemma_pow2_strictly_increases(
                            t as nat,
                            t as nat + 1,
                        );
                    }
                }
                lemma_pow2_unfold(t as nat + 1);
                assert(pow2(t as nat + 1) <= 0x10000) by {
                    if (t as nat + 1) < 16 {
                        vstd::arithmetic::power2::lemma_pow2_strictly_increases(
                            t as nat + 1,
                            16,
                        );
                    }
                }
            }
            t += 1;
            if t < bits {
                pwt = pwt * 2;
            } else {
                pwt = 1;
            }
        }
        proof {
            assert(acc < pow2(bits as nat));
            assert(pow2(bits as nat) <= 0x10000) by {
                if (bits as nat) < 16 {
                    vstd::arithmetic::power2::lemma_pow2_strictly_increases(bits as nat, 16);
                }
            }
        }
        out.push(acc as u16);
        i += 1;
    }
    proof {
        assert forall|i2: int| 0 <= i2 < count implies #[trigger] out@[i2] as int == val_of_bits(
            bytes@,
            i2 * bits as int,
            bits as nat,
        ) by {
            assert(forall|t: int| #![trigger spec_bit(out@[i2] as int, t as nat)]
                0 <= t < bits as int ==> spec_bit(out@[i2] as int, t as nat) == byte_bit(
                    bytes@,
                    i2 * bits as int + t,
                ));
            lemma_val_of_bits(out@[i2] as int, bytes@, i2 * bits as int, bits as nat);
        }
    }
    out
}

/// Codec round trip at the bit level: a value sequence, its packed bytes and
/// the unpacked values are related by the contracts of `pack_bits` and
/// `unpack_bits`; this law closes the loop: the unpacked values are the
/// original ones.
pub proof fn lemma_bitpack_roundtrip(vals: Seq<u16>, bytes: Seq<u8>, got: Seq<u16>, bits: int)
    requires
        1 <= bits <= 16,
        got.len() == vals.len(),
        forall|i: int| 0 <= i < vals.len() ==> vals[i] < pow2(bits as nat),
        forall|i: int| 0 <= i < got.len() ==> got[i] < pow2(bits as nat),
        forall|j: int|
            0 <= j < vals.len() * bits ==> byte_bit(bytes, j) == stream_bit(vals, bits, j),
        forall|i: int, t: int| #![trigger spec_bit(got[i] as int, t as nat)]
            0 <= i < got.len() && 0 <= t < bits ==> spec_bit(got[i] as int, t as nat) == byte_bit(
                bytes,
                i * bits + t,
            ),
    ensures
        got =~= vals,
{
    assert forall|i: int| 0 <= i < vals.len() implies got[i] == vals[i] by {
        assert forall|t: nat| t < bits as nat implies spec_bit(got[i] as int, t) == spec_bit(
            vals[i] as int,
            t,
        ) by {
            let j = i * bits + t;
            assert(0 <= j < vals.len() * bits) by (nonlinear_arith)
                requires
                    0 <= i < vals.len(),
                    0 <= t < bits,
                    j == i * bits + t,
            ;
            lemma_fundamental_div_mod_converse(j, bits, i, t as int);
            assert(byte_bit(bytes, j) == stream_bit(vals, bits, j));
            assert(stream_bit(vals, bits, j) == spec_bit(vals[i] as int, t));
            assert(spec_bit(got[i] as int, t) == byte_bit(bytes, i * bits + t));
        }
        lemma_bits_unique(got[i] as int, vals[i] as int, bits as nat);
    }
}

} // verus!
