//! The parameter catalog: immutable named parameter sets for NTRU
//! encryption, and the derived lengths (maximum message length, encoded key
//! and ciphertext lengths).

use vstd::prelude::*;
use crate::types::{MAX_DEGREE, MAX_ONES};

verus! {

/// Whether `x` is a power of two.
pub open spec fn spec_is_pow2(x: int) -> bool
    decreases x,
{
    if x <= 0 {
        false
    } else if x == 1 {
        true
    } else {
        x % 2 == 0 && spec_is_pow2(x / 2)
    }
}

/// The floor of the base-two logarithm.
pub open spec fn spec_log2(x: int) -> int
    decreases x,
{
    if x <= 1 {
        0
    } else {
        1 + spec_log2(x / 2)
    }
}

/// Two to the power `e`.
pub open spec fn spec_pow2(e: nat) -> int
    decreases e,
{
    if e == 0 {
        1
    } else {
        2 * spec_pow2((e - 1) as nat)
    }
}

/// Powers of two are positive.
pub proof fn lemma_pow2_pos(e: nat)
    ensures
        spec_pow2(e) >= 1,
    decreases e,
{
    if e > 0 {
        lemma_pow2_pos((e - 1) as nat);
    }
}

/// Powers of two are monotone in the exponent.
pub proof fn lemma_pow2_mono(a: nat, b: nat)
    requires
        a <= b,
    ensures
        spec_pow2(a) <= spec_pow2(b),
    decreases b,
{
    if a < b {
        lemma_pow2_mono(a, (b - 1) as nat);
        lemma_pow2_pos((b - 1) as nat);
    }
}

/// Powers of two turn sums of exponents into products.
pub proof fn lemma_pow2_add(a: nat, b: nat)
    ensures
        spec_pow2(a + b) == spec_pow2(a) * spec_pow2(b),
    decreases a,
{
    if a > 0 {
        lemma_pow2_add((a - 1) as nat, b);
        assert(spec_pow2((a - 1) as nat + b) == spec_pow2((a - 1) as nat) * spec_pow2(b));
        assert(2 * (spec_pow2((a - 1) as nat) * spec_pow2(b)) == (2 * spec_pow2((a - 1) as nat))
            * spec_pow2(b)) by (nonlinear_arith);
    }
}

/// `spec_pow2` agrees with the standard library's `pow2`.
pub proof fn lemma_spec_pow2_eq(e: nat)
    ensures
        spec_pow2(e) == vstd::arithmetic::power2::pow2(e) as int,
    decreases e,
{
    if e == 0 {
        assert(vstd::arithmetic::power2::pow2(0) == 1) by {
            vstd::arithmetic::power2::lemma2_to64();
        }
    } else {
        lemma_spec_pow2_eq((e - 1) as nat);
        vstd::arithmetic::power2::lemma_pow2_unfold(e);
    }
}

/// A power of two is two to its own logarithm.
pub proof fn lemma_pow2_log2(x: int)
    requires
        spec_is_pow2(x),
    ensures
        x == spec_pow2(spec_log2(x) as nat),
        spec_log2(x) >= 0,
    decreases x,
{
    if x > 1 {
        lemma_pow2_log2(x / 2);
        vstd::arithmetic::div_mod::lemma_fundamental_div_mod(x, 2);
    }
}

/// Every positive value lies below two to one more than its logarithm.
pub proof fn lemma_log2_upper(x: int)
    requires
        x >= 1,
    ensures
        x < spec_pow2((spec_log2(x) + 1) as nat),
        spec_log2(x) >= 0,
    decreases x,
{
    if x == 1 {
        assert(spec_pow2(1) == 2) by {
            reveal_with_fuel(spec_pow2, 3);
        }
    } else {
        lemma_log2_upper(x / 2);
        vstd::arithmetic::div_mod::lemma_fundamental_div_mod(x, 2);
        vstd::arithmetic::div_mod::lemma_mod_bound(x, 2);
        assert(spec_log2(x) == 1 + spec_log2(x / 2));
        assert(spec_pow2((spec_log2(x) + 1) as nat) == 2 * spec_pow2(
            (spec_log2(x / 2) + 1) as nat,
        ));
        assert(x <= 2 * (x / 2) + 1);
    }
}

/// The number of bytes that hold `n` coefficients of `spec_log2(q)` bits
/// each: the encoded length of a ciphertext or public-key polynomial.
pub open spec fn spec_enc_len(n: int, q: int) -> int {
    (n * spec_log2(q) + 7) / 8
}

/// The byte length of the padded message buffer: `N/2` coefficient pairs
/// carry three bits each.
pub open spec fn spec_msg_buf_len(n: int) -> int {
    n / 2 * 3 / 8
}

/// The maximum plaintext length: the message buffer minus the random-prefix
/// bytes and the length octet.
pub open spec fn spec_max_msg_len(n: int, db: int) -> int {
    spec_msg_buf_len(n) - 1 - db / 8
}

/// Bits used to encode one ternary index: enough for `n - 1` plus a sign.
pub open spec fn spec_idx_bits(n: int) -> int {
    spec_log2(n - 1) + 1
}

/// Encoded length of one packed ternary index block: a four-byte header and
/// `count` index pairs at `bits` bits each.
pub open spec fn spec_tern_block_len(bits: int, count: int) -> int {
    4 + (bits * 2 * count + 7) / 8
}

/// Encoded length of a private key.
pub open spec fn spec_private_len(p: &EncParams) -> int {
    let bits = spec_idx_bits(p.n as int);
    if p.prod_flag == 1 {
        5 + spec_tern_block_len(bits, p.df1 as int) + spec_tern_block_len(bits, p.df2 as int)
            + spec_tern_block_len(bits, p.df3 as int)
    } else {
        5 + spec_tern_block_len(bits, p.df1 as int)
    }
}

/// The digest algorithm a parameter set drives the index generation and
/// masking with.
#[derive(Debug, PartialEq, Eq, Structural, Clone, Copy)]
pub enum DigestKind {
    /// SHA-1, 20-byte digests.
    Sha1,
    /// SHA-256, 32-byte digests.
    Sha256,
}

/// A set of parameters for NTRU encryption.
#[derive(Debug, Clone, Copy)]
pub struct EncParams {
    /// Name of the parameter set, zero-padded ASCII.
    pub name: [u8; 11],
    /// Number of polynomial coefficients.
    pub n: u16,
    /// The modulus, a power of two.
    pub q: u16,
    /// 1 for product-form private keys, 0 for ternary.
    pub prod_flag: u8,
    /// Number of ones in the private polynomial `f1` (or `f` if ternary).
    pub df1: u16,
    /// Number of ones in `f2`; zero unless product form.
    pub df2: u16,
    /// Number of ones in `f3`; zero unless product form.
    pub df3: u16,
    /// Number of ones in the key-generation polynomial `g`.
    pub dg: u16,
    /// Minimum count of each of -1, 0, 1 in the masked message polynomial.
    pub dm0: u16,
    /// Number of random bits prepended to the message.
    pub db: u16,
    /// Bits per index drawn by the index generation function.
    pub c: u16,
    /// Minimum digest calls when deriving the blinding polynomial.
    pub min_calls_r: u16,
    /// Minimum digest calls when deriving the masking polynomial.
    pub min_calls_mask: u16,
    /// Whether the index generation function hashes its seed first.
    pub hash_seed: u8,
    /// Three bytes identifying the parameter set.
    pub oid: [u8; 3],
    /// The digest algorithm.
    pub digest: DigestKind,
    /// Output length of the digest, in bytes.
    pub hlen: u16,
    /// Number of public-key bits bound into the blinding seed.
    pub pklen: u16,
}

impl EncParams {
    /// Structural invariant relied on by key generation, the codec and the
    /// encryption transform.
    pub open spec fn wf(&self) -> bool {
        &&& 11 <= self.n && self.n as int <= MAX_DEGREE
        &&& self.n % 2 == 1
        &&& 4 <= self.q <= 4096
        &&& spec_is_pow2(self.q as int)
        &&& 2 <= spec_log2(self.q as int) <= 12
        &&& 1 <= self.df1 && self.df1 as int <= MAX_ONES
        &&& 2 * self.df1 <= self.n
        &&& (self.prod_flag == 1 ==> {
            &&& 1 <= self.df2 && self.df2 as int <= MAX_ONES
            &&& 2 * self.df2 <= self.n
            &&& 1 <= self.df3 && self.df3 as int <= MAX_ONES
            &&& 2 * self.df3 + 1 <= self.n
        })
        &&& (self.prod_flag == 0 ==> self.df2 == 0 && self.df3 == 0)
        &&& self.prod_flag <= 1
        &&& 1 <= self.dg && self.dg as int <= MAX_ONES
        &&& 2 * self.dg <= self.n
        &&& 1 <= self.dm0 <= self.n
        &&& 8 <= self.db <= 256
        &&& self.db % 8 == 0
        &&& 1 <= self.c <= 15
        &&& self.n as int <= spec_pow2(self.c as nat)
        &&& 1 <= self.min_calls_r <= 64
        &&& 1 <= self.min_calls_mask <= 64
        &&& self.hash_seed <= 1
        &&& (self.digest == DigestKind::Sha1 <==> self.hlen == 20)
        &&& (self.digest == DigestKind::Sha256 <==> self.hlen == 32)
        &&& spec_max_msg_len(self.n as int, self.db as int) >= 1
        &&& spec_max_msg_len(self.n as int, self.db as int) <= 255
        &&& 8 <= self.pklen
        &&& self.pklen as int / 8 <= spec_enc_len(self.n as int, self.q as int)
    }

    /// The length of the name: the zero padding stripped.
    pub open spec fn spec_name_len(s: Seq<u8>, i: nat) -> int
        decreases i,
    {
        if i == 0 {
            0
        } else if s[i - 1] != 0 {
            i as int
        } else {
            Self::spec_name_len(s, (i - 1) as nat)
        }
    }

    /// The name of the parameter set, as characters.
    pub open spec fn spec_name(&self) -> Seq<char> {
        Seq::new(
            Self::spec_name_len(self.name@, 11) as nat,
            |i: int| self.name@[i] as char,
        )
    }

    /// Get the name of the parameter set.
    pub fn get_name(&self) -> (r: String)
        ensures
            r@ == self.spec_name(),
    {
        let mut i: usize = 0;
        // The name is zero-padded; find its length.
        let mut len: usize = 0;
        while i < 11
            invariant
                i <= 11,
                len <= i,
                len as int == Self::spec_name_len(self.name@, i as nat),
            decreases 11 - i,
        {
            if self.name[i] != 0 {
                len = i + 1;
            }
            i += 1;
        }
        let mut s = String::new();
        let mut i: usize = 0;
        while i < len
            invariant
                len <= 11,
                i <= len,
                len as int == Self::spec_name_len(self.name@, 11),
                s@ == self.spec_name().take(i as int),
            decreases len - i,
        {
            s = append_ascii(s, self.name[i]);
            proof {
                assert(s@ =~= self.spec_name().take(i as int + 1));
            }
            i += 1;
        }
        proof {
            assert(self.spec_name().take(len as int) =~= self.spec_name());
        }
        s
    }

    /// Get the number of polynomial coefficients.
    pub fn get_n(&self) -> (r: u16)
        ensures
            r == self.n,
    {
        self.n
    }

    /// Get the modulus.
    pub fn get_q(&self) -> (r: u16)
        ensures
            r == self.q,
    {
        self.q
    }

    /// Get the number of random bits prepended to the message.
    pub fn get_db(&self) -> (r: u16)
        ensures
            r == self.db,
    {
        self.db
    }

    /// Maximum message length in bytes.
    pub fn max_msg_len(&self) -> (r: u8)
        requires
            self.wf(),
        ensures
            r as int == spec_max_msg_len(self.n as int, self.db as int),
    {
        (self.n / 2 * 3 / 8 - 1 - self.db / 8) as u8
    }

    /// Length in bytes of an encoded ciphertext (or packed public-key
    /// polynomial).
    pub fn enc_len(&self) -> (r: u16)
        requires
            self.wf(),
        ensures
            r as int == spec_enc_len(self.n as int, self.q as int),
    {
        let lq = log2(self.q);
        proof {
            assert(self.n as int * lq as int <= 18000) by (nonlinear_arith)
                requires
                    self.n as int <= 1500,
                    0 <= lq as int <= 12,
            ;
            assert(self.n as int * lq as int >= 0) by (nonlinear_arith)
                requires
                    self.n as int >= 0,
                    lq as int >= 0,
            ;
        }
        let len_bits = self.n * lq;
        (len_bits + 7) / 8
    }

    /// Length in bytes of an encoded public key.
    pub fn public_len(&self) -> (r: u16)
        requires
            self.wf(),
        ensures
            r as int == 4 + spec_enc_len(self.n as int, self.q as int),
    {
        let e = self.enc_len();
        proof {
            assert(self.n as int * spec_log2(self.q as int) <= 18000) by (nonlinear_arith)
                requires
                    self.n as int <= 1500,
                    0 <= spec_log2(self.q as int) <= 12,
            ;
        }
        4 + e
    }

    /// Length in bytes of an encoded private key.
    pub fn private_len(&self) -> (r: u16)
        requires
            self.wf(),
        ensures
            r as int == spec_private_len(self),
    {
        let bits_per_idx = log2(self.n - 1) + 1;
        proof {
            lemma_log2_nonneg(self.n as int - 1);
            assert(0 <= bits_per_idx as int * 2 * self.df1 as int <= 16000) by (nonlinear_arith)
                requires
                    0 <= bits_per_idx as int <= 16,
                    0 <= self.df1 as int <= 499,
            ;
            assert(0 <= bits_per_idx as int * 2 * self.df2 as int <= 16000) by (nonlinear_arith)
                requires
                    0 <= bits_per_idx as int <= 16,
                    0 <= self.df2 as int <= 499,
            ;
            assert(0 <= bits_per_idx as int * 2 * self.df3 as int <= 16000) by (nonlinear_arith)
                requires
                    0 <= bits_per_idx as int <= 16,
                    0 <= self.df3 as int <= 499,
            ;
        }
        if self.prod_flag == 1 {
            let poly1_len = 4 + (bits_per_idx * 2 * self.df1 + 7) / 8;
            let poly2_len = 4 + (bits_per_idx * 2 * self.df2 + 7) / 8;
            let poly3_len = 4 + (bits_per_idx * 2 * self.df3 + 7) / 8;
            5 + poly1_len + poly2_len + poly3_len
        } else {
            5 + 4 + (bits_per_idx * 2 * self.df1 + 7) / 8
        }
    }
}

/// Two to the power `e`, executable.
pub fn pow2_u16(e: u16) -> (r: u16)
    requires
        e <= 15,
    ensures
        r as int == spec_pow2(e as nat),
        1 <= r,
{
    proof {
        assert(spec_pow2(15) == 0x8000) by {
            reveal_with_fuel(spec_pow2, 17);
        }
    }
    let mut r: u16 = 1;
    let mut i: u16 = 0;
    while i < e
        invariant
            i <= e,
            e <= 15,
            r as int == spec_pow2(i as nat),
            spec_pow2(15) == 0x8000,
        decreases e - i,
    {
        proof {
            lemma_pow2_mono(i as nat + 1, 15);
            lemma_pow2_pos(i as nat);
        }
        r = r * 2;
        i = i + 1;
    }
    proof {
        lemma_pow2_pos(e as nat);
    }
    r
}

/// Whether `x` is a power of two, executable.
pub fn is_pow2(x: u16) -> (r: bool)
    ensures
        r == spec_is_pow2(x as int),
{
    if x == 0 {
        return false;
    }
    let mut v: u16 = x;
    while v > 1
        invariant
            v >= 1,
            spec_is_pow2(x as int) == spec_is_pow2(v as int),
        decreases v,
    {
        if v % 2 == 1 {
            return false;
        }
        v = v / 2;
    }
    true
}

/// Floor of the base-two logarithm.
pub fn log2(x: u16) -> (r: u16)
    ensures
        r as int == spec_log2(x as int),
        r <= 15,
{
    proof {
        lemma_log2_bound(x as int);
    }
    let mut n = x;
    let mut log: u16 = 0;
    while n > 1
        invariant
            spec_log2(x as int) == log + spec_log2(n as int),
            spec_log2(x as int) <= 15,
        decreases n,
    {
        proof {
            lemma_log2_nonneg(n as int / 2);
        }
        n = n / 2;
        log = log + 1;
    }
    proof {
        lemma_log2_nonneg(n as int);
    }
    log
}

/// `spec_log2` is nonnegative.
proof fn lemma_log2_nonneg(x: int)
    ensures
        spec_log2(x) >= 0,
    decreases (if x > 1 {
        x
    } else {
        1
    }),
{
    if x > 1 {
        lemma_log2_nonneg(x / 2);
    }
}

/// `spec_log2` of a 16-bit value is at most 15.
pub proof fn lemma_log2_bound(x: int)
    requires
        x < 0x10000,
    ensures
        spec_log2(x) <= 15,
{
    assert(spec_pow2(15) == 32768) by {
        reveal_with_fuel(spec_pow2, 17);
    }
    lemma_log2_monotonic_bound(x, 15);
}

/// If `x < 2^(e+1)` then `spec_log2(x) <= e`.
pub proof fn lemma_log2_monotonic_bound(x: int, e: nat)
    requires
        x < 2 * spec_pow2(e),
    ensures
        spec_log2(x) <= e,
    decreases e,
{
    if x > 1 {
        if e == 0 {
        } else {
            lemma_log2_monotonic_bound(x / 2, (e - 1) as nat);
        }
    }
}

/// Relies on `alloc::string::String::push`, which the standard library
/// documents as appending the given char to the end of the string.
pub assume_specification[ String::push ](s: &mut String, c: char)
    ensures
        final(s)@ == old(s)@.push(c),
;

/// Push one ASCII byte onto a string.
fn append_ascii(s: String, b: u8) -> (r: String)
    ensures
        r@ == s@.push(b as char),
{
    let mut s = s;
    let c: char = b as char;
    s.push(c);
    s
}


/// The exact field values of the EES401EP1 parameter set.
pub open spec fn is_ees401ep1(p: EncParams) -> bool {
    &&& p.name@ == seq![69u8, 69, 83, 52, 48, 49, 69, 80, 49, 0, 0]
    &&& p.n == 401
    &&& p.q == 2048
    &&& p.prod_flag == 0
    &&& p.df1 == 113
    &&& p.df2 == 0
    &&& p.df3 == 0
    &&& p.dg == 133
    &&& p.dm0 == 113
    &&& p.db == 112
    &&& p.c == 11
    &&& p.min_calls_r == 32
    &&& p.min_calls_mask == 9
    &&& p.hash_seed == 1
    &&& p.oid@ == seq![0u8, 2, 4]
    &&& p.digest == DigestKind::Sha1
    &&& p.hlen == 20
    &&& p.pklen == 114
}

/// The exact field values of the EES449EP1 parameter set.
pub open spec fn is_ees449ep1(p: EncParams) -> bool {
    &&& p.name@ == seq![69u8, 69, 83, 52, 52, 57, 69, 80, 49, 0, 0]
    &&& p.n == 449
    &&& p.q == 2048
    &&& p.prod_flag == 0
    &&& p.df1 == 134
    &&& p.df2 == 0
    &&& p.df3 == 0
    &&& p.dg == 149
    &&& p.dm0 == 134
    &&& p.db == 128
    &&& p.c == 9
    &&& p.min_calls_r == 31
    &&& p.min_calls_mask == 9
    &&& p.hash_seed == 1
    &&& p.oid@ == seq![0u8, 3, 3]
    &&& p.digest == DigestKind::Sha1
    &&& p.hlen == 20
    &&& p.pklen == 128
}

/// The exact field values of the EES677EP1 parameter set.
pub open spec fn is_ees677ep1(p: EncParams) -> bool {
    &&& p.name@ == seq![69u8, 69, 83, 54, 55, 55, 69, 80, 49, 0, 0]
    &&& p.n == 677
    &&& p.q == 2048
    &&& p.prod_flag == 0
    &&& p.df1 == 157
    &&& p.df2 == 0
    &&& p.df3 == 0
    &&& p.dg == 225
    &&& p.dm0 == 157
    &&& p.db == 192
    &&& p.c == 11
    &&& p.min_calls_r == 27
    &&& p.min_calls_mask == 9
    &&& p.hash_seed == 1
    &&& p.oid@ == seq![0u8, 5, 3]
    &&& p.digest == DigestKind::Sha256
    &&& p.hlen == 32
    &&& p.pklen == 192
}

/// The exact field values of the EES1087EP2 parameter set.
pub open spec fn is_ees1087ep2(p: EncParams) -> bool {
    &&& p.name@ == seq![69u8, 69, 83, 49, 48, 56, 55, 69, 80, 50, 0]
    &&& p.n == 1087
    &&& p.q == 2048
    &&& p.prod_flag == 0
    &&& p.df1 == 120
    &&& p.df2 == 0
    &&& p.df3 == 0
    &&& p.dg == 362
    &&& p.dm0 == 120
    &&& p.db == 256
    &&& p.c == 13
    &&& p.min_calls_r == 25
    &&& p.min_calls_mask == 14
    &&& p.hash_seed == 1
    &&& p.oid@ == seq![0u8, 6, 3]
    &&& p.digest == DigestKind::Sha256
    &&& p.hlen == 32
    &&& p.pklen == 256
}

/// The exact field values of the EES541EP1 parameter set.
pub open spec fn is_ees541ep1(p: EncParams) -> bool {
    &&& p.name@ == seq![69u8, 69, 83, 53, 52, 49, 69, 80, 49, 0, 0]
    &&& p.n == 541
    &&& p.q == 2048
    &&& p.prod_flag == 0
    &&& p.df1 == 49
    &&& p.df2 == 0
    &&& p.df3 == 0
    &&& p.dg == 180
    &&& p.dm0 == 49
    &&& p.db == 112
    &&& p.c == 12
    &&& p.min_calls_r == 15
    &&& p.min_calls_mask == 11
    &&& p.hash_seed == 1
    &&& p.oid@ == seq![0u8, 2, 5]
    &&& p.digest == DigestKind::Sha1
    &&& p.hlen == 20
    &&& p.pklen == 112
}

/// The exact field values of the EES613EP1 parameter set.
pub open spec fn is_ees613ep1(p: EncParams) -> bool {
    &&& p.name@ == seq![69u8, 69, 83, 54, 49, 51, 69, 80, 49, 0, 0]
    &&& p.n == 613
    &&& p.q == 2048
    &&& p.prod_flag == 0
    &&& p.df1 == 55
    &&& p.df2 == 0
    &&& p.df3 == 0
    &&& p.dg == 204
    &&& p.dm0 == 55
    &&& p.db == 128
    &&& p.c == 11
    &&& p.min_calls_r == 16
    &&& p.min_calls_mask == 13
    &&& p.hash_seed == 1
    &&& p.oid@ == seq![0u8, 3, 4]
    &&& p.digest == DigestKind::Sha1
    &&& p.hlen == 20
    &&& p.pklen == 128
}

/// The exact field values of the EES887EP1 parameter set.
pub open spec fn is_ees887ep1(p: EncParams) -> bool {
    &&& p.name@ == seq![69u8, 69, 83, 56, 56, 55, 69, 80, 49, 0, 0]
    &&& p.n == 887
    &&& p.q == 2048
    &&& p.prod_flag == 0
    &&& p.df1 == 81
    &&& p.df2 == 0
    &&& p.df3 == 0
    &&& p.dg == 295
    &&& p.dm0 == 81
    &&& p.db == 192
    &&& p.c == 10
    &&& p.min_calls_r == 13
    &&& p.min_calls_mask == 12
    &&& p.hash_seed == 1
    &&& p.oid@ == seq![0u8, 5, 4]
    &&& p.digest == DigestKind::Sha256
    &&& p.hlen == 32
    &&& p.pklen == 192
}

/// The exact field values of the EES1171EP1 parameter set.
pub open spec fn is_ees1171ep1(p: EncParams) -> bool {
    &&& p.name@ == seq![69u8, 69, 83, 49, 49, 55, 49, 69, 80, 49, 0]
    &&& p.n == 1171
    &&& p.q == 2048
    &&& p.prod_flag == 0
    &&& p.df1 == 106
    &&& p.df2 == 0
    &&& p.df3 == 0
    &&& p.dg == 390
    &&& p.dm0 == 106
    &&& p.db == 256
    &&& p.c == 12
    &&& p.min_calls_r == 20
    &&& p.min_calls_mask == 15
    &&& p.hash_seed == 1
    &&& p.oid@ == seq![0u8, 6, 4]
    &&& p.digest == DigestKind::Sha256
    &&& p.hlen == 32
    &&& p.pklen == 256
}

/// The exact field values of the EES659EP1 parameter set.
pub open spec fn is_ees659ep1(p: EncParams) -> bool {
    &&& p.name@ == seq![69u8, 69, 83, 54, 53, 57, 69, 80, 49, 0, 0]
    &&& p.n == 659
    &&& p.q == 2048
    &&& p.prod_flag == 0
    &&& p.df1 == 38
    &&& p.df2 == 0
    &&& p.df3 == 0
    &&& p.dg == 219
    &&& p.dm0 == 38
    &&& p.db == 112
    &&& p.c == 11
    &&& p.min_calls_r == 11
    &&& p.min_calls_mask == 14
    &&& p.hash_seed == 1
    &&& p.oid@ == seq![0u8, 2, 6]
    &&& p.digest == DigestKind::Sha1
    &&& p.hlen == 20
    &&& p.pklen == 112
}

/// The exact field values of the EES761EP1 parameter set.
pub open spec fn is_ees761ep1(p: EncParams) -> bool {
    &&& p.name@ == seq![69u8, 69, 83, 55, 54, 49, 69, 80, 49, 0, 0]
    &&& p.n == 761
    &&& p.q == 2048
    &&& p.prod_flag == 0
    &&& p.df1 == 42
    &&& p.df2 == 0
    &&& p.df3 == 0
    &&& p.dg == 253
    &&& p.dm0 == 42
    &&& p.db == 128
    &&& p.c == 12
    &&& p.min_calls_r == 13
    &&& p.min_calls_mask == 16
    &&& p.hash_seed == 1
    &&& p.oid@ == seq![0u8, 3, 5]
    &&& p.digest == DigestKind::Sha1
    &&& p.hlen == 20
    &&& p.pklen == 128
}

/// The exact field values of the EES1087EP1 parameter set.
pub open spec fn is_ees1087ep1(p: EncParams) -> bool {
    &&& p.name@ == seq![69u8, 69, 83, 49, 48, 56, 55, 69, 80, 49, 0]
    &&& p.n == 1087
    &&& p.q == 2048
    &&& p.prod_flag == 0
    &&& p.df1 == 63
    &&& p.df2 == 0
    &&& p.df3 == 0
    &&& p.dg == 362
    &&& p.dm0 == 63
    &&& p.db == 192
    &&& p.c == 13
    &&& p.min_calls_r == 13
    &&& p.min_calls_mask == 14
    &&& p.hash_seed == 1
    &&& p.oid@ == seq![0u8, 5, 5]
    &&& p.digest == DigestKind::Sha256
    &&& p.hlen == 32
    &&& p.pklen == 192
}

/// The exact field values of the EES1499EP1 parameter set.
pub open spec fn is_ees1499ep1(p: EncParams) -> bool {
    &&& p.name@ == seq![69u8, 69, 83, 49, 52, 57, 57, 69, 80, 49, 0]
    &&& p.n == 1499
    &&& p.q == 2048
    &&& p.prod_flag == 0
    &&& p.df1 == 79
    &&& p.df2 == 0
    &&& p.df3 == 0
    &&& p.dg == 499
    &&& p.dm0 == 79
    &&& p.db == 256
    &&& p.c == 13
    &&& p.min_calls_r == 17
    &&& p.min_calls_mask == 19
    &&& p.hash_seed == 1
    &&& p.oid@ == seq![0u8, 6, 5]
    &&& p.digest == DigestKind::Sha256
    &&& p.hlen == 32
    &&& p.pklen == 256
}

/// The exact field values of the EES401EP2 parameter set.
pub open spec fn is_ees401ep2(p: EncParams) -> bool {
    &&& p.name@ == seq![69u8, 69, 83, 52, 48, 49, 69, 80, 50, 0, 0]
    &&& p.n == 401
    &&& p.q == 2048
    &&& p.prod_flag == 1
    &&& p.df1 == 8
    &&& p.df2 == 8
    &&& p.df3 == 6
    &&& p.dg == 133
    &&& p.dm0 == 101
    &&& p.db == 112
    &&& p.c == 11
    &&& p.min_calls_r == 10
    &&& p.min_calls_mask == 6
    &&& p.hash_seed == 1
    &&& p.oid@ == seq![0u8, 2, 16]
    &&& p.digest == DigestKind::Sha1
    &&& p.hlen == 20
    &&& p.pklen == 112
}

/// The exact field values of the EES439EP1 parameter set.
pub open spec fn is_ees439ep1(p: EncParams) -> bool {
    &&& p.name@ == seq![69u8, 69, 83, 52, 51, 57, 69, 80, 49, 0, 0]
    &&& p.n == 439
    &&& p.q == 2048
    &&& p.prod_flag == 1
    &&& p.df1 == 9
    &&& p.df2 == 8
    &&& p.df3 == 5
    &&& p.dg == 146
    &&& p.dm0 == 112
    &&& p.db == 128
    &&& p.c == 9
    &&& p.min_calls_r == 15
    &&& p.min_calls_mask == 6
    &&& p.hash_seed == 1
    &&& p.oid@ == seq![0u8, 3, 16]
    &&& p.digest == DigestKind::Sha1
    &&& p.hlen == 20
    &&& p.pklen == 128
}

/// The exact field values of the EES443EP1 parameter set.
pub open spec fn is_ees443ep1(p: EncParams) -> bool {
    &&& p.name@ == seq![69u8, 69, 83, 52, 52, 51, 69, 80, 49, 0, 0]
    &&& p.n == 443
    &&& p.q == 2048
    &&& p.prod_flag == 1
    &&& p.df1 == 9
    &&& p.df2 == 8
    &&& p.df3 == 5
    &&& p.dg == 148
    &&& p.dm0 == 115
    &&& p.db == 128
    &&& p.c == 9
    &&& p.min_calls_r == 8
    &&& p.min_calls_mask == 5
    &&& p.hash_seed == 1
    &&& p.oid@ == seq![0u8, 3, 17]
    &&& p.digest == DigestKind::Sha256
    &&& p.hlen == 32
    &&& p.pklen == 128
}

/// The exact field values of the EES593EP1 parameter set.
pub open spec fn is_ees593ep1(p: EncParams) -> bool {
    &&& p.name@ == seq![69u8, 69, 83, 53, 57, 51, 69, 80, 49, 0, 0]
    &&& p.n == 593
    &&& p.q == 2048
    &&& p.prod_flag == 1
    &&& p.df1 == 10
    &&& p.df2 == 10
    &&& p.df3 == 8
    &&& p.dg == 197
    &&& p.dm0 == 158
    &&& p.db == 192
    &&& p.c == 11
    &&& p.min_calls_r == 12
    &&& p.min_calls_mask == 5
    &&& p.hash_seed == 1
    &&& p.oid@ == seq![0u8, 5, 16]
    &&& p.digest == DigestKind::Sha256
    &&& p.hlen == 32
    &&& p.pklen == 192
}

/// The exact field values of the EES587EP1 parameter set.
pub open spec fn is_ees587ep1(p: EncParams) -> bool {
    &&& p.name@ == seq![69u8, 69, 83, 53, 56, 55, 69, 80, 49, 0, 0]
    &&& p.n == 587
    &&& p.q == 2048
    &&& p.prod_flag == 1
    &&& p.df1 == 10
    &&& p.df2 == 10
    &&& p.df3 == 8
    &&& p.dg == 196
    &&& p.dm0 == 157
    &&& p.db == 192
    &&& p.c == 11
    &&& p.min_calls_r == 13
    &&& p.min_calls_mask == 7
    &&& p.hash_seed == 1
    &&& p.oid@ == seq![0u8, 5, 17]
    &&& p.digest == DigestKind::Sha256
    &&& p.hlen == 32
    &&& p.pklen == 192
}

/// The exact field values of the EES743EP1 parameter set.
pub open spec fn is_ees743ep1(p: EncParams) -> bool {
    &&& p.name@ == seq![69u8, 69, 83, 55, 52, 51, 69, 80, 49, 0, 0]
    &&& p.n == 743
    &&& p.q == 2048
    &&& p.prod_flag == 1
    &&& p.df1 == 11
    &&& p.df2 == 11
    &&& p.df3 == 15
    &&& p.dg == 247
    &&& p.dm0 == 204
    &&& p.db == 256
    &&& p.c == 13
    &&& p.min_calls_r == 12
    &&& p.min_calls_mask == 7
    &&& p.hash_seed == 1
    &&& p.oid@ == seq![0u8, 6, 16]
    &&& p.digest == DigestKind::Sha256
    &&& p.hlen == 32
    &&& p.pklen == 256
}

/// Whether some built-in parameter set has this degree, modulus, form and
/// first weight: the quadruple that identifies a set during key lookup.
pub open spec fn catalog_has(n: int, q: int, prod: bool, df1: int) -> bool {
    ||| (n == 401 && q == 2048 && !prod && df1 == 113)
    ||| (n == 449 && q == 2048 && !prod && df1 == 134)
    ||| (n == 677 && q == 2048 && !prod && df1 == 157)
    ||| (n == 1087 && q == 2048 && !prod && df1 == 120)
    ||| (n == 541 && q == 2048 && !prod && df1 == 49)
    ||| (n == 613 && q == 2048 && !prod && df1 == 55)
    ||| (n == 887 && q == 2048 && !prod && df1 == 81)
    ||| (n == 1171 && q == 2048 && !prod && df1 == 106)
    ||| (n == 659 && q == 2048 && !prod && df1 == 38)
    ||| (n == 761 && q == 2048 && !prod && df1 == 42)
    ||| (n == 1087 && q == 2048 && !prod && df1 == 63)
    ||| (n == 1499 && q == 2048 && !prod && df1 == 79)
    ||| (n == 401 && q == 2048 && prod && df1 == 8)
    ||| (n == 439 && q == 2048 && prod && df1 == 9)
    ||| (n == 443 && q == 2048 && prod && df1 == 9)
    ||| (n == 593 && q == 2048 && prod && df1 == 10)
    ||| (n == 587 && q == 2048 && prod && df1 == 10)
    ||| (n == 743 && q == 2048 && prod && df1 == 11)
}

/// A parameter set is one of the eighteen built-in sets.
pub open spec fn is_catalog_set(p: EncParams) -> bool {
    ||| is_ees401ep1(p)
    ||| is_ees449ep1(p)
    ||| is_ees677ep1(p)
    ||| is_ees1087ep2(p)
    ||| is_ees541ep1(p)
    ||| is_ees613ep1(p)
    ||| is_ees887ep1(p)
    ||| is_ees1171ep1(p)
    ||| is_ees659ep1(p)
    ||| is_ees761ep1(p)
    ||| is_ees1087ep1(p)
    ||| is_ees1499ep1(p)
    ||| is_ees401ep2(p)
    ||| is_ees439ep1(p)
    ||| is_ees443ep1(p)
    ||| is_ees593ep1(p)
    ||| is_ees587ep1(p)
    ||| is_ees743ep1(p)
}

/// Shared power-of-two facts for the catalog constructors.
proof fn lemma_pow2_facts()
    ensures
        spec_is_pow2(2048),
        spec_log2(2048) == 11,
        spec_pow2(9) == 512,
        spec_pow2(10) == 1024,
        spec_pow2(11) == 2048,
        spec_pow2(12) == 4096,
        spec_pow2(13) == 8192,
{
    reveal_with_fuel(spec_is_pow2, 13);
    reveal_with_fuel(spec_log2, 13);
    reveal_with_fuel(spec_pow2, 15);
}

/// An IEEE P1363.1 parameter set that gives 112 bits of security and is optimized for key size.
pub fn ees401ep1() -> (r: EncParams)
    ensures
        r.wf(),
        is_ees401ep1(r),
{
    let p = EncParams {
        name: [69, 69, 83, 52, 48, 49, 69, 80, 49, 0, 0],
        n: 401,
        q: 2048,
        prod_flag: 0,
        df1: 113,
        df2: 0,
        df3: 0,
        dg: 133,
        dm0: 113,
        db: 112,
        c: 11,
        min_calls_r: 32,
        min_calls_mask: 9,
        hash_seed: 1,
        oid: [0, 2, 4],
        digest: DigestKind::Sha1,
        hlen: 20,
        pklen: 114,
    };
    proof {
        lemma_pow2_facts();
        assert(p.oid@ =~= seq![0u8, 2, 4]);
        assert(p.name@ =~= seq![69u8, 69, 83, 52, 48, 49, 69, 80, 49, 0, 0]);
    }
    p
}

/// An IEEE P1363.1 parameter set that gives 128 bits of security and is optimized for key size.
pub fn ees449ep1() -> (r: EncParams)
    ensures
        r.wf(),
        is_ees449ep1(r),
{
    let p = EncParams {
        name: [69, 69, 83, 52, 52, 57, 69, 80, 49, 0, 0],
        n: 449,
        q: 2048,
        prod_flag: 0,
        df1: 134,
        df2: 0,
        df3: 0,
        dg: 149,
        dm0: 134,
        db: 128,
        c: 9,
        min_calls_r: 31,
        min_calls_mask: 9,
        hash_seed: 1,
        oid: [0, 3, 3],
        digest: DigestKind::Sha1,
        hlen: 20,
        pklen: 128,
    };
    proof {
        lemma_pow2_facts();
        assert(p.oid@ =~= seq![0u8, 3, 3]);
        assert(p.name@ =~= seq![69u8, 69, 83, 52, 52, 57, 69, 80, 49, 0, 0]);
    }
    p
}

/// An IEEE P1363.1 parameter set that gives 192 bits of security and is optimized for key size.
pub fn ees677ep1() -> (r: EncParams)
    ensures
        r.wf(),
        is_ees677ep1(r),
{
    let p = EncParams {
        name: [69, 69, 83, 54, 55, 55, 69, 80, 49, 0, 0],
        n: 677,
        q: 2048,
        prod_flag: 0,
        df1: 157,
        df2: 0,
        df3: 0,
        dg: 225,
        dm0: 157,
        db: 192,
        c: 11,
        min_calls_r: 27,
        min_calls_mask: 9,
        hash_seed: 1,
        oid: [0, 5, 3],
        digest: DigestKind::Sha256,
        hlen: 32,
        pklen: 192,
    };
    proof {
        lemma_pow2_facts();
        assert(p.oid@ =~= seq![0u8, 5, 3]);
        assert(p.name@ =~= seq![69u8, 69, 83, 54, 55, 55, 69, 80, 49, 0, 0]);
    }
    p
}

/// An IEEE P1363.1 parameter set that gives 256 bits of security and is optimized for key size.
pub fn ees1087ep2() -> (r: EncParams)
    ensures
        r.wf(),
        is_ees1087ep2(r),
{
    let p = EncParams {
        name: [69, 69, 83, 49, 48, 56, 55, 69, 80, 50, 0],
        n: 1087,
        q: 2048,
        prod_flag: 0,
        df1: 120,
        df2: 0,
        df3: 0,
        dg: 362,
        dm0: 120,
        db: 256,
        c: 13,
        min_calls_r: 25,
        min_calls_mask: 14,
        hash_seed: 1,
        oid: [0, 6, 3],
        digest: DigestKind::Sha256,
        hlen: 32,
        pklen: 256,
    };
    proof {
        lemma_pow2_facts();
        assert(p.oid@ =~= seq![0u8, 6, 3]);
        assert(p.name@ =~= seq![69u8, 69, 83, 49, 48, 56, 55, 69, 80, 50, 0]);
    }
    p
}

/// An IEEE P1363.1 parameter set that gives 112 bits of security and is a tradeoff between key size and speed.
pub fn ees541ep1() -> (r: EncParams)
    ensures
        r.wf(),
        is_ees541ep1(r),
{
    let p = EncParams {
        name: [69, 69, 83, 53, 52, 49, 69, 80, 49, 0, 0],
        n: 541,
        q: 2048,
        prod_flag: 0,
        df1: 49,
        df2: 0,
        df3: 0,
        dg: 180,
        dm0: 49,
        db: 112,
        c: 12,
        min_calls_r: 15,
        min_calls_mask: 11,
        hash_seed: 1,
        oid: [0, 2, 5],
        digest: DigestKind::Sha1,
        hlen: 20,
        pklen: 112,
    };
    proof {
        lemma_pow2_facts();
        assert(p.oid@ =~= seq![0u8, 2, 5]);
        assert(p.name@ =~= seq![69u8, 69, 83, 53, 52, 49, 69, 80, 49, 0, 0]);
    }
    p
}

/// An IEEE P1363.1 parameter set that gives 128 bits of security and is a tradeoff between key size and speed.
pub fn ees613ep1() -> (r: EncParams)
    ensures
        r.wf(),
        is_ees613ep1(r),
{
    let p = EncParams {
        name: [69, 69, 83, 54, 49, 51, 69, 80, 49, 0, 0],
        n: 613,
        q: 2048,
        prod_flag: 0,
        df1: 55,
        df2: 0,
        df3: 0,
        dg: 204,
        dm0: 55,
        db: 128,
        c: 11,
        min_calls_r: 16,
        min_calls_mask: 13,
        hash_seed: 1,
        oid: [0, 3, 4],
        digest: DigestKind::Sha1,
        hlen: 20,
        pklen: 128,
    };
    proof {
        lemma_pow2_facts();
        assert(p.oid@ =~= seq![0u8, 3, 4]);
        assert(p.name@ =~= seq![69u8, 69, 83, 54, 49, 51, 69, 80, 49, 0, 0]);
    }
    p
}

/// An IEEE P1363.1 parameter set that gives 192 bits of security and is a tradeoff between key size and speed.
pub fn ees887ep1() -> (r: EncParams)
    ensures
        r.wf(),
        is_ees887ep1(r),
{
    let p = EncParams {
        name: [69, 69, 83, 56, 56, 55, 69, 80, 49, 0, 0],
        n: 887,
        q: 2048,
        prod_flag: 0,
        df1: 81,
        df2: 0,
        df3: 0,
        dg: 295,
        dm0: 81,
        db: 192,
        c: 10,
        min_calls_r: 13,
        min_calls_mask: 12,
        hash_seed: 1,
        oid: [0, 5, 4],
        digest: DigestKind::Sha256,
        hlen: 32,
        pklen: 192,
    };
    proof {
        lemma_pow2_facts();
        assert(p.oid@ =~= seq![0u8, 5, 4]);
        assert(p.name@ =~= seq![69u8, 69, 83, 56, 56, 55, 69, 80, 49, 0, 0]);
    }
    p
}

/// An IEEE P1363.1 parameter set that gives 256 bits of security and is a tradeoff between key size and speed.
pub fn ees1171ep1() -> (r: EncParams)
    ensures
        r.wf(),
        is_ees1171ep1(r),
{
    let p = EncParams {
        name: [69, 69, 83, 49, 49, 55, 49, 69, 80, 49, 0],
        n: 1171,
        q: 2048,
        prod_flag: 0,
        df1: 106,
        df2: 0,
        df3: 0,
        dg: 390,
        dm0: 106,
        db: 256,
        c: 12,
        min_calls_r: 20,
        min_calls_mask: 15,
        hash_seed: 1,
        oid: [0, 6, 4],
        digest: DigestKind::Sha256,
        hlen: 32,
        pklen: 256,
    };
    proof {
        lemma_pow2_facts();
        assert(p.oid@ =~= seq![0u8, 6, 4]);
        assert(p.name@ =~= seq![69u8, 69, 83, 49, 49, 55, 49, 69, 80, 49, 0]);
    }
    p
}

/// An IEEE P1363.1 parameter set that gives 112 bits of security and is optimized for speed.
pub fn ees659ep1() -> (r: EncParams)
    ensures
        r.wf(),
        is_ees659ep1(r),
{
    let p = EncParams {
        name: [69, 69, 83, 54, 53, 57, 69, 80, 49, 0, 0],
        n: 659,
        q: 2048,
        prod_flag: 0,
        df1: 38,
        df2: 0,
        df3: 0,
        dg: 219,
        dm0: 38,
        db: 112,
        c: 11,
        min_calls_r: 11,
        min_calls_mask: 14,
        hash_seed: 1,
        oid: [0, 2, 6],
        digest: DigestKind::Sha1,
        hlen: 20,
        pklen: 112,
    };
    proof {
        lemma_pow2_facts();
        assert(p.oid@ =~= seq![0u8, 2, 6]);
        assert(p.name@ =~= seq![69u8, 69, 83, 54, 53, 57, 69, 80, 49, 0, 0]);
    }
    p
}

/// An IEEE P1363.1 parameter set that gives 128 bits of security and is optimized for speed.
pub fn ees761ep1() -> (r: EncParams)
    ensures
        r.wf(),
        is_ees761ep1(r),
{
    let p = EncParams {
        name: [69, 69, 83, 55, 54, 49, 69, 80, 49, 0, 0],
        n: 761,
        q: 2048,
        prod_flag: 0,
        df1: 42,
        df2: 0,
        df3: 0,
        dg: 253,
        dm0: 42,
        db: 128,
        c: 12,
        min_calls_r: 13,
        min_calls_mask: 16,
        hash_seed: 1,
        oid: [0, 3, 5],
        digest: DigestKind::Sha1,
        hlen: 20,
        pklen: 128,
    };
    proof {
        lemma_pow2_facts();
        assert(p.oid@ =~= seq![0u8, 3, 5]);
        assert(p.name@ =~= seq![69u8, 69, 83, 55, 54, 49, 69, 80, 49, 0, 0]);
    }
    p
}

/// An IEEE P1363.1 parameter set that gives 192 bits of security and is optimized for speed.
pub fn ees1087ep1() -> (r: EncParams)
    ensures
        r.wf(),
        is_ees1087ep1(r),
{
    let p = EncParams {
        name: [69, 69, 83, 49, 48, 56, 55, 69, 80, 49, 0],
        n: 1087,
        q: 2048,
        prod_flag: 0,
        df1: 63,
        df2: 0,
        df3: 0,
        dg: 362,
        dm0: 63,
        db: 192,
        c: 13,
        min_calls_r: 13,
        min_calls_mask: 14,
        hash_seed: 1,
        oid: [0, 5, 5],
        digest: DigestKind::Sha256,
        hlen: 32,
        pklen: 192,
    };
    proof {
        lemma_pow2_facts();
        assert(p.oid@ =~= seq![0u8, 5, 5]);
        assert(p.name@ =~= seq![69u8, 69, 83, 49, 48, 56, 55, 69, 80, 49, 0]);
    }
    p
}

/// An IEEE P1363.1 parameter set that gives 256 bits of security and is optimized for speed.
pub fn ees1499ep1() -> (r: EncParams)
    ensures
        r.wf(),
        is_ees1499ep1(r),
{
    let p = EncParams {
        name: [69, 69, 83, 49, 52, 57, 57, 69, 80, 49, 0],
        n: 1499,
        q: 2048,
        prod_flag: 0,
        df1: 79,
        df2: 0,
        df3: 0,
        dg: 499,
        dm0: 79,
        db: 256,
        c: 13,
        min_calls_r: 17,
        min_calls_mask: 19,
        hash_seed: 1,
        oid: [0, 6, 5],
        digest: DigestKind::Sha256,
        hlen: 32,
        pklen: 256,
    };
    proof {
        lemma_pow2_facts();
        assert(p.oid@ =~= seq![0u8, 6, 5]);
        assert(p.name@ =~= seq![69u8, 69, 83, 49, 52, 57, 57, 69, 80, 49, 0]);
    }
    p
}

/// A product-form parameter set that gives 112 bits of security.
pub fn ees401ep2() -> (r: EncParams)
    ensures
        r.wf(),
        is_ees401ep2(r),
{
    let p = EncParams {
        name: [69, 69, 83, 52, 48, 49, 69, 80, 50, 0, 0],
        n: 401,
        q: 2048,
        prod_flag: 1,
        df1: 8,
        df2: 8,
        df3: 6,
        dg: 133,
        dm0: 101,
        db: 112,
        c: 11,
        min_calls_r: 10,
        min_calls_mask: 6,
        hash_seed: 1,
        oid: [0, 2, 16],
        digest: DigestKind::Sha1,
        hlen: 20,
        pklen: 112,
    };
    proof {
        lemma_pow2_facts();
        assert(p.oid@ =~= seq![0u8, 2, 16]);
        assert(p.name@ =~= seq![69u8, 69, 83, 52, 48, 49, 69, 80, 50, 0, 0]);
    }
    p
}

/// A deprecated product-form parameter set that gives 128 bits of security; use ees443ep1 instead.
pub fn ees439ep1() -> (r: EncParams)
    ensures
        r.wf(),
        is_ees439ep1(r),
{
    let p = EncParams {
        name: [69, 69, 83, 52, 51, 57, 69, 80, 49, 0, 0],
        n: 439,
        q: 2048,
        prod_flag: 1,
        df1: 9,
        df2: 8,
        df3: 5,
        dg: 146,
        dm0: 112,
        db: 128,
        c: 9,
        min_calls_r: 15,
        min_calls_mask: 6,
        hash_seed: 1,
        oid: [0, 3, 16],
        digest: DigestKind::Sha1,
        hlen: 20,
        pklen: 128,
    };
    proof {
        lemma_pow2_facts();
        assert(p.oid@ =~= seq![0u8, 3, 16]);
        assert(p.name@ =~= seq![69u8, 69, 83, 52, 51, 57, 69, 80, 49, 0, 0]);
    }
    p
}

/// A product-form parameter set that gives 128 bits of security.
pub fn ees443ep1() -> (r: EncParams)
    ensures
        r.wf(),
        is_ees443ep1(r),
{
    let p = EncParams {
        name: [69, 69, 83, 52, 52, 51, 69, 80, 49, 0, 0],
        n: 443,
        q: 2048,
        prod_flag: 1,
        df1: 9,
        df2: 8,
        df3: 5,
        dg: 148,
        dm0: 115,
        db: 128,
        c: 9,
        min_calls_r: 8,
        min_calls_mask: 5,
        hash_seed: 1,
        oid: [0, 3, 17],
        digest: DigestKind::Sha256,
        hlen: 32,
        pklen: 128,
    };
    proof {
        lemma_pow2_facts();
        assert(p.oid@ =~= seq![0u8, 3, 17]);
        assert(p.name@ =~= seq![69u8, 69, 83, 52, 52, 51, 69, 80, 49, 0, 0]);
    }
    p
}

/// A deprecated product-form parameter set that gives 192 bits of security; use ees587ep1 instead.
pub fn ees593ep1() -> (r: EncParams)
    ensures
        r.wf(),
        is_ees593ep1(r),
{
    let p = EncParams {
        name: [69, 69, 83, 53, 57, 51, 69, 80, 49, 0, 0],
        n: 593,
        q: 2048,
        prod_flag: 1,
        df1: 10,
        df2: 10,
        df3: 8,
        dg: 197,
        dm0: 158,
        db: 192,
        c: 11,
        min_calls_r: 12,
        min_calls_mask: 5,
        hash_seed: 1,
        oid: [0, 5, 16],
        digest: DigestKind::Sha256,
        hlen: 32,
        pklen: 192,
    };
    proof {
        lemma_pow2_facts();
        assert(p.oid@ =~= seq![0u8, 5, 16]);
        assert(p.name@ =~= seq![69u8, 69, 83, 53, 57, 51, 69, 80, 49, 0, 0]);
    }
    p
}

/// A product-form parameter set that gives 192 bits of security.
pub fn ees587ep1() -> (r: EncParams)
    ensures
        r.wf(),
        is_ees587ep1(r),
{
    let p = EncParams {
        name: [69, 69, 83, 53, 56, 55, 69, 80, 49, 0, 0],
        n: 587,
        q: 2048,
        prod_flag: 1,
        df1: 10,
        df2: 10,
        df3: 8,
        dg: 196,
        dm0: 157,
        db: 192,
        c: 11,
        min_calls_r: 13,
        min_calls_mask: 7,
        hash_seed: 1,
        oid: [0, 5, 17],
        digest: DigestKind::Sha256,
        hlen: 32,
        pklen: 192,
    };
    proof {
        lemma_pow2_facts();
        assert(p.oid@ =~= seq![0u8, 5, 17]);
        assert(p.name@ =~= seq![69u8, 69, 83, 53, 56, 55, 69, 80, 49, 0, 0]);
    }
    p
}

/// A product-form parameter set that gives 256 bits of security.
pub fn ees743ep1() -> (r: EncParams)
    ensures
        r.wf(),
        is_ees743ep1(r),
{
    let p = EncParams {
        name: [69, 69, 83, 55, 52, 51, 69, 80, 49, 0, 0],
        n: 743,
        q: 2048,
        prod_flag: 1,
        df1: 11,
        df2: 11,
        df3: 15,
        dg: 247,
        dm0: 204,
        db: 256,
        c: 13,
        min_calls_r: 12,
        min_calls_mask: 7,
        hash_seed: 1,
        oid: [0, 6, 16],
        digest: DigestKind::Sha256,
        hlen: 32,
        pklen: 256,
    };
    proof {
        lemma_pow2_facts();
        assert(p.oid@ =~= seq![0u8, 6, 16]);
        assert(p.name@ =~= seq![69u8, 69, 83, 55, 52, 51, 69, 80, 49, 0, 0]);
    }
    p
}

/// The default parameter set for 112 bits of security.
pub fn default_params_112_bits() -> (r: EncParams)
    ensures
        r.wf(),
{
    ees541ep1()
}

/// The default parameter set for 128 bits of security.
pub fn default_params_128_bits() -> (r: EncParams)
    ensures
        r.wf(),
{
    ees613ep1()
}

/// The default parameter set for 192 bits of security.
pub fn default_params_192_bits() -> (r: EncParams)
    ensures
        r.wf(),
{
    ees887ep1()
}

/// The default parameter set for 256 bits of security.
pub fn default_params_256_bits() -> (r: EncParams)
    ensures
        r.wf(),
{
    ees1171ep1()
}

/// All built-in parameter sets.
pub fn all_param_sets() -> (r: Vec<EncParams>)
    ensures
        r@.len() == 18,
        forall|i: int| 0 <= i < r@.len() ==> #[trigger] r@[i].wf(),
        is_ees401ep1(r@[0]),
        is_ees449ep1(r@[1]),
        is_ees677ep1(r@[2]),
        is_ees1087ep2(r@[3]),
        is_ees541ep1(r@[4]),
        is_ees613ep1(r@[5]),
        is_ees887ep1(r@[6]),
        is_ees1171ep1(r@[7]),
        is_ees659ep1(r@[8]),
        is_ees761ep1(r@[9]),
        is_ees1087ep1(r@[10]),
        is_ees1499ep1(r@[11]),
        is_ees401ep2(r@[12]),
        is_ees439ep1(r@[13]),
        is_ees443ep1(r@[14]),
        is_ees593ep1(r@[15]),
        is_ees587ep1(r@[16]),
        is_ees743ep1(r@[17]),
{
    let mut v: Vec<EncParams> = Vec::new();
    v.push(ees401ep1());
    v.push(ees449ep1());
    v.push(ees677ep1());
    v.push(ees1087ep2());
    v.push(ees541ep1());
    v.push(ees613ep1());
    v.push(ees887ep1());
    v.push(ees1171ep1());
    v.push(ees659ep1());
    v.push(ees761ep1());
    v.push(ees1087ep1());
    v.push(ees1499ep1());
    v.push(ees401ep2());
    v.push(ees439ep1());
    v.push(ees443ep1());
    v.push(ees593ep1());
    v.push(ees587ep1());
    v.push(ees743ep1());
    v
}


impl PartialEq for EncParams {
    fn eq(&self, other: &EncParams) -> (r: bool) {
        let mut i: usize = 0;
        while i < 11
            invariant
                i <= 11,
                forall|k: int| 0 <= k < i ==> self.name@[k] == other.name@[k],
            decreases 11 - i,
        {
            if self.name[i] != other.name[i] {
                assert(self.name@[i as int] != other.name@[i as int]);
                return false;
            }
            i += 1;
        }
        let mut i: usize = 0;
        while i < 3
            invariant
                i <= 3,
                forall|k: int| 0 <= k < i ==> self.oid@[k] == other.oid@[k],
            decreases 3 - i,
        {
            if self.oid[i] != other.oid[i] {
                assert(self.oid@[i as int] != other.oid@[i as int]);
                return false;
            }
            i += 1;
        }
        let r = self.n == other.n && self.q == other.q && self.prod_flag == other.prod_flag
            && self.df1 == other.df1 && self.df2 == other.df2 && self.df3 == other.df3
            && self.dg == other.dg && self.dm0 == other.dm0 && self.db == other.db && self.c
            == other.c && self.min_calls_r == other.min_calls_r && self.min_calls_mask
            == other.min_calls_mask && self.hash_seed == other.hash_seed && self.digest
            == other.digest && self.hlen == other.hlen && self.pklen == other.pklen;
        proof {
            if r {
                assert(self.name@ =~= other.name@);
                assert(self.oid@ =~= other.oid@);
            }
        }
        r
    }
}

impl vstd::std_specs::cmp::PartialEqSpecImpl for EncParams {
    open spec fn obeys_eq_spec() -> bool {
        true
    }

    open spec fn eq_spec(&self, other: &EncParams) -> bool {
        &&& self.name@ == other.name@
        &&& self.oid@ == other.oid@
        &&& self.n == other.n && self.q == other.q && self.prod_flag == other.prod_flag
        &&& self.df1 == other.df1 && self.df2 == other.df2 && self.df3 == other.df3
        &&& self.dg == other.dg && self.dm0 == other.dm0 && self.db == other.db
        &&& self.c == other.c && self.min_calls_r == other.min_calls_r && self.min_calls_mask
            == other.min_calls_mask
        &&& self.hash_seed == other.hash_seed && self.digest == other.digest && self.hlen
            == other.hlen && self.pklen == other.pklen
    }
}

/// Check the structural invariant of a parameter set at run time.
pub fn check_params(p: &EncParams) -> (r: bool)
    ensures
        r == p.wf(),
{
    if !(11 <= p.n && p.n as usize <= MAX_DEGREE && p.n % 2 == 1) {
        return false;
    }
    if !(4 <= p.q && p.q <= 4096) {
        return false;
    }
    if !is_pow2(p.q) {
        return false;
    }
    let lq = log2(p.q);
    if !(2 <= lq && lq <= 12) {
        return false;
    }
    if !(1 <= p.df1 && p.df1 as usize <= MAX_ONES && 2 * p.df1 <= p.n) {
        return false;
    }
    if p.prod_flag == 1 {
        if !(1 <= p.df2 && p.df2 as usize <= MAX_ONES && 2 * p.df2 <= p.n) {
            return false;
        }
        if !(1 <= p.df3 && p.df3 as usize <= MAX_ONES && 2 * p.df3 + 1 <= p.n) {
            return false;
        }
    } else {
        if p.prod_flag != 0 || p.df2 != 0 || p.df3 != 0 {
            return false;
        }
    }
    if !(1 <= p.dg && p.dg as usize <= MAX_ONES && 2 * p.dg <= p.n) {
        return false;
    }
    if !(1 <= p.dm0 && p.dm0 <= p.n) {
        return false;
    }
    if !(8 <= p.db && p.db <= 256 && p.db % 8 == 0) {
        return false;
    }
    if !(1 <= p.c && p.c <= 15) {
        return false;
    }
    if !(p.n <= pow2_u16(p.c)) {
        return false;
    }
    if !(1 <= p.min_calls_r && p.min_calls_r <= 64) {
        return false;
    }
    if !(1 <= p.min_calls_mask && p.min_calls_mask <= 64) {
        return false;
    }
    if p.hash_seed > 1 {
        return false;
    }
    let sha1_sel = matches!(p.digest, DigestKind::Sha1);
    if sha1_sel != (p.hlen == 20) {
        return false;
    }
    if !sha1_sel != (p.hlen == 32) {
        return false;
    }
    let mml: i32 = (p.n / 2 * 3 / 8) as i32 - 1 - (p.db / 8) as i32;
    if !(1 <= mml && mml <= 255) {
        return false;
    }
    proof {
        assert(0 <= p.n as int * lq as int <= 18000) by (nonlinear_arith)
            requires
                0 <= p.n as int <= 1500,
                0 <= lq <= 12,
        ;
    }
    let el = {
        let lb = p.n * lq;
        (lb + 7) / 8
    };
    if !(8 <= p.pklen && p.pklen / 8 <= el) {
        return false;
    }
    proof {
        assert(p.n as int * lq as int <= 18000) by (nonlinear_arith)
            requires
                p.n as int <= 1500,
                0 <= lq <= 12,
        ;
        if p.digest == DigestKind::Sha1 {
        } else {
        }
    }
    true
}
} // verus!
