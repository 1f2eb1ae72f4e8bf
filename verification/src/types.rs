//! Polynomial representations, key types and the error taxonomy.
//!
//! Three polynomial forms are used: `IntPoly` (dense, signed 16-bit
//! coefficients), `TernPoly` (sparse ternary, index sets for the +1 and -1
//! coefficients) and `ProdPoly` (product form `f1*f2 + f3` of three sparse
//! ternary factors).  A private key holds either a ternary or a product-form
//! polynomial, expressed as the sum type `PrivPoly`.

use vstd::prelude::*;

verus! {

/// Largest supported number of polynomial coefficients over all parameter sets.
pub const MAX_DEGREE: usize = 1500;

/// Largest supported number of +1 (or -1) coefficients in a sparse ternary
/// polynomial.
pub const MAX_ONES: usize = 499;

/// The closed error taxonomy.  Every fallible operation of this crate reports
/// one of these values.
#[derive(Debug, PartialEq, Eq, Structural, Clone, Copy)]
pub enum Error {
    /// Out of memory.
    OutOfMemory,
    /// The random number generator failed or was exhausted.
    Prng,
    /// The message is longer than the parameter set allows.
    MessageTooLong,
    /// The declared message capacity exceeds the parameter set's bound.
    InvalidMaxLength,
    /// The minimum-symbol-count (dm0) padding check failed on decryption.
    Md0Violation,
    /// The zero padding of a decrypted message was not all zero.
    NoZeroPad,
    /// The ciphertext or an imported value is not a valid encoding.
    InvalidEncoding,
    /// A required argument was absent.
    NullArgument,
    /// The parameter set is not one of the built-in sets.
    UnknownParamSet,
    /// A parameter value is invalid.
    InvalidParam,
    /// The key is invalid.
    InvalidKey,
}

impl Error {
    /// A short human-readable description of the error.
    pub fn description(&self) -> String {
        match *self {
            Error::OutOfMemory => "Out of memory error.".to_owned(),
            Error::Prng => "Error in the random number generator.".to_owned(),
            Error::MessageTooLong => "Message is too long.".to_owned(),
            Error::InvalidMaxLength => "Invalid maximum length.".to_owned(),
            Error::Md0Violation => "MD0 violation.".to_owned(),
            Error::NoZeroPad => "No zero pad.".to_owned(),
            Error::InvalidEncoding => "Invalid encoding of the message.".to_owned(),
            Error::NullArgument => "Null argument.".to_owned(),
            Error::UnknownParamSet => "Unknown parameter set.".to_owned(),
            Error::InvalidParam => "Invalid parameter.".to_owned(),
            Error::InvalidKey => "Invalid key.".to_owned(),
        }
    }
}

/// The cyclic index `(k - j) mod n`: the position of the factor of `a` that
/// multiplies `b[j]` in coefficient `k` of the product `a*b mod (x^n - 1)`.
pub open spec fn cyc(n: int, k: int, j: int) -> int {
    (k - j) % n
}

/// Partial cyclic-convolution sum: the contributions of `b[0..j]` to
/// coefficient `k` of `a*b mod (x^n - 1)`, where `n == a.len()`.
pub open spec fn conv_partial(a: Seq<int>, b: Seq<int>, k: int, j: nat) -> int
    decreases j,
{
    if j == 0 {
        0
    } else {
        conv_partial(a, b, k, (j - 1) as nat) + a[cyc(a.len() as int, k, j - 1)] * b[j - 1]
    }
}

/// Coefficient `k` of the full cyclic convolution `a*b mod (x^n - 1)`.
pub open spec fn conv_at(a: Seq<int>, b: Seq<int>, k: int) -> int {
    conv_partial(a, b, k, b.len())
}

/// Sum of `a` at the cyclic shifts given by the first `m` indices of `idxs`:
/// the contribution of a sparse operand's `+1` (or `-1`) positions to
/// coefficient `k` of a product.
pub open spec fn shift_sum(a: Seq<int>, idxs: Seq<u16>, k: int, m: nat) -> int
    decreases m,
{
    if m == 0 {
        0
    } else {
        shift_sum(a, idxs, k, (m - 1) as nat) + a[cyc(a.len() as int, k, idxs[m - 1] as int)]
    }
}

/// Coefficient `k` of the product of `a` with the sparse ternary polynomial
/// whose `+1` positions are `ones` and whose `-1` positions are `neg_ones`.
pub open spec fn tern_conv_at(a: Seq<int>, ones: Seq<u16>, neg_ones: Seq<u16>, k: int) -> int {
    shift_sum(a, ones, k, ones.len()) - shift_sum(a, neg_ones, k, neg_ones.len())
}

/// The magnitude of a shift sum is bounded by the number of its terms times
/// the coefficient bound.
pub proof fn lemma_shift_sum_bound(a: Seq<int>, idxs: Seq<u16>, k: int, m: nat)
    requires
        a.len() >= 1,
        forall|i: int| 0 <= i < a.len() ==> -0x8000 <= #[trigger] a[i] <= 0x7FFF,
        m <= idxs.len(),
    ensures
        -0x8000 * m <= shift_sum(a, idxs, k, m) <= 0x7FFF * m,
    decreases m,
{
    if m > 0 {
        lemma_shift_sum_bound(a, idxs, k, (m - 1) as nat);
        let n = a.len() as int;
        assert(0 <= cyc(n, k, idxs[m - 1] as int) < n) by {
            vstd::arithmetic::div_mod::lemma_mod_bound(k - idxs[m - 1] as int, n);
        }
    }
}

/// Membership in a pushed sequence: the new element, or membership in the
/// old one.
pub proof fn lemma_seq_has_push(s: Seq<u16>, v: u16, j: int)
    ensures
        seq_has(s.push(v), j) == (seq_has(s, j) || v == j),
{
    if seq_has(s.push(v), j) {
        let i = choose|i: int| 0 <= i < s.push(v).len() && s.push(v)[i] == j;
        if i < s.len() {
            assert(s[i] == j);
        }
    }
    if seq_has(s, j) {
        let i = choose|i: int| 0 <= i < s.len() && s[i] == j;
        assert(s.push(v)[i] == j);
    }
    if v == j {
        assert(s.push(v)[s.len() as int] == j);
    }
}

/// The polynomial `1`: leading coefficient one, all others zero.
pub open spec fn is_one_poly(s: Seq<int>) -> bool {
    &&& s.len() >= 1
    &&& s[0] == 1
    &&& forall|i: int| 1 <= i < s.len() ==> s[i] == 0
}

/// Two coefficient sequences agree modulo `m`.
pub open spec fn eq_mod(a: Seq<int>, b: Seq<int>, m: int) -> bool {
    &&& a.len() == b.len()
    &&& forall|i: int| 0 <= i < a.len() ==> (a[i] - b[i]) % m == 0
}

/// A polynomial with integer coefficients, dense representation.
///
/// The number of coefficients (the ring degree `N`) is the length of
/// `coeffs`; ring operations act modulo `x^N - 1`.
#[derive(Debug)]
pub struct IntPoly {
    /// The coefficients; index `i` holds the coefficient of `x^i`.
    pub coeffs: Vec<i16>,
}

impl Clone for IntPoly {
    fn clone(&self) -> (r: IntPoly)
        ensures
            r@ == self@,
    {
        let mut v: Vec<i16> = Vec::new();
        let n = self.coeffs.len();
        let mut i: usize = 0;
        while i < n
            invariant
                n == self.coeffs@.len(),
                i <= n,
                v@.len() == i,
                forall|j: int| 0 <= j < i ==> v@[j] == self.coeffs@[j],
            decreases n - i,
        {
            v.push(self.coeffs[i]);
            i += 1;
        }
        let r = IntPoly { coeffs: v };
        assert(r@ =~= self@);
        r
    }
}

impl View for IntPoly {
    type V = Seq<int>;

    open spec fn view(&self) -> Seq<int> {
        Seq::new(self.coeffs@.len(), |i: int| self.coeffs@[i] as int)
    }
}

impl PartialEq for IntPoly {
    fn eq(&self, other: &IntPoly) -> (r: bool) {
        if self.coeffs.len() != other.coeffs.len() {
            return false;
        }
        let n = self.coeffs.len();
        let mut i: usize = 0;
        while i < n
            invariant
                n == self.coeffs@.len(),
                n == other.coeffs@.len(),
                i <= n,
                forall|j: int| 0 <= j < i ==> self.coeffs@[j] == other.coeffs@[j],
            decreases n - i,
        {
            if self.coeffs[i] != other.coeffs[i] {
                assert(self@[i as int] != other@[i as int]);
                return false;
            }
            i += 1;
        }
        assert(self@ =~= other@);
        true
    }
}

impl vstd::std_specs::cmp::PartialEqSpecImpl for IntPoly {
    open spec fn obeys_eq_spec() -> bool {
        true
    }

    open spec fn eq_spec(&self, other: &IntPoly) -> bool {
        self@ == other@
    }
}

impl IntPoly {
    /// Create a polynomial from a coefficient slice.
    pub fn new(coeffs: &[i16]) -> (r: IntPoly)
        ensures
            r@.len() == coeffs@.len(),
            forall|i: int| 0 <= i < coeffs@.len() ==> r@[i] == coeffs@[i] as int,
    {
        let mut v: Vec<i16> = Vec::new();
        let mut i: usize = 0;
        while i < coeffs.len()
            invariant
                i <= coeffs@.len(),
                v@.len() == i,
                forall|j: int| 0 <= j < i ==> v@[j] == coeffs@[j],
            decreases coeffs@.len() - i,
        {
            v.push(coeffs[i]);
            i += 1;
        }
        IntPoly { coeffs: v }
    }

    /// The coefficients, in order.
    pub fn get_coeffs(&self) -> (r: &Vec<i16>)
        ensures
            r@.len() == self@.len(),
            forall|i: int| 0 <= i < self@.len() ==> r@[i] as int == self@[i],
    {
        &self.coeffs
    }

    /// Replace the coefficients.
    pub fn set_coeffs(&mut self, coeffs: &[i16])
        ensures
            final(self)@.len() == coeffs@.len(),
            forall|i: int| 0 <= i < coeffs@.len() ==> final(self)@[i] == coeffs@[i] as int,
    {
        let p = IntPoly::new(coeffs);
        self.coeffs = p.coeffs;
    }

    /// Set a single coefficient.
    pub fn set_coeff(&mut self, index: usize, value: i16)
        requires
            index < old(self)@.len(),
        ensures
            final(self)@ == old(self)@.update(index as int, value as int),
    {
        self.coeffs.set(index, value);
        assert(final(self)@ =~= old(self)@.update(index as int, value as int));
    }

    /// Reduce every coefficient modulo `mod_mask + 1`, into `[0, mod_mask]`.
    ///
    /// `mod_mask` is the modulus minus one (`q - 1` for a power-of-two `q`).
    pub fn mod_mask(&mut self, mod_mask: u16)
        requires
            1 <= mod_mask as int + 1 <= 0x7FFF,
        ensures
            final(self)@.len() == old(self)@.len(),
            forall|i: int|
                0 <= i < old(self)@.len() ==> final(self)@[i] == old(self)@[i] % (
                mod_mask as int + 1),
    {
        let m: i32 = mod_mask as i32 + 1;
        let n = self.coeffs.len();
        let mut i: usize = 0;
        while i < n
            invariant
                n == self.coeffs@.len(),
                n == old(self)@.len(),
                1 <= m <= 0x8000,
                m == mod_mask as int + 1,
                i <= n,
                forall|j: int| i <= j < n ==> self.coeffs@[j] == old(self)@[j],
                forall|j: int| 0 <= j < i ==> self.coeffs@[j] as int == old(self)@[j] % (m as int),
            decreases n - i,
        {
            let c = reduce(self.coeffs[i] as i32, m);
            self.coeffs.set(i, c as i16);
            i += 1;
        }
    }

    /// Multiply every coefficient by `factor`.
    pub fn mult_fac(&mut self, factor: i16)
        requires
            forall|i: int|
                0 <= i < old(self)@.len() ==> -0x8000 <= #[trigger] old(self)@[i] * factor
                    <= 0x7FFF,
        ensures
            final(self)@.len() == old(self)@.len(),
            forall|i: int|
                0 <= i < old(self)@.len() ==> final(self)@[i] == old(self)@[i] * factor,
    {
        let n = self.coeffs.len();
        let mut i: usize = 0;
        while i < n
            invariant
                n == self.coeffs@.len(),
                n == old(self)@.len(),
                i <= n,
                forall|j: int| i <= j < n ==> self.coeffs@[j] == old(self)@[j],
                forall|j: int|
                    0 <= j < old(self)@.len() ==> -0x8000 <= #[trigger] old(self)@[j] * factor
                        <= 0x7FFF,
                forall|j: int| 0 <= j < i ==> self.coeffs@[j] as int == old(self)@[j] * factor,
            decreases n - i,
        {
            assert(self.coeffs@[i as int] == old(self)@[i as int]);
            assert(-0x8000 <= old(self)@[i as int] * factor <= 0x7FFF);
            let c: i32 = self.coeffs[i] as i32 * factor as i32;
            self.coeffs.set(i, c as i16);
            i += 1;
        }
    }

    /// Center-reduce every coefficient modulo `modulus`, into
    /// `(-modulus/2, modulus/2]`.
    pub fn mod_center(&mut self, modulus: u16)
        requires
            2 <= modulus <= 0x7FFF,
        ensures
            final(self)@.len() == old(self)@.len(),
            forall|i: int| #![auto]
                0 <= i < old(self)@.len() ==> final(self)@[i] == (if old(self)@[i] % (
                    modulus as int
                ) > modulus as int / 2 {
                    old(self)@[i] % (modulus as int) - modulus as int
                } else {
                    old(self)@[i] % (modulus as int)
                }),
    {
        let m: i32 = modulus as i32;
        let n = self.coeffs.len();
        let mut i: usize = 0;
        while i < n
            invariant
                n == self.coeffs@.len(),
                n == old(self)@.len(),
                2 <= m <= 0x7FFF,
                m == modulus as int,
                i <= n,
                forall|j: int| i <= j < n ==> self.coeffs@[j] == old(self)@[j],
                forall|j: int| #![auto]
                    0 <= j < i ==> self.coeffs@[j] as int == (if old(self)@[j] % (m as int) > m
                        as int / 2 {
                        old(self)@[j] % (m as int) - m as int
                    } else {
                        old(self)@[j] % (m as int)
                    }),
            decreases n - i,
        {
            let c = reduce(self.coeffs[i] as i32, m);
            let c = if c > m / 2 {
                c - m
            } else {
                c
            };
            self.coeffs.set(i, c as i16);
            i += 1;
        }
    }

    /// Reduce every coefficient modulo 3, into `{0, 1, 2}`.
    pub fn mod3(&mut self)
        ensures
            final(self)@.len() == old(self)@.len(),
            forall|i: int| 0 <= i < old(self)@.len() ==> final(self)@[i] == old(self)@[i] % 3,
    {
        let n = self.coeffs.len();
        let mut i: usize = 0;
        while i < n
            invariant
                n == self.coeffs@.len(),
                n == old(self)@.len(),
                i <= n,
                forall|j: int| i <= j < n ==> self.coeffs@[j] == old(self)@[j],
                forall|j: int| 0 <= j < i ==> self.coeffs@[j] as int == old(self)@[j] % 3,
            decreases n - i,
        {
            let c = reduce(self.coeffs[i] as i32, 3);
            self.coeffs.set(i, c as i16);
            i += 1;
        }
    }

    /// Add `b` coefficientwise, unreduced.
    pub fn add(&mut self, b: &IntPoly)
        requires
            old(self)@.len() == b@.len(),
            forall|i: int|
                0 <= i < old(self)@.len() ==> -0x8000 <= #[trigger] (old(self)@[i] + b@[i])
                    <= 0x7FFF,
        ensures
            final(self)@.len() == old(self)@.len(),
            forall|i: int| 0 <= i < old(self)@.len() ==> final(self)@[i] == old(self)@[i] + b@[i],
    {
        let n = self.coeffs.len();
        let mut i: usize = 0;
        while i < n
            invariant
                n == self.coeffs@.len(),
                n == old(self)@.len(),
                n == b@.len(),
                i <= n,
                forall|j: int| i <= j < n ==> self.coeffs@[j] == old(self)@[j],
                forall|j: int|
                    0 <= j < n ==> -0x8000 <= #[trigger] (old(self)@[j] + b@[j]) <= 0x7FFF,
                forall|j: int| 0 <= j < i ==> self.coeffs@[j] as int == old(self)@[j] + b@[j],
            decreases n - i,
        {
            let c: i32 = self.coeffs[i] as i32 + b.coeffs[i] as i32;
            self.coeffs.set(i, c as i16);
            i += 1;
        }
    }

    /// Subtract `b` coefficientwise, unreduced.
    pub fn sub(&mut self, b: &IntPoly)
        requires
            old(self)@.len() == b@.len(),
            forall|i: int|
                0 <= i < old(self)@.len() ==> -0x8000 <= #[trigger] (old(self)@[i] - b@[i])
                    <= 0x7FFF,
        ensures
            final(self)@.len() == old(self)@.len(),
            forall|i: int| 0 <= i < old(self)@.len() ==> final(self)@[i] == old(self)@[i] - b@[i],
    {
        let n = self.coeffs.len();
        let mut i: usize = 0;
        while i < n
            invariant
                n == self.coeffs@.len(),
                n == old(self)@.len(),
                n == b@.len(),
                i <= n,
                forall|j: int| i <= j < n ==> self.coeffs@[j] == old(self)@[j],
                forall|j: int|
                    0 <= j < n ==> -0x8000 <= #[trigger] (old(self)@[j] - b@[j]) <= 0x7FFF,
                forall|j: int| 0 <= j < i ==> self.coeffs@[j] as int == old(self)@[j] - b@[j],
            decreases n - i,
        {
            let c: i32 = self.coeffs[i] as i32 - b.coeffs[i] as i32;
            self.coeffs.set(i, c as i16);
            i += 1;
        }
    }

    /// Whether `self` and `other` are equal coefficientwise modulo `modulus`.
    pub fn equals_mod(&self, other: &IntPoly, modulus: u16) -> (r: bool)
        requires
            1 <= modulus <= 0x8000,
        ensures
            r == eq_mod(self@, other@, modulus as int),
    {
        if self.coeffs.len() != other.coeffs.len() {
            return false;
        }
        let n = self.coeffs.len();
        let mut i: usize = 0;
        while i < n
            invariant
                n == self@.len(),
                n == other@.len(),
                1 <= modulus <= 0x8000,
                i <= n,
                forall|j: int| 0 <= j < i ==> (self@[j] - other@[j]) % (modulus as int) == 0,
            decreases n - i,
        {
            let d: i32 = self.coeffs[i] as i32 - other.coeffs[i] as i32;
            if reduce(d, modulus as i32) != 0 {
                assert((self@[i as int] - other@[i as int]) % (modulus as int) != 0);
                return false;
            }
            i += 1;
        }
        true
    }

    /// Add a ternary polynomial, unreduced.
    pub fn add_tern(&self, b: &TernPoly) -> (r: IntPoly)
        requires
            b.wf(),
            self@.len() == b.n as int,
            forall|i: int| 0 <= i < self@.len() ==> -0x7FFF <= #[trigger] self@[i] <= 0x7FFE,
        ensures
            r@.len() == self@.len(),
            forall|i: int| 0 <= i < self@.len() ==> r@[i] == self@[i] + b@[i],
    {
        let n = self.coeffs.len();
        let mut v: Vec<i16> = Vec::new();
        let mut i: usize = 0;
        while i < n
            invariant
                n == self@.len(),
                i <= n,
                v@.len() == i,
                forall|j: int| 0 <= j < i ==> v@[j] as int == self@[j],
            decreases n - i,
        {
            v.push(self.coeffs[i]);
            i += 1;
        }
        proof {
            assert(b.ones@.subrange(0, 0) =~= Seq::<u16>::empty());
        }
        let num_ones = b.ones.len();
        let mut t: usize = 0;
        while t < num_ones
            invariant
                b.wf(),
                n == self@.len(),
                n == b.n as int,
                forall|i: int| 0 <= i < n ==> -0x7FFF <= #[trigger] self@[i] <= 0x7FFE,
                num_ones == b.ones@.len(),
                t <= num_ones,
                v@.len() == n,
                forall|j: int|
                    0 <= j < n ==> v@[j] as int == self@[j] + (if seq_has(
                        b.ones@.subrange(0, t as int),
                        j,
                    ) {
                        1int
                    } else {
                        0int
                    }),
            decreases num_ones - t,
        {
            let idx = b.ones[t] as usize;
            let ghost pre = b.ones@.subrange(0, t as int);
            let ghost post = b.ones@.subrange(0, t as int + 1);
            proof {
                assert(!seq_has(pre, idx as int));
                assert(0 <= t < post.len() && post[t as int] == idx as int);
                assert(seq_has(post, idx as int));
                assert(forall|j: int| seq_has(pre, j) ==> seq_has(post, j));
                assert(forall|j: int|
                    seq_has(post, j) && j != idx as int ==> seq_has(pre, j));
            }
            let c: i16 = v[idx] + 1;
            v.set(idx, c);
            t += 1;
        }
        proof {
            assert(b.ones@.subrange(0, b.ones@.len() as int) =~= b.ones@);
            assert(b.neg_ones@.subrange(0, 0) =~= Seq::<u16>::empty());
        }
        let num_negs = b.neg_ones.len();
        let mut t: usize = 0;
        while t < num_negs
            invariant
                b.wf(),
                n == self@.len(),
                n == b.n as int,
                forall|i: int| 0 <= i < n ==> -0x7FFF <= #[trigger] self@[i] <= 0x7FFE,
                num_negs == b.neg_ones@.len(),
                t <= num_negs,
                v@.len() == n,
                forall|j: int|
                    0 <= j < n ==> v@[j] as int == self@[j] + (if seq_has(b.ones@, j) {
                        1int
                    } else if seq_has(b.neg_ones@.subrange(0, t as int), j) {
                        -1int
                    } else {
                        0int
                    }),
            decreases num_negs - t,
        {
            let idx = b.neg_ones[t] as usize;
            let ghost pre = b.neg_ones@.subrange(0, t as int);
            let ghost post = b.neg_ones@.subrange(0, t as int + 1);
            proof {
                assert(!seq_has(pre, idx as int));
                assert(!seq_has(b.ones@, idx as int));
                assert(0 <= t < post.len() && post[t as int] == idx as int);
                assert(seq_has(post, idx as int));
                assert(forall|j: int| seq_has(pre, j) ==> seq_has(post, j));
                assert(forall|j: int|
                    seq_has(post, j) && j != idx as int ==> seq_has(pre, j));
            }
            let c: i16 = v[idx] - 1;
            v.set(idx, c);
            t += 1;
        }
        proof {
            assert(b.neg_ones@.subrange(0, b.neg_ones@.len() as int) =~= b.neg_ones@);
        }
        IntPoly { coeffs: v }
    }

    /// Full cyclic-convolution product with another dense polynomial, with
    /// every output coefficient reduced modulo `mod_mask + 1`.
    ///
    /// The second component is false when the operand degrees differ (or are
    /// zero); the product is then meaningless.
    pub fn mult_int(&self, b: &IntPoly, mod_mask: u16) -> (r: (IntPoly, bool))
        requires
            self@.len() <= MAX_DEGREE,
            1 <= mod_mask as int + 1 <= 0x7FFF,
        ensures
            r.1 == (self@.len() == b@.len() && self@.len() >= 1),
            r.1 ==> r.0@.len() == self@.len(),
            r.1 ==> forall|k: int|
                0 <= k < self@.len() ==> r.0@[k] == conv_at(self@, b@, k) % (mod_mask as int + 1),
    {
        if self.coeffs.len() != b.coeffs.len() || self.coeffs.len() == 0 {
            return (IntPoly { coeffs: Vec::new() }, false);
        }
        let n = self.coeffs.len();
        let m: i64 = mod_mask as i64 + 1;
        let mut out: Vec<i16> = Vec::new();
        let mut k: usize = 0;
        while k < n
            invariant
                n == self@.len(),
                n == b@.len(),
                1 <= n <= MAX_DEGREE,
                1 <= m <= 0x8000,
                m == mod_mask as int + 1,
                k <= n,
                out@.len() == k,
                forall|k2: int|
                    0 <= k2 < k ==> out@[k2] as int == conv_at(self@, b@, k2) % (m as int),
            decreases n - k,
        {
            let mut acc: i64 = 0;
            let mut j: usize = 0;
            while j < n
                invariant
                    n == self@.len(),
                    n == b@.len(),
                    1 <= n <= MAX_DEGREE,
                    k < n,
                    j <= n,
                    acc == conv_partial(self@, b@, k as int, j as nat),
                    -0x40000000 * (j as int) <= acc <= 0x40000000 * (j as int),
                decreases n - j,
            {
                let idx = (k + n - j) % n;
                proof {
                    vstd::arithmetic::div_mod::lemma_mod_multiples_vanish(
                        1,
                        k as int - j as int,
                        n as int,
                    );
                    assert((k + n - j) as int == n as int * 1 + (k as int - j as int));
                    assert(idx as int == cyc(n as int, k as int, j as int));
                }
                proof {
                    assert(-0x40000000 <= self.coeffs@[idx as int] as int * b.coeffs@[j as int]
                        as int <= 0x40000000) by (nonlinear_arith)
                        requires
                            -0x8000 <= self.coeffs@[idx as int] as int <= 0x7FFF,
                            -0x8000 <= b.coeffs@[j as int] as int <= 0x7FFF,
                    ;
                }
                let prod: i64 = self.coeffs[idx] as i64 * b.coeffs[j] as i64;
                acc = acc + prod;
                j += 1;
            }
            out.push(reduce64(acc, m) as i16);
            k += 1;
        }
        let r = IntPoly { coeffs: out };
        (r, true)
    }

    /// Product with a sparse ternary polynomial: for each `+1` index the
    /// cyclically shifted copy of `self` is added, for each `-1` index
    /// subtracted, and the result is reduced modulo `mod_mask + 1`.
    ///
    /// The second component is false when the operand degrees differ; the
    /// product is then meaningless.
    pub fn mult_tern(&self, b: &TernPoly, mod_mask: u16) -> (r: (IntPoly, bool))
        requires
            self@.len() <= MAX_DEGREE,
            1 <= mod_mask as int + 1 <= 0x7FFF,
            b.wf(),
        ensures
            r.1 == (self@.len() == b.n as int),
            r.1 ==> r.0@.len() == self@.len(),
            r.1 ==> forall|k: int|
                0 <= k < self@.len() ==> r.0@[k] == tern_conv_at(self@, b.ones@, b.neg_ones@, k)
                    % (mod_mask as int + 1),
    {
        if self.coeffs.len() != b.n as usize {
            return (IntPoly { coeffs: Vec::new() }, false);
        }
        let n = self.coeffs.len();
        let mut w: Vec<i32> = Vec::new();
        let mut i: usize = 0;
        while i < n
            invariant
                i <= n,
                w@.len() == i,
                forall|j: int| 0 <= j < i ==> w@[j] == 0,
            decreases n - i,
        {
            w.push(0);
            i += 1;
        }
        let num_ones = b.ones.len();
        let mut t: usize = 0;
        while t < num_ones
            invariant
                b.wf(),
                n == self@.len(),
                n == b.n as int,
                1 <= n <= MAX_DEGREE,
                num_ones == b.ones@.len(),
                t <= num_ones,
                w@.len() == n,
                forall|k: int|
                    0 <= k < n ==> w@[k] as int == shift_sum(self@, b.ones@, k, t as nat),
            decreases num_ones - t,
        {
            let s = b.ones[t] as usize;
            let mut k: usize = 0;
            while k < n
                invariant
                    b.wf(),
                    n == self@.len(),
                    n == b.n as int,
                    1 <= n <= MAX_DEGREE,
                    t < num_ones,
                    num_ones == b.ones@.len(),
                    s == b.ones@[t as int] as int,
                    s < n,
                    k <= n,
                    w@.len() == n,
                    forall|k2: int|
                        0 <= k2 < k ==> w@[k2] as int == shift_sum(
                            self@,
                            b.ones@,
                            k2,
                            t as nat + 1,
                        ),
                    forall|k2: int|
                        k <= k2 < n ==> w@[k2] as int == shift_sum(self@, b.ones@, k2, t as nat),
                decreases n - k,
            {
                let idx = (k + n - s) % n;
                proof {
                    vstd::arithmetic::div_mod::lemma_mod_multiples_vanish(
                        1,
                        k as int - s as int,
                        n as int,
                    );
                    assert((k + n - s) as int == n as int * 1 + (k as int - s as int));
                    assert(idx as int == cyc(n as int, k as int, b.ones@[t as int] as int));
                    lemma_shift_sum_bound(self@, b.ones@, k as int, t as nat);
                }
                let c: i32 = w[k] + self.coeffs[idx] as i32;
                w.set(k, c);
                k += 1;
            }
            t += 1;
        }
        let num_negs = b.neg_ones.len();
        let mut t: usize = 0;
        while t < num_negs
            invariant
                b.wf(),
                n == self@.len(),
                n == b.n as int,
                1 <= n <= MAX_DEGREE,
                num_negs == b.neg_ones@.len(),
                t <= num_negs,
                w@.len() == n,
                forall|k: int|
                    0 <= k < n ==> w@[k] as int == shift_sum(self@, b.ones@, k, b.ones@.len())
                        - shift_sum(self@, b.neg_ones@, k, t as nat),
            decreases num_negs - t,
        {
            let s = b.neg_ones[t] as usize;
            let mut k: usize = 0;
            while k < n
                invariant
                    b.wf(),
                    n == self@.len(),
                    n == b.n as int,
                    1 <= n <= MAX_DEGREE,
                    t < num_negs,
                    num_negs == b.neg_ones@.len(),
                    s == b.neg_ones@[t as int] as int,
                    s < n,
                    k <= n,
                    w@.len() == n,
                    forall|k2: int|
                        0 <= k2 < k ==> w@[k2] as int == shift_sum(self@, b.ones@, k2, b.ones@.len())
                            - shift_sum(self@, b.neg_ones@, k2, t as nat + 1),
                    forall|k2: int|
                        k <= k2 < n ==> w@[k2] as int == shift_sum(
                            self@,
                            b.ones@,
                            k2,
                            b.ones@.len(),
                        ) - shift_sum(self@, b.neg_ones@, k2, t as nat),
                decreases n - k,
            {
                let idx = (k + n - s) % n;
                proof {
                    vstd::arithmetic::div_mod::lemma_mod_multiples_vanish(
                        1,
                        k as int - s as int,
                        n as int,
                    );
                    assert((k + n - s) as int == n as int * 1 + (k as int - s as int));
                    assert(idx as int == cyc(n as int, k as int, b.neg_ones@[t as int] as int));
                    lemma_shift_sum_bound(self@, b.ones@, k as int, b.ones@.len());
                    lemma_shift_sum_bound(self@, b.neg_ones@, k as int, t as nat);
                }
                let c: i32 = w[k] - self.coeffs[idx] as i32;
                w.set(k, c);
                k += 1;
            }
            t += 1;
        }
        let m: i32 = mod_mask as i32 + 1;
        let mut out: Vec<i16> = Vec::new();
        let mut k: usize = 0;
        while k < n
            invariant
                b.wf(),
                n == self@.len(),
                n == b.n as int,
                1 <= m <= 0x8000,
                m == mod_mask as int + 1,
                k <= n,
                w@.len() == n,
                forall|k2: int|
                    0 <= k2 < n ==> w@[k2] as int == tern_conv_at(self@, b.ones@, b.neg_ones@, k2),
                out@.len() == k,
                forall|k2: int|
                    0 <= k2 < k ==> out@[k2] as int == tern_conv_at(self@, b.ones@, b.neg_ones@, k2)
                        % (m as int),
            decreases n - k,
        {
            proof {
                lemma_shift_sum_bound(self@, b.ones@, k as int, b.ones@.len());
                lemma_shift_sum_bound(self@, b.neg_ones@, k as int, b.neg_ones@.len());
            }
            out.push(reduce(w[k], m) as i16);
            k += 1;
        }
        (IntPoly { coeffs: out }, true)
    }

    /// Whether the polynomial equals the constant `1`.
    pub fn equals1(&self) -> (r: bool)
        ensures
            r == is_one_poly(self@),
    {
        if self.coeffs.len() == 0 {
            return false;
        }
        if self.coeffs[0] != 1 {
            return false;
        }
        let n = self.coeffs.len();
        let mut i: usize = 1;
        while i < n
            invariant
                n == self@.len(),
                1 <= i <= n,
                self@[0] == 1,
                forall|j: int| 1 <= j < i ==> self@[j] == 0,
            decreases n - i,
        {
            if self.coeffs[i] != 0 {
                assert(self@[i as int] != 0);
                return false;
            }
            i += 1;
        }
        true
    }
}

/// Whether the sequence holds the value `v`.
pub open spec fn seq_has(s: Seq<u16>, v: int) -> bool {
    exists|i: int| 0 <= i < s.len() && s[i] == v
}

/// Whether the sequence holds no value twice.
pub open spec fn seq_distinct(s: Seq<u16>) -> bool {
    forall|i: int, j: int| 0 <= i < j < s.len() ==> s[i] != s[j]
}

/// Whether the two sequences hold no value in common.
pub open spec fn seq_disjoint(a: Seq<u16>, b: Seq<u16>) -> bool {
    forall|i: int, j: int| 0 <= i < a.len() && 0 <= j < b.len() ==> a[i] != b[j]
}

/// A ternary polynomial: every coefficient is -1, 0, or 1, held sparsely as
/// the sets of indices with coefficient +1 (`ones`) and -1 (`neg_ones`).
#[derive(Debug)]
pub struct TernPoly {
    /// The number of coefficients `N`.
    pub n: u16,
    /// Indices of the `+1` coefficients.
    pub ones: Vec<u16>,
    /// Indices of the `-1` coefficients.
    pub neg_ones: Vec<u16>,
}

impl View for TernPoly {
    type V = Seq<int>;

    /// The dense coefficient sequence.
    open spec fn view(&self) -> Seq<int> {
        Seq::new(
            self.n as nat,
            |j: int|
                if seq_has(self.ones@, j) {
                    1
                } else if seq_has(self.neg_ones@, j) {
                    -1
                } else {
                    0
                },
        )
    }
}

impl Clone for TernPoly {
    fn clone(&self) -> (r: TernPoly)
        ensures
            r.n == self.n,
            r.ones@ == self.ones@,
            r.neg_ones@ == self.neg_ones@,
            r@ == self@,
            r.wf() == self.wf(),
    {
        let r = TernPoly {
            n: self.n,
            ones: clone_u16_vec(&self.ones),
            neg_ones: clone_u16_vec(&self.neg_ones),
        };
        r
    }
}

impl PartialEq for TernPoly {
    fn eq(&self, other: &TernPoly) -> (r: bool) {
        self.n == other.n && eq_u16_vec(&self.ones, &other.ones) && eq_u16_vec(
            &self.neg_ones,
            &other.neg_ones,
        )
    }
}

impl vstd::std_specs::cmp::PartialEqSpecImpl for TernPoly {
    open spec fn obeys_eq_spec() -> bool {
        true
    }

    open spec fn eq_spec(&self, other: &TernPoly) -> bool {
        self.n == other.n && self.ones@ == other.ones@ && self.neg_ones@ == other.neg_ones@
    }
}

impl TernPoly {
    /// Structural invariant: indices in range, no duplicates, the `+1` and
    /// `-1` index sets disjoint, and the total weight at most `N`.
    pub open spec fn wf(&self) -> bool {
        &&& 1 <= self.n as int <= MAX_DEGREE
        &&& self.ones@.len() <= MAX_ONES
        &&& self.neg_ones@.len() <= MAX_ONES
        &&& self.ones@.len() + self.neg_ones@.len() <= self.n as int
        &&& forall|i: int| 0 <= i < self.ones@.len() ==> #[trigger] self.ones@[i] < self.n
        &&& forall|i: int| 0 <= i < self.neg_ones@.len() ==> #[trigger] self.neg_ones@[i] < self.n
        &&& seq_distinct(self.ones@)
        &&& seq_distinct(self.neg_ones@)
        &&& seq_disjoint(self.ones@, self.neg_ones@)
    }

    /// Create a ternary polynomial from its `+1` and `-1` index sets.
    pub fn new(n: u16, ones: &[u16], neg_ones: &[u16]) -> (r: TernPoly)
        requires
            1 <= n as int <= MAX_DEGREE,
            ones@.len() <= MAX_ONES,
            neg_ones@.len() <= MAX_ONES,
            ones@.len() + neg_ones@.len() <= n as int,
            forall|i: int| 0 <= i < ones@.len() ==> #[trigger] ones@[i] < n,
            forall|i: int| 0 <= i < neg_ones@.len() ==> #[trigger] neg_ones@[i] < n,
            seq_distinct(ones@),
            seq_distinct(neg_ones@),
            seq_disjoint(ones@, neg_ones@),
        ensures
            r.wf(),
            r.n == n,
            r.ones@ == ones@,
            r.neg_ones@ == neg_ones@,
    {
        TernPoly { n, ones: copy_u16_slice(ones), neg_ones: copy_u16_slice(neg_ones) }
    }

    /// The number of coefficients.
    pub fn get_n(&self) -> (r: u16)
        ensures
            r == self.n,
    {
        self.n
    }

    /// The indices of the `+1` coefficients.
    pub fn get_ones(&self) -> (r: &Vec<u16>)
        ensures
            r@ == self.ones@,
    {
        &self.ones
    }

    /// The indices of the `-1` coefficients.
    pub fn get_neg_ones(&self) -> (r: &Vec<u16>)
        ensures
            r@ == self.neg_ones@,
    {
        &self.neg_ones
    }

    /// Convert to the equivalent dense polynomial.
    pub fn to_int_poly(&self) -> (r: IntPoly)
        requires
            self.wf(),
        ensures
            r@ == self@,
    {
        let n = self.n as usize;
        let mut v: Vec<i16> = Vec::new();
        let mut i: usize = 0;
        while i < n
            invariant
                i <= n,
                v@.len() == i,
                forall|j: int| 0 <= j < i ==> v@[j] == 0,
            decreases n - i,
        {
            v.push(0);
            i += 1;
        }
        let num_ones = self.ones.len();
        let mut t: usize = 0;
        while t < num_ones
            invariant
                self.wf(),
                n == self.n as int,
                num_ones == self.ones@.len(),
                t <= num_ones,
                v@.len() == n,
                forall|j: int|
                    0 <= j < n ==> v@[j] as int == (if seq_has(
                        self.ones@.subrange(0, t as int),
                        j,
                    ) {
                        1int
                    } else {
                        0int
                    }),
            decreases num_ones - t,
        {
            let idx = self.ones[t] as usize;
            let ghost pre = self.ones@.subrange(0, t as int);
            let ghost post = self.ones@.subrange(0, t as int + 1);
            v.set(idx, 1);
            proof {
                assert(forall|j: int| seq_has(pre, j) ==> seq_has(post, j));
                assert(0 <= t < post.len() && post[t as int] == idx as int);
                assert(seq_has(post, idx as int));
                assert(forall|j: int|
                    seq_has(post, j) && j != idx as int ==> seq_has(pre, j));
            }
            t += 1;
        }
        proof {
            assert(self.ones@.subrange(0, self.ones@.len() as int) =~= self.ones@);
            assert(self.neg_ones@.subrange(0, 0) =~= Seq::<u16>::empty());
        }
        let num_negs = self.neg_ones.len();
        let mut t: usize = 0;
        while t < num_negs
            invariant
                self.wf(),
                n == self.n as int,
                num_negs == self.neg_ones@.len(),
                t <= num_negs,
                v@.len() == n,
                forall|j: int|
                    0 <= j < n ==> v@[j] as int == (if seq_has(self.ones@, j) {
                        1int
                    } else if seq_has(self.neg_ones@.subrange(0, t as int), j) {
                        -1int
                    } else {
                        0int
                    }),
            decreases num_negs - t,
        {
            let idx = self.neg_ones[t] as usize;
            let ghost pre = self.neg_ones@.subrange(0, t as int);
            let ghost post = self.neg_ones@.subrange(0, t as int + 1);
            v.set(idx, -1);
            proof {
                assert(forall|j: int| seq_has(pre, j) ==> seq_has(post, j));
                assert(0 <= t < post.len() && post[t as int] == idx as int);
                assert(seq_has(post, idx as int));
                assert(forall|j: int|
                    seq_has(post, j) && j != idx as int ==> seq_has(pre, j));
                assert(!seq_has(self.ones@, idx as int));
            }
            t += 1;
        }
        proof {
            assert(self.neg_ones@.subrange(0, self.neg_ones@.len() as int) =~= self.neg_ones@);
        }
        let r = IntPoly { coeffs: v };
        assert(r@ =~= self@);
        r
    }
}

/// A product-form polynomial `f1*f2 + f3` of three sparse ternary factors of
/// equal degree: a cheaper-to-multiply private-key form.
#[derive(Debug)]
pub struct ProdPoly {
    /// The number of coefficients `N`.
    pub n: u16,
    /// First factor.
    pub f1: TernPoly,
    /// Second factor.
    pub f2: TernPoly,
    /// Additive part.
    pub f3: TernPoly,
}

/// Coefficient `k` of the polynomial a product-form polynomial represents,
/// with the inner product reduced modulo `q`:
/// `(f1*f2 mod q) + f3` at position `k`.
pub open spec fn prod_poly_coeff(p: &ProdPoly, q: int, k: int) -> int {
    tern_conv_at(p.f1@, p.f2.ones@, p.f2.neg_ones@, k) % q + p.f3@[k]
}

/// Coefficient `k` of `a` multiplied by a product-form polynomial, each
/// partial product reduced modulo `q`: `((a*f1 mod q)*f2 mod q) + (a*f3 mod
/// q), mod q`.
pub open spec fn prod_conv_at(a: Seq<int>, p: &ProdPoly, q: int, k: int) -> int {
    let u1 = Seq::new(a.len(), |j: int| tern_conv_at(a, p.f1.ones@, p.f1.neg_ones@, j) % q);
    let u2 = tern_conv_at(u1, p.f2.ones@, p.f2.neg_ones@, k) % q;
    let u3 = tern_conv_at(a, p.f3.ones@, p.f3.neg_ones@, k) % q;
    (u2 + u3) % q
}

impl Clone for ProdPoly {
    fn clone(&self) -> (r: ProdPoly)
        ensures
            r.n == self.n,
            r.f1.n == self.f1.n && r.f1.ones@ == self.f1.ones@ && r.f1.neg_ones@
                == self.f1.neg_ones@,
            r.f2.n == self.f2.n && r.f2.ones@ == self.f2.ones@ && r.f2.neg_ones@
                == self.f2.neg_ones@,
            r.f3.n == self.f3.n && r.f3.ones@ == self.f3.ones@ && r.f3.neg_ones@
                == self.f3.neg_ones@,
            r.wf() == self.wf(),
    {
        ProdPoly {
            n: self.n,
            f1: self.f1.clone(),
            f2: self.f2.clone(),
            f3: self.f3.clone(),
        }
    }
}

impl PartialEq for ProdPoly {
    fn eq(&self, other: &ProdPoly) -> (r: bool) {
        self.n == other.n && self.f1 == other.f1 && self.f2 == other.f2 && self.f3 == other.f3
    }
}

impl vstd::std_specs::cmp::PartialEqSpecImpl for ProdPoly {
    open spec fn obeys_eq_spec() -> bool {
        true
    }

    open spec fn eq_spec(&self, other: &ProdPoly) -> bool {
        &&& self.n == other.n
        &&& self.f1.n == other.f1.n && self.f1.ones@ == other.f1.ones@ && self.f1.neg_ones@
            == other.f1.neg_ones@
        &&& self.f2.n == other.f2.n && self.f2.ones@ == other.f2.ones@ && self.f2.neg_ones@
            == other.f2.neg_ones@
        &&& self.f3.n == other.f3.n && self.f3.ones@ == other.f3.ones@ && self.f3.neg_ones@
            == other.f3.neg_ones@
    }
}

impl ProdPoly {
    /// Structural invariant: the three factors are well formed and share the
    /// degree `N`.
    pub open spec fn wf(&self) -> bool {
        &&& self.f1.wf()
        &&& self.f2.wf()
        &&& self.f3.wf()
        &&& self.f1.n == self.n
        &&& self.f2.n == self.n
        &&& self.f3.n == self.n
    }

    /// Create a product-form polynomial from its three factors.
    pub fn new(n: u16, f1: TernPoly, f2: TernPoly, f3: TernPoly) -> (r: ProdPoly)
        requires
            f1.wf(),
            f2.wf(),
            f3.wf(),
            f1.n == n,
            f2.n == n,
            f3.n == n,
        ensures
            r.wf(),
            r.n == n,
            r.f1 == f1,
            r.f2 == f2,
            r.f3 == f3,
    {
        ProdPoly { n, f1, f2, f3 }
    }

    /// Convert to the equivalent dense polynomial, the inner product `f1*f2`
    /// reduced modulo `modulus`.
    pub fn to_int_poly(&self, modulus: u16) -> (r: IntPoly)
        requires
            self.wf(),
            2 <= modulus as int <= 0x7FFF,
        ensures
            r@.len() == self.n as int,
            forall|k: int|
                0 <= k < self.n as int ==> r@[k] == prod_poly_coeff(self, modulus as int, k),
    {
        let a = self.f1.to_int_poly();
        let (b, ok) = a.mult_tern(&self.f2, modulus - 1);
        assert(ok);
        let r = b.add_tern(&self.f3);
        r
    }
}

/// A private-key polynomial: either sparse ternary or product form.
#[derive(Debug)]
pub enum PrivPoly {
    /// Sparse ternary form.
    Ternary(TernPoly),
    /// Product form `f1*f2 + f3`.
    Product(ProdPoly),
}

/// The weight that identifies a private-key polynomial during catalog
/// lookup: the number of `+1` coefficients of `t` (of `f1` in product form).
pub open spec fn priv_df1(p: &PrivPoly) -> int {
    match p {
        PrivPoly::Ternary(t) => t.ones@.len() as int,
        PrivPoly::Product(pp) => pp.f1.ones@.len() as int,
    }
}

/// The degree `N` of a private-key polynomial.
pub open spec fn priv_deg(p: &PrivPoly) -> int {
    match p {
        PrivPoly::Ternary(t) => t.n as int,
        PrivPoly::Product(pp) => pp.n as int,
    }
}

/// The dense coefficients of `1 + 3*a` for a private-key polynomial `a`, the
/// product form's inner product reduced modulo `q`.
pub open spec fn one_plus_three_seq(p: &PrivPoly, q: int) -> Seq<int> {
    match p {
        PrivPoly::Ternary(t) => Seq::new(
            t.n as nat,
            |i: int|
                3 * t@[i] + if i == 0 {
                    1int
                } else {
                    0int
                },
        ),
        PrivPoly::Product(pp) => Seq::new(
            pp.n as nat,
            |i: int|
                3 * prod_poly_coeff(pp, q, i) + if i == 0 {
                    1int
                } else {
                    0int
                },
        ),
    }
}

/// Whether `fq` is an inverse of `1 + 3*a` modulo `q` in the ring
/// `Z_q[x]/(x^N - 1)`: their cyclic convolution is congruent to the
/// polynomial `1`.
pub open spec fn invert_ok(p: &PrivPoly, fq: Seq<int>, q: int) -> bool {
    &&& fq.len() == priv_deg(p)
    &&& forall|k: int| #![auto]
        0 <= k < fq.len() ==> (conv_at(one_plus_three_seq(p, q), fq, k) - (if k == 0 {
            1int
        } else {
            0int
        })) % q == 0
}

impl Clone for PrivPoly {
    fn clone(&self) -> (r: PrivPoly)
        ensures
            r.is_product() == self.is_product(),
            r.is_product() ==> {
                let a = self.get_prod_spec();
                let b = r.get_prod_spec();
                b.n == a.n && b.f1.n == a.f1.n && b.f1.ones@ == a.f1.ones@ && b.f1.neg_ones@
                    == a.f1.neg_ones@ && b.f2.n == a.f2.n && b.f2.ones@ == a.f2.ones@
                    && b.f2.neg_ones@ == a.f2.neg_ones@ && b.f3.n == a.f3.n && b.f3.ones@
                    == a.f3.ones@ && b.f3.neg_ones@ == a.f3.neg_ones@
            },
            !r.is_product() ==> {
                let a = self.get_tern_spec();
                let b = r.get_tern_spec();
                b.n == a.n && b.ones@ == a.ones@ && b.neg_ones@ == a.neg_ones@
            },
            r.wf() == self.wf(),
    {
        match self {
            PrivPoly::Ternary(t) => PrivPoly::Ternary(t.clone()),
            PrivPoly::Product(p) => PrivPoly::Product(p.clone()),
        }
    }
}

impl PrivPoly {
    /// Structural invariant of the held polynomial.
    pub open spec fn wf(&self) -> bool {
        match self {
            PrivPoly::Ternary(t) => t.wf(),
            PrivPoly::Product(p) => p.wf(),
        }
    }

    /// Whether the polynomial is in product form (spec view).
    pub open spec fn is_product_spec(&self) -> bool {
        match self {
            PrivPoly::Ternary(_) => false,
            PrivPoly::Product(_) => true,
        }
    }

    /// The held product-form polynomial (spec view).
    pub open spec fn get_prod_spec(&self) -> &ProdPoly
        recommends
            self.is_product(),
    {
        match self {
            PrivPoly::Ternary(_) => arbitrary(),
            PrivPoly::Product(p) => p,
        }
    }

    /// The held ternary polynomial (spec view).
    pub open spec fn get_tern_spec(&self) -> &TernPoly
        recommends
            !self.is_product(),
    {
        match self {
            PrivPoly::Ternary(t) => t,
            PrivPoly::Product(_) => arbitrary(),
        }
    }

    /// Wrap a product-form polynomial.
    pub fn new_with_prod_poly(poly: ProdPoly) -> (r: PrivPoly)
        ensures
            r == PrivPoly::Product(poly),
    {
        PrivPoly::Product(poly)
    }

    /// Wrap a ternary polynomial.
    pub fn new_with_tern_poly(poly: TernPoly) -> (r: PrivPoly)
        ensures
            r == PrivPoly::Ternary(poly),
    {
        PrivPoly::Ternary(poly)
    }

    /// Whether the polynomial is in product form.
    #[verifier::when_used_as_spec(is_product_spec)]
    pub fn is_product(&self) -> (r: bool)
        ensures
            r == self.is_product_spec(),
    {
        match self {
            PrivPoly::Ternary(_) => false,
            PrivPoly::Product(_) => true,
        }
    }

    /// The held product-form polynomial.  The polynomial must be in product
    /// form; the original aborted here otherwise, so the caller must check
    /// `is_product` first.
    pub fn get_poly_prod(&self) -> (r: &ProdPoly)
        requires
            self.is_product(),
        ensures
            r == self.get_prod_spec(),
    {
        match self {
            PrivPoly::Ternary(_) => unreached(),
            PrivPoly::Product(p) => p,
        }
    }

    /// The held ternary polynomial.  The polynomial must be in ternary form;
    /// the original aborted here otherwise, so the caller must check
    /// `is_product` first.
    pub fn get_poly_tern(&self) -> (r: &TernPoly)
        requires
            !self.is_product(),
        ensures
            r == self.get_tern_spec(),
    {
        match self {
            PrivPoly::Ternary(t) => t,
            PrivPoly::Product(_) => unreached(),
        }
    }
}

impl IntPoly {
    /// Product with a product-form polynomial, computed as
    /// `((a*f1)*f2) + (a*f3)` with each partial product reduced modulo
    /// `mod_mask + 1`, avoiding a dense `f1*f2` intermediate.
    ///
    /// The second component is false when the operand degrees differ; the
    /// product is then meaningless.
    pub fn mult_prod(&self, b: &ProdPoly, mod_mask: u16) -> (r: (IntPoly, bool))
        requires
            self@.len() <= MAX_DEGREE,
            1 <= mod_mask as int + 1 <= 0x4000,
            b.wf(),
        ensures
            r.1 == (self@.len() == b.n as int),
            r.1 ==> r.0@.len() == self@.len(),
            r.1 ==> forall|k: int|
                0 <= k < self@.len() ==> r.0@[k] == prod_conv_at(
                    self@,
                    b,
                    mod_mask as int + 1,
                    k,
                ),
    {
        if self.coeffs.len() != b.n as usize {
            return (IntPoly { coeffs: Vec::new() }, false);
        }
        let ghost q = mod_mask as int + 1;
        let ghost n = self@.len() as int;
        let (c1, ok1) = self.mult_tern(&b.f1, mod_mask);
        assert(ok1);
        let ghost u1 = Seq::new(
            self@.len(),
            |j: int| tern_conv_at(self@, b.f1.ones@, b.f1.neg_ones@, j) % q,
        );
        proof {
            assert(c1@ =~= u1);
        }
        let (mut c2, ok2) = c1.mult_tern(&b.f2, mod_mask);
        assert(ok2);
        let (c3, ok3) = self.mult_tern(&b.f3, mod_mask);
        assert(ok3);
        proof {
            assert forall|k: int| 0 <= k < n implies 0 <= #[trigger] c2@[k] < q && 0 <= c3@[k]
                < q by {
                vstd::arithmetic::div_mod::lemma_mod_bound(
                    tern_conv_at(u1, b.f2.ones@, b.f2.neg_ones@, k),
                    q,
                );
                vstd::arithmetic::div_mod::lemma_mod_bound(
                    tern_conv_at(self@, b.f3.ones@, b.f3.neg_ones@, k),
                    q,
                );
            }
        }
        c2.add(&c3);
        c2.mod_mask(mod_mask);
        (c2, true)
    }

    /// Product with a private-key polynomial, dispatching on its form.
    ///
    /// The second component is false when the operand degrees differ; the
    /// product is then meaningless.
    pub fn mult_priv(&self, b: &PrivPoly, mod_mask: u16) -> (r: (IntPoly, bool))
        requires
            self@.len() <= MAX_DEGREE,
            1 <= mod_mask as int + 1 <= 0x4000,
            b.wf(),
        ensures
            r.1 == (self@.len() == priv_deg(b)),
            r.1 ==> r.0@.len() == self@.len(),
            r.1 && b.is_product() ==> forall|k: int|
                0 <= k < self@.len() ==> r.0@[k] == prod_conv_at(
                    self@,
                    b.get_prod_spec(),
                    mod_mask as int + 1,
                    k,
                ),
            r.1 && !b.is_product() ==> forall|k: int|
                0 <= k < self@.len() ==> r.0@[k] == tern_conv_at(
                    self@,
                    b.get_tern_spec().ones@,
                    b.get_tern_spec().neg_ones@,
                    k,
                ) % (mod_mask as int + 1),
    {
        match b {
            PrivPoly::Ternary(t) => self.mult_tern(t, mod_mask),
            PrivPoly::Product(p) => self.mult_prod(p, mod_mask),
        }
    }
}

impl PrivPoly {
    /// Inverse of `1 + 3*a` modulo `mod_mask + 1` (a power of two), by the
    /// almost-inverse algorithm: invert modulo 2, then double the precision
    /// each round up to the full modulus.  The candidate is verified by a
    /// final ring multiplication, so a true second component certifies the
    /// inverse.
    ///
    /// A false second component means the polynomial was not certified
    /// invertible; the caller resamples and retries.
    pub fn invert(&self, mod_mask: u16) -> (r: (IntPoly, bool))
        requires
            self.wf(),
            3 <= mod_mask as int,
            mod_mask as int + 1 <= 0x1000,
        ensures
            r.1 ==> r.0@.len() == priv_deg(self),
            r.1 ==> invert_ok(self, r.0@, mod_mask as int + 1),
    {
        let ghost q = mod_mask as int + 1;
        let n: usize = match self {
            PrivPoly::Ternary(t) => t.n as usize,
            PrivPoly::Product(p) => p.n as usize,
        };
        // f = 1 + 3a, dense
        let mut f_int: IntPoly = match self {
            PrivPoly::Ternary(t) => t.to_int_poly(),
            PrivPoly::Product(p) => p.to_int_poly(mod_mask + 1),
        };
        proof {
            assert(f_int@.len() == n);
            match self {
                PrivPoly::Ternary(t) => {
                    assert(forall|i: int| 0 <= i < n ==> -1 <= #[trigger] f_int@[i] <= 1);
                },
                PrivPoly::Product(p) => {
                    assert forall|i: int| 0 <= i < n implies -1 <= #[trigger] f_int@[i]
                        <= q by {
                        vstd::arithmetic::div_mod::lemma_mod_bound(
                            tern_conv_at(p.f1@, p.f2.ones@, p.f2.neg_ones@, i),
                            q,
                        );
                    }
                },
            }
            assert(forall|i: int|
                0 <= i < n ==> -0x8000 <= #[trigger] f_int@[i] * 3 <= 0x7FFF);
        }
        f_int.mult_fac(3);
        let c0 = f_int.coeffs[0];
        proof {
            assert(c0 as int == f_int@[0]);
        }
        f_int.set_coeff(0, c0 + 1);
        proof {
            assert(f_int@ =~= one_plus_three_seq(self, q));
        }
        // Almost-inverse stage, modulo 2.
        let mut fv: Vec<u8> = zero_u8_vec(n + 1);
        let mut gv: Vec<u8> = zero_u8_vec(n + 1);
        let mut bv: Vec<u8> = zero_u8_vec(n + 1);
        let mut cv: Vec<u8> = zero_u8_vec(n + 1);
        let mut i: usize = 0;
        while i < n
            invariant
                n == f_int@.len(),
                i <= n,
                fv@.len() == n + 1,
            decreases n - i,
        {
            let b2 = reduce(f_int.coeffs[i] as i32, 2);
            fv.set(i, b2 as u8);
            i += 1;
        }
        gv.set(0, 1);
        gv.set(n, 1);
        bv.set(0, 1);
        let mut k: usize = 0;
        let mut success = false;
        let fuel = 4 * n + 8;
        let mut it: usize = 0;
        while it < fuel
            invariant
                1 <= n <= MAX_DEGREE,
                fv@.len() == n + 1,
                gv@.len() == n + 1,
                bv@.len() == n + 1,
                cv@.len() == n + 1,
                it <= fuel,
                fuel == 4 * n + 8,
                k <= it,
            decreases fuel - it,
        {
            if fv[0] == 0 {
                // f(x) <- f(x)/x, c(x) <- c(x)*x
                let mut j: usize = 0;
                while j < n
                    invariant
                        fv@.len() == n + 1,
                        j <= n,
                    decreases n - j,
                {
                    let t = fv[j + 1];
                    fv.set(j, t);
                    j += 1;
                }
                fv.set(n, 0);
                let mut j: usize = n;
                while j >= 1
                    invariant
                        cv@.len() == n + 1,
                        j <= n,
                    decreases j,
                {
                    let t = cv[j - 1];
                    cv.set(j, t);
                    j -= 1;
                }
                cv.set(0, 0);
                k += 1;
                if is_zero_u8(&fv) {
                    return (IntPoly { coeffs: Vec::new() }, false);
                }
                if k > 2 * n {
                    return (IntPoly { coeffs: Vec::new() }, false);
                }
            } else if is_one_u8(&fv) {
                success = true;
                break ;
            } else {
                if deg_u8(&fv) < deg_u8(&gv) {
                    let tmp = fv;
                    fv = gv;
                    gv = tmp;
                    let tmp2 = bv;
                    bv = cv;
                    cv = tmp2;
                }
                add_mod2(&mut fv, &gv);
                add_mod2(&mut bv, &cv);
            }
            it += 1;
        }
        if !success {
            return (IntPoly { coeffs: Vec::new() }, false);
        }
        if bv[n] != 0 {
            return (IntPoly { coeffs: Vec::new() }, false);
        }
        // Fq(x) = x^(N-k) * b(x)
        let kk = k % n;
        let mut fq_c: Vec<i16> = Vec::new();
        let mut i: usize = 0;
        while i < n
            invariant
                i <= n,
                fq_c@.len() == i,
            decreases n - i,
        {
            fq_c.push(0);
            i += 1;
        }
        let mut i: usize = 0;
        while i < n
            invariant
                1 <= n <= MAX_DEGREE,
                kk < n,
                bv@.len() == n + 1,
                i <= n,
                fq_c@.len() == n,
            decreases n - i,
        {
            let j = (i + n - kk) % n;
            fq_c.set(j, bv[i] as i16);
            i += 1;
        }
        let mut fq = IntPoly { coeffs: fq_c };
        // Lift the inverse modulo 2 to an inverse modulo q by doubling the
        // precision each round: fq <- fq * (2 - f*fq).
        let q_u32: u32 = mod_mask as u32 + 1;
        let mut v: u32 = 2;
        let mut it2: usize = 0;
        while v < q_u32 && it2 < 16
            invariant
                1 <= n <= MAX_DEGREE,
                n == f_int@.len(),
                fq@.len() == n,
                q_u32 == mod_mask as int + 1,
                4 <= q_u32 <= 0x1000,
                v <= 0x1000000,
                it2 <= 16,
            decreases 16 - it2,
        {
            it2 += 1;
            proof {
                assert(v as int * v as int <= 0x1000000) by (nonlinear_arith)
                    requires
                        v < 0x1000,
                ;
            }
            v = v * v;
            let (t1, ok) = f_int.mult_int(&fq, mod_mask);
            if !ok {
                return (IntPoly { coeffs: Vec::new() }, false);
            }
            let mut t2: Vec<i16> = Vec::new();
            let mut i: usize = 0;
            while i < n
                invariant
                    n == t1@.len(),
                    1 <= mod_mask as int + 1 <= 0x1000,
                    i <= n,
                    t2@.len() == i,
                decreases n - i,
            {
                let raw: i32 = if i == 0 {
                    2 - t1.coeffs[i] as i32
                } else {
                    -(t1.coeffs[i] as i32)
                };
                let red = reduce(raw, mod_mask as i32 + 1);
                t2.push(red as i16);
                i += 1;
            }
            let t2p = IntPoly { coeffs: t2 };
            let (newfq, ok2) = fq.mult_int(&t2p, mod_mask);
            if !ok2 {
                return (IntPoly { coeffs: Vec::new() }, false);
            }
            fq = newfq;
        }
        // Certify the candidate: (1 + 3a) * fq must reduce to 1 modulo q.
        let (prod, okp) = f_int.mult_int(&fq, mod_mask);
        if !okp {
            return (IntPoly { coeffs: Vec::new() }, false);
        }
        if prod.equals1() {
            proof {
                assert forall|kx: int| 0 <= kx < fq@.len() implies (conv_at(
                    one_plus_three_seq(self, q),
                    fq@,
                    kx,
                ) - (if kx == 0 {
                    1int
                } else {
                    0int
                })) % q == 0 by {
                    let conv = conv_at(one_plus_three_seq(self, q), fq@, kx);
                    let onek: int = if kx == 0 {
                        1int
                    } else {
                        0int
                    };
                    assert(prod@[kx] == conv % q);
                    assert(conv % q == onek);
                    vstd::arithmetic::div_mod::lemma_sub_mod_noop(conv, onek, q);
                    vstd::arithmetic::div_mod::lemma_small_mod(onek as nat, q as nat);
                    vstd::arithmetic::div_mod::lemma_small_mod(0nat, q as nat);
                }
            }
            (fq, true)
        } else {
            (IntPoly { coeffs: Vec::new() }, false)
        }
    }
}

/// A vector of `len` zero bytes.
fn zero_u8_vec(len: usize) -> (r: Vec<u8>)
    ensures
        r@.len() == len,
        forall|i: int| 0 <= i < len ==> r@[i] == 0,
{
    let mut v: Vec<u8> = Vec::new();
    let mut i: usize = 0;
    while i < len
        invariant
            i <= len,
            v@.len() == i,
            forall|j: int| 0 <= j < i ==> v@[j] == 0,
        decreases len - i,
    {
        v.push(0);
        i += 1;
    }
    v
}

/// Whether every byte is zero.
fn is_zero_u8(v: &Vec<u8>) -> (r: bool)
    ensures
        r == (forall|i: int| 0 <= i < v@.len() ==> v@[i] == 0),
{
    let mut i: usize = 0;
    while i < v.len()
        invariant
            i <= v@.len(),
            forall|j: int| 0 <= j < i ==> v@[j] == 0,
        decreases v@.len() - i,
    {
        if v[i] != 0 {
            return false;
        }
        i += 1;
    }
    true
}

/// Whether the byte vector is the constant-one polynomial.
fn is_one_u8(v: &Vec<u8>) -> (r: bool)
    requires
        v@.len() >= 1,
{
    if v[0] != 1 {
        return false;
    }
    let mut i: usize = 1;
    while i < v.len()
        invariant
            1 <= i <= v@.len(),
        decreases v@.len() - i,
    {
        if v[i] != 0 {
            return false;
        }
        i += 1;
    }
    true
}

/// The degree of a bit polynomial: the largest index with a nonzero entry.
fn deg_u8(v: &Vec<u8>) -> (r: usize)
    requires
        v@.len() >= 1,
    ensures
        r < v@.len(),
{
    let mut d: usize = v.len() - 1;
    while d > 0
        invariant
            d < v@.len(),
        decreases d,
    {
        if v[d] != 0 {
            return d;
        }
        d -= 1;
    }
    d
}

/// Coefficientwise addition modulo 2 of bit polynomials: `a <- a + b`.
fn add_mod2(a: &mut Vec<u8>, b: &Vec<u8>)
    requires
        old(a)@.len() == b@.len(),
    ensures
        final(a)@.len() == old(a)@.len(),
{
    let n = a.len();
    let mut i: usize = 0;
    while i < n
        invariant
            n == a@.len(),
            n == b@.len(),
            i <= n,
        decreases n - i,
    {
        let c: u8 = if a[i] == b[i] {
            0
        } else {
            1
        };
        a.set(i, c);
        i += 1;
    }
}

/// Structural equality of private polynomials.
pub open spec fn priv_poly_eq(a: &PrivPoly, b: &PrivPoly) -> bool {
    match (a, b) {
        (PrivPoly::Ternary(x), PrivPoly::Ternary(y)) => x.n == y.n && x.ones@ == y.ones@
            && x.neg_ones@ == y.neg_ones@,
        (PrivPoly::Product(x), PrivPoly::Product(y)) => {
            &&& x.n == y.n
            &&& x.f1.n == y.f1.n && x.f1.ones@ == y.f1.ones@ && x.f1.neg_ones@ == y.f1.neg_ones@
            &&& x.f2.n == y.f2.n && x.f2.ones@ == y.f2.ones@ && x.f2.neg_ones@ == y.f2.neg_ones@
            &&& x.f3.n == y.f3.n && x.f3.ones@ == y.f3.ones@ && x.f3.neg_ones@ == y.f3.neg_ones@
        },
        _ => false,
    }
}

impl PartialEq for PrivPoly {
    fn eq(&self, other: &PrivPoly) -> (r: bool) {
        match (self, other) {
            (PrivPoly::Ternary(a), PrivPoly::Ternary(b)) => a == b,
            (PrivPoly::Product(a), PrivPoly::Product(b)) => a == b,
            _ => false,
        }
    }
}

impl vstd::std_specs::cmp::PartialEqSpecImpl for PrivPoly {
    open spec fn obeys_eq_spec() -> bool {
        true
    }

    open spec fn eq_spec(&self, other: &PrivPoly) -> bool {
        priv_poly_eq(self, other)
    }
}

/// NTRU encryption private key: the modulus and the private polynomial.
#[derive(Debug)]
pub struct PrivateKey {
    /// The modulus.
    pub q: u16,
    /// The private polynomial `t`; the key decrypts with `f = 1 + 3t`.
    pub t: PrivPoly,
}

impl PartialEq for PrivateKey {
    fn eq(&self, other: &PrivateKey) -> (r: bool) {
        self.q == other.q && self.t == other.t
    }
}

impl vstd::std_specs::cmp::PartialEqSpecImpl for PrivateKey {
    open spec fn obeys_eq_spec() -> bool {
        true
    }

    open spec fn eq_spec(&self, other: &PrivateKey) -> bool {
        self.q == other.q && priv_poly_eq(&self.t, &other.t)
    }
}

impl Clone for PrivateKey {
    fn clone(&self) -> (r: PrivateKey)
        ensures
            r.q == self.q,
            r.t.is_product() == self.t.is_product(),
            r.wf() == self.wf(),
            priv_deg(&r.t) == priv_deg(&self.t),
    {
        PrivateKey { q: self.q, t: self.t.clone() }
    }
}

impl PrivateKey {
    /// Structural invariant.
    pub open spec fn wf(&self) -> bool {
        &&& self.t.wf()
        &&& 4 <= self.q <= 4096
    }

    /// The modulus.
    pub fn get_q(&self) -> (r: u16)
        ensures
            r == self.q,
    {
        self.q
    }

    /// The private polynomial.
    pub fn get_t(&self) -> (r: &PrivPoly)
        ensures
            r == self.t,
    {
        &self.t
    }

    /// Find the built-in parameter set this key was generated under, by its
    /// degree, modulus, form and weight.
    pub fn get_params(&self) -> (r: Result<crate::encparams::EncParams, Error>)
        requires
            self.t.wf(),
        ensures
            r is Ok <==> crate::encparams::catalog_has(
                priv_deg(&self.t),
                self.q as int,
                self.t.is_product(),
                priv_df1(&self.t),
            ),
            r is Err ==> r == Result::<crate::encparams::EncParams, Error>::Err(
                Error::UnknownParamSet,
            ),
            r is Ok ==> {
                &&& r->Ok_0.wf()
                &&& crate::encparams::is_catalog_set(r->Ok_0)
                &&& r->Ok_0.n as int == priv_deg(&self.t)
                &&& r->Ok_0.q == self.q
                &&& (r->Ok_0.prod_flag == 1) == self.t.is_product()
                &&& r->Ok_0.df1 as int == priv_df1(&self.t)
            },
    {
        let n: u16 = match &self.t {
            PrivPoly::Ternary(t) => t.n,
            PrivPoly::Product(p) => p.n,
        };
        proof {
            assert(n as int == priv_deg(&self.t));
        }
        let prod: bool = self.t.is_product();
        let df1: u16 = match &self.t {
            PrivPoly::Ternary(t) => t.ones.len() as u16,
            PrivPoly::Product(p) => p.f1.ones.len() as u16,
        };
        proof {
            assert(df1 as int == priv_df1(&self.t));
        }
    let s = crate::encparams::ees401ep1();
    if s.n == n && s.q == self.q && (s.prod_flag == 1) == prod && s.df1 == df1 {
        return Ok(s);
    }
    let s = crate::encparams::ees449ep1();
    if s.n == n && s.q == self.q && (s.prod_flag == 1) == prod && s.df1 == df1 {
        return Ok(s);
    }
    let s = crate::encparams::ees677ep1();
    if s.n == n && s.q == self.q && (s.prod_flag == 1) == prod && s.df1 == df1 {
        return Ok(s);
    }
    let s = crate::encparams::ees1087ep2();
    if s.n == n && s.q == self.q && (s.prod_flag == 1) == prod && s.df1 == df1 {
        return Ok(s);
    }
    let s = crate::encparams::ees541ep1();
    if s.n == n && s.q == self.q && (s.prod_flag == 1) == prod && s.df1 == df1 {
        return Ok(s);
    }
    let s = crate::encparams::ees613ep1();
    if s.n == n && s.q == self.q && (s.prod_flag == 1) == prod && s.df1 == df1 {
        return Ok(s);
    }
    let s = crate::encparams::ees887ep1();
    if s.n == n && s.q == self.q && (s.prod_flag == 1) == prod && s.df1 == df1 {
        return Ok(s);
    }
    let s = crate::encparams::ees1171ep1();
    if s.n == n && s.q == self.q && (s.prod_flag == 1) == prod && s.df1 == df1 {
        return Ok(s);
    }
    let s = crate::encparams::ees659ep1();
    if s.n == n && s.q == self.q && (s.prod_flag == 1) == prod && s.df1 == df1 {
        return Ok(s);
    }
    let s = crate::encparams::ees761ep1();
    if s.n == n && s.q == self.q && (s.prod_flag == 1) == prod && s.df1 == df1 {
        return Ok(s);
    }
    let s = crate::encparams::ees1087ep1();
    if s.n == n && s.q == self.q && (s.prod_flag == 1) == prod && s.df1 == df1 {
        return Ok(s);
    }
    let s = crate::encparams::ees1499ep1();
    if s.n == n && s.q == self.q && (s.prod_flag == 1) == prod && s.df1 == df1 {
        return Ok(s);
    }
    let s = crate::encparams::ees401ep2();
    if s.n == n && s.q == self.q && (s.prod_flag == 1) == prod && s.df1 == df1 {
        return Ok(s);
    }
    let s = crate::encparams::ees439ep1();
    if s.n == n && s.q == self.q && (s.prod_flag == 1) == prod && s.df1 == df1 {
        return Ok(s);
    }
    let s = crate::encparams::ees443ep1();
    if s.n == n && s.q == self.q && (s.prod_flag == 1) == prod && s.df1 == df1 {
        return Ok(s);
    }
    let s = crate::encparams::ees593ep1();
    if s.n == n && s.q == self.q && (s.prod_flag == 1) == prod && s.df1 == df1 {
        return Ok(s);
    }
    let s = crate::encparams::ees587ep1();
    if s.n == n && s.q == self.q && (s.prod_flag == 1) == prod && s.df1 == df1 {
        return Ok(s);
    }
    let s = crate::encparams::ees743ep1();
    if s.n == n && s.q == self.q && (s.prod_flag == 1) == prod && s.df1 == df1 {
        return Ok(s);
    }
        Err(Error::UnknownParamSet)
    }
}

/// NTRU encryption public key: the modulus and the public polynomial `h`.
#[derive(Debug)]
pub struct PublicKey {
    /// The modulus.
    pub q: u16,
    /// The public polynomial.
    pub h: IntPoly,
}

impl PartialEq for PublicKey {
    fn eq(&self, other: &PublicKey) -> (r: bool) {
        self.q == other.q && self.h == other.h
    }
}

impl vstd::std_specs::cmp::PartialEqSpecImpl for PublicKey {
    open spec fn obeys_eq_spec() -> bool {
        true
    }

    open spec fn eq_spec(&self, other: &PublicKey) -> bool {
        self.q == other.q && self.h@ == other.h@
    }
}

impl Clone for PublicKey {
    fn clone(&self) -> (r: PublicKey)
        ensures
            r.q == self.q,
            r.h@ == self.h@,
    {
        PublicKey { q: self.q, h: self.h.clone() }
    }
}

impl PublicKey {
    /// The modulus.
    pub fn get_q(&self) -> (r: u16)
        ensures
            r == self.q,
    {
        self.q
    }

    /// The public polynomial.
    pub fn get_h(&self) -> (r: &IntPoly)
        ensures
            r@ == self.h@,
    {
        &self.h
    }
}

/// An NTRU encryption key pair.
#[derive(Debug)]
pub struct KeyPair {
    /// The private key.
    pub private: PrivateKey,
    /// The public key.
    pub public: PublicKey,
}

impl PartialEq for KeyPair {
    fn eq(&self, other: &KeyPair) -> (r: bool) {
        self.private == other.private && self.public == other.public
    }
}

impl vstd::std_specs::cmp::PartialEqSpecImpl for KeyPair {
    open spec fn obeys_eq_spec() -> bool {
        true
    }

    open spec fn eq_spec(&self, other: &KeyPair) -> bool {
        &&& self.private.q == other.private.q
        &&& priv_poly_eq(&self.private.t, &other.private.t)
        &&& self.public.q == other.public.q
        &&& self.public.h@ == other.public.h@
    }
}

impl Clone for KeyPair {
    fn clone(&self) -> (r: KeyPair)
        ensures
            r.private.q == self.private.q,
            r.public.q == self.public.q,
            r.public.h@ == self.public.h@,
    {
        KeyPair { private: self.private.clone(), public: self.public.clone() }
    }
}

impl KeyPair {
    /// Pair a private key with a public key.
    pub fn new(private: PrivateKey, public: PublicKey) -> (r: KeyPair)
        ensures
            r.private == private,
            r.public == public,
    {
        KeyPair { private, public }
    }

    /// Find the built-in parameter set of the private key.
    pub fn get_params(&self) -> (r: Result<crate::encparams::EncParams, Error>)
        requires
            self.private.t.wf(),
        ensures
            r is Ok <==> crate::encparams::catalog_has(
                priv_deg(&self.private.t),
                self.private.q as int,
                self.private.t.is_product(),
                priv_df1(&self.private.t),
            ),
            r is Err ==> r == Result::<crate::encparams::EncParams, Error>::Err(
                Error::UnknownParamSet,
            ),
            r is Ok ==> {
                &&& r->Ok_0.wf()
                &&& crate::encparams::is_catalog_set(r->Ok_0)
                &&& r->Ok_0.n as int == priv_deg(&self.private.t)
                &&& r->Ok_0.q == self.private.q
                &&& (r->Ok_0.prod_flag == 1) == self.private.t.is_product()
                &&& r->Ok_0.df1 as int == priv_df1(&self.private.t)
            },
    {
        self.private.get_params()
    }

    /// The private key.
    pub fn get_private(&self) -> (r: &PrivateKey)
        ensures
            r == self.private,
    {
        &self.private
    }

    /// The public key.
    pub fn get_public(&self) -> (r: &PublicKey)
        ensures
            r == self.public,
    {
        &self.public
    }
}

/// Copy a `u16` slice into a fresh vector.
fn copy_u16_slice(s: &[u16]) -> (r: Vec<u16>)
    ensures
        r@ == s@,
{
    let mut v: Vec<u16> = Vec::new();
    let mut i: usize = 0;
    while i < s.len()
        invariant
            i <= s@.len(),
            v@.len() == i,
            forall|j: int| 0 <= j < i ==> v@[j] == s@[j],
        decreases s@.len() - i,
    {
        v.push(s[i]);
        i += 1;
    }
    assert(v@ =~= s@);
    v
}

/// Copy a `u16` vector.
fn clone_u16_vec(s: &Vec<u16>) -> (r: Vec<u16>)
    ensures
        r@ == s@,
{
    let mut v: Vec<u16> = Vec::new();
    let mut i: usize = 0;
    while i < s.len()
        invariant
            i <= s@.len(),
            v@.len() == i,
            forall|j: int| 0 <= j < i ==> v@[j] == s@[j],
        decreases s@.len() - i,
    {
        v.push(s[i]);
        i += 1;
    }
    assert(v@ =~= s@);
    v
}

/// Whether two `u16` vectors hold the same values.
fn eq_u16_vec(a: &Vec<u16>, b: &Vec<u16>) -> (r: bool)
    ensures
        r == (a@ == b@),
{
    if a.len() != b.len() {
        return false;
    }
    let n = a.len();
    let mut i: usize = 0;
    while i < n
        invariant
            n == a@.len(),
            n == b@.len(),
            i <= n,
            forall|j: int| 0 <= j < i ==> a@[j] == b@[j],
        decreases n - i,
    {
        if a[i] != b[i] {
            return false;
        }
        i += 1;
    }
    assert(a@ =~= b@);
    true
}

/// Reduce `c` into `[0, m)` modulo `m`, wide accumulator form.
fn reduce64(c: i64, m: i64) -> (r: i64)
    requires
        1 <= m <= 0x8000,
        -0x4000000000000000 <= c <= 0x3FFFFFFFFFFFFFFF,
    ensures
        r as int == (c as int) % (m as int),
        0 <= r < m,
{
    if c >= 0 {
        c % m
    } else {
        let a: i64 = -c;
        let u: i64 = a % m;
        proof {
            vstd::arithmetic::div_mod::lemma_fundamental_div_mod(a as int, m as int);
            let d = a as int / m as int;
            assert(a as int == m as int * d + u as int);
            assert(m as int * (-d) == -(m as int * d)) by (nonlinear_arith);
            assert(c as int == m as int * (-d) + (-(u as int)));
            if u == 0 {
                vstd::arithmetic::div_mod::lemma_mod_multiples_vanish(-d, 0, m as int);
            } else {
                assert(c as int == m as int * (-d - 1) + (m as int - u as int)) by (nonlinear_arith)
                    requires
                        c as int == m as int * (-d) + (-(u as int)),
                ;
                vstd::arithmetic::div_mod::lemma_mod_multiples_vanish(
                    -d - 1,
                    m as int - u as int,
                    m as int,
                );
                vstd::arithmetic::div_mod::lemma_small_mod(
                    (m - u) as nat,
                    m as nat,
                );
            }
        }
        if u == 0 {
            0
        } else {
            m - u
        }
    }
}

/// Reduce `c` into `{0, 1, 2}` modulo 3.
pub(crate) fn reduce_mod3(c: i32) -> (r: i32)
    requires
        -0x40000000 <= c <= 0x3FFFFFFF,
    ensures
        r as int == (c as int) % 3,
        0 <= r < 3,
{
    reduce(c, 3)
}

/// Reduce `c` into `[0, m)` modulo `m`.
pub(crate) fn reduce(c: i32, m: i32) -> (r: i32)
    requires
        1 <= m <= 0x8000,
        -0x40000000 <= c <= 0x3FFFFFFF,
    ensures
        r as int == (c as int) % (m as int),
        0 <= r < m,
{
    if c >= 0 {
        c % m
    } else {
        let a: i32 = -c;
        let u: i32 = a % m;
        proof {
            vstd::arithmetic::div_mod::lemma_fundamental_div_mod(a as int, m as int);
            let d = a as int / m as int;
            assert(a as int == m as int * d + u as int);
            assert(m as int * (-d) == -(m as int * d)) by (nonlinear_arith);
            assert(c as int == m as int * (-d) + (-(u as int)));
            if u == 0 {
                vstd::arithmetic::div_mod::lemma_mod_multiples_vanish(-d, 0, m as int);
            } else {
                assert(c as int == m as int * (-d - 1) + (m as int - u as int)) by (nonlinear_arith)
                    requires
                        c as int == m as int * (-d) + (-(u as int)),
                ;
                vstd::arithmetic::div_mod::lemma_mod_multiples_vanish(
                    -d - 1,
                    m as int - u as int,
                    m as int,
                );
                vstd::arithmetic::div_mod::lemma_small_mod(
                    (m - u) as nat,
                    m as nat,
                );
            }
        }
        if u == 0 {
            0
        } else {
            m - u
        }
    }
}

} // verus!
