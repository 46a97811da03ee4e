//! Natural numbers of unbounded size.
//!
//! A number is kept as a vector of 32-bit limbs, least significant first.
//! Every vector of limbs is a number: high zero limbs are allowed and do not
//! change the value, so the type carries no invariant. Results are trimmed of
//! high zero limbs only to keep them short.

use vstd::prelude::*;
use vstd::arithmetic::div_mod::{lemma_fundamental_div_mod, lemma_fundamental_div_mod_converse};
use vstd::arithmetic::power2::{lemma2_to64, lemma_pow2_unfold, pow2};

verus! {

/// The radix of one limb, 2^32.
pub open spec fn limb_base() -> nat {
    0x1_0000_0000
}

/// `limb_base()` raised to the power `n`.
pub open spec fn base_pow(n: nat) -> nat
    decreases n,
{
    if n == 0 {
        1
    } else {
        limb_base() * base_pow((n - 1) as nat)
    }
}

/// The limb at position `i`; positions past the end read as zero.
pub open spec fn limb_at(limbs: Seq<u32>, i: int) -> nat {
    if 0 <= i < limbs.len() {
        limbs[i] as nat
    } else {
        0
    }
}

/// The number written by the lowest `n` limbs.
pub open spec fn low_value(limbs: Seq<u32>, n: nat) -> nat
    decreases n,
{
    if n == 0 {
        0
    } else {
        low_value(limbs, (n - 1) as nat) + limb_at(limbs, n - 1) * base_pow((n - 1) as nat)
    }
}

/// The number written by a whole sequence of limbs, least significant first.
pub open spec fn limbs_value(limbs: Seq<u32>) -> nat {
    low_value(limbs, limbs.len())
}

/// The number written by the limbs from position `i` upward, taken on their own.
pub open spec fn high_value(limbs: Seq<u32>, i: nat) -> nat
    decreases limbs.len() - i,
{
    if i >= limbs.len() {
        0
    } else {
        limbs[i as int] as nat + limb_base() * high_value(limbs, i + 1)
    }
}

/// Every power of the base is positive.
pub proof fn lemma_base_pow_positive(n: nat)
    ensures
        base_pow(n) > 0,
    decreases n,
{
    if n > 0 {
        lemma_base_pow_positive((n - 1) as nat);
        let p = base_pow((n - 1) as nat);
        assert(limb_base() * p > 0) by (nonlinear_arith)
            requires
                p > 0,
                limb_base() > 0,
        ;
    }
}

/// The first powers of the base, written out.
pub proof fn lemma_base_pow_small()
    ensures
        base_pow(0) == 1,
        base_pow(1) == 0x1_0000_0000,
        base_pow(2) == 0x1_0000_0000_0000_0000,
        base_pow(3) == 0x1_0000_0000_0000_0000_0000_0000,
{
    reveal_with_fuel(base_pow, 4);
}

/// Two sequences that agree on their lowest `n` positions write the same
/// number there.
pub proof fn lemma_low_value_agree(a: Seq<u32>, b: Seq<u32>, n: nat)
    requires
        forall|i: int| 0 <= i < n ==> limb_at(a, i) == limb_at(b, i),
    ensures
        low_value(a, n) == low_value(b, n),
    decreases n,
{
    if n > 0 {
        lemma_low_value_agree(a, b, (n - 1) as nat);
    }
}

/// `n` limbs write a number below `limb_base()` to the `n`.
pub proof fn lemma_low_value_bound(a: Seq<u32>, n: nat)
    ensures
        low_value(a, n) < base_pow(n),
    decreases n,
{
    if n > 0 {
        lemma_low_value_bound(a, (n - 1) as nat);
        let p = base_pow((n - 1) as nat);
        let d = limb_at(a, n - 1);
        assert(d * p <= (limb_base() - 1) * p) by (nonlinear_arith)
            requires
                d <= limb_base() - 1,
                p >= 0,
        ;
        assert((limb_base() - 1) * p == limb_base() * p - p) by (nonlinear_arith);
    }
}

/// Positions past the end add nothing.
pub proof fn lemma_low_value_past_end(a: Seq<u32>, n: nat)
    requires
        n >= a.len(),
    ensures
        low_value(a, n) == limbs_value(a),
    decreases n,
{
    if n > a.len() {
        lemma_low_value_past_end(a, (n - 1) as nat);
        assert(limb_at(a, n - 1) == 0);
        assert(0 * base_pow((n - 1) as nat) == 0);
    }
}

/// The low part is monotone in the number of limbs taken.
pub proof fn lemma_low_value_monotone(a: Seq<u32>, m: nat, n: nat)
    requires
        m <= n,
    ensures
        low_value(a, m) <= low_value(a, n),
    decreases n,
{
    if m < n {
        lemma_low_value_monotone(a, m, (n - 1) as nat);
    }
}

/// Appending a limb adds it at the weight of its position.
pub proof fn lemma_value_push(a: Seq<u32>, d: u32)
    ensures
        limbs_value(a.push(d)) == limbs_value(a) + d * base_pow(a.len()),
{
    let b = a.push(d);
    assert forall|i: int| 0 <= i < a.len() implies limb_at(a, i) == limb_at(b, i) by {}
    lemma_low_value_agree(a, b, a.len());
    assert(limb_at(b, a.len() as int) == d);
}

/// Dropping a high zero limb keeps the value.
pub proof fn lemma_value_drop_zero(a: Seq<u32>)
    requires
        a.len() > 0,
        a.last() == 0,
    ensures
        limbs_value(a.drop_last()) == limbs_value(a),
{
    let b = a.drop_last();
    assert(a =~= b.push(0u32));
    lemma_value_push(b, 0u32);
    assert(0 * base_pow(b.len()) == 0);
}

/// A number splits at any position into its low part and its high part.
pub proof fn lemma_value_split(a: Seq<u32>, i: nat)
    requires
        i <= a.len(),
    ensures
        limbs_value(a) == low_value(a, i) + base_pow(i) * high_value(a, i),
    decreases a.len() - i,
{
    if i == a.len() {
        assert(base_pow(i) * 0 == 0);
    } else {
        lemma_value_split(a, i + 1);
        let p = base_pow(i);
        let h = high_value(a, i + 1);
        let d = a[i as int] as nat;
        assert(base_pow(i + 1) == limb_base() * p);
        assert(low_value(a, i + 1) == low_value(a, i) + d * p);
        assert(d * p + (limb_base() * p) * h == p * (d + limb_base() * h)) by (nonlinear_arith);
    }
}

/// The whole number is its high part from position zero.
pub proof fn lemma_value_is_high_value(a: Seq<u32>)
    ensures
        limbs_value(a) == high_value(a, 0),
{
    lemma_value_split(a, 0);
    assert(1 * high_value(a, 0) == high_value(a, 0)) by (nonlinear_arith);
}

/// In a sequence with a new lowest limb put in front, the high part from
/// `i + 1` is the old high part from `i`.
pub proof fn lemma_high_value_shift(a: Seq<u32>, d: u32, i: nat)
    ensures
        high_value(seq![d] + a, i + 1) == high_value(a, i),
    decreases a.len() - i,
{
    let b = seq![d] + a;
    if i < a.len() {
        lemma_high_value_shift(a, d, i + 1);
        assert(b[(i + 1) as int] == a[i as int]);
    }
}

/// The number written by a sequence of bytes, most significant first.
pub open spec fn be_value(bytes: Seq<u8>) -> nat
    decreases bytes.len(),
{
    if bytes.len() == 0 {
        0
    } else {
        be_value(bytes.drop_last()) * 256 + bytes.last() as nat
    }
}

/// 256 raised to the power `n`.
pub open spec fn byte_pow(n: nat) -> nat
    decreases n,
{
    if n == 0 {
        1
    } else {
        256 * byte_pow((n - 1) as nat)
    }
}

/// A byte put in front weighs `256` to the number of bytes behind it.
pub proof fn lemma_be_value_front(d: u8, bytes: Seq<u8>)
    ensures
        be_value(seq![d] + bytes) == d * byte_pow(bytes.len()) + be_value(bytes),
    decreases bytes.len(),
{
    let all = seq![d] + bytes;
    if bytes.len() == 0 {
        assert(all.drop_last() =~= Seq::<u8>::empty());
        assert(be_value(all.drop_last()) == 0);
        assert(d * byte_pow(0) == d) by (nonlinear_arith)
            requires
                byte_pow(0) == 1,
        ;
    } else {
        lemma_be_value_front(d, bytes.drop_last());
        assert(all.drop_last() =~= seq![d] + bytes.drop_last());
        assert(all.last() == bytes.last());
        let p = byte_pow((bytes.len() - 1) as nat);
        assert(byte_pow(bytes.len()) == 256 * p);
        assert((d * p) * 256 == d * (256 * p)) by (nonlinear_arith);
    }
}

/// A natural number of unbounded size.
#[derive(Debug)]
pub struct BigNat {
    /// Limbs in base 2^32, least significant first.
    pub limbs: Vec<u32>,
}

impl View for BigNat {
    type V = nat;

    open spec fn view(&self) -> nat {
        limbs_value(self.limbs@)
    }
}

impl Clone for BigNat {
    fn clone(&self) -> (r: Self)
        ensures
            r@ == self@,
            r.limbs@ == self.limbs@,
    {
        let mut out: Vec<u32> = Vec::new();
        let mut i: usize = 0;
        while i < self.limbs.len()
            invariant
                i <= self.limbs.len(),
                out@ == self.limbs@.take(i as int),
            decreases self.limbs.len() - i,
        {
            out.push(self.limbs[i]);
            assert(self.limbs@.take(i as int).push(self.limbs@[i as int]) =~= self.limbs@.take(
                (i + 1) as int,
            ));
            i += 1;
        }
        assert(self.limbs@.take(self.limbs@.len() as int) =~= self.limbs@);
        BigNat { limbs: out }
    }
}

impl BigNat {
    /// The number zero.
    pub fn zero() -> (r: BigNat)
        ensures
            r@ == 0,
    {
        BigNat { limbs: Vec::new() }
    }

    /// The number `x`.
    pub fn from_u64(x: u64) -> (r: BigNat)
        ensures
            r@ == x,
    {
        let lo: u32 = (x % 0x1_0000_0000) as u32;
        let hi: u32 = (x / 0x1_0000_0000) as u32;
        let mut limbs: Vec<u32> = Vec::new();
        proof {
            lemma_value_push(limbs@, lo);
            lemma_value_push(limbs@.push(lo), hi);
            lemma_base_pow_small();
            assert(limbs_value(limbs@) == 0);
            assert(lo * base_pow(0) == lo);
            assert(hi * base_pow(1) == hi * 0x1_0000_0000);
        }
        limbs.push(lo);
        limbs.push(hi);
        BigNat { limbs }
    }

    /// The number `x`.
    pub fn from_u128(x: u128) -> (r: BigNat)
        ensures
            r@ == x,
    {
        let lo: u64 = (x % 0x1_0000_0000_0000_0000) as u64;
        let hi: u64 = (x / 0x1_0000_0000_0000_0000) as u64;
        let l0: u32 = (lo % 0x1_0000_0000) as u32;
        let l1: u32 = (lo / 0x1_0000_0000) as u32;
        let l2: u32 = (hi % 0x1_0000_0000) as u32;
        let l3: u32 = (hi / 0x1_0000_0000) as u32;
        let mut limbs: Vec<u32> = Vec::new();
        proof {
            let s1 = limbs@.push(l0);
            let s2 = s1.push(l1);
            let s3 = s2.push(l2);
            lemma_value_push(limbs@, l0);
            lemma_value_push(s1, l1);
            lemma_value_push(s2, l2);
            lemma_value_push(s3, l3);
            lemma_base_pow_small();
            assert(limbs_value(limbs@) == 0);
            assert(l0 * base_pow(0) == l0);
            assert(l1 * base_pow(1) == l1 * 0x1_0000_0000);
            assert(l2 * base_pow(2) == l2 * 0x1_0000_0000_0000_0000);
            assert(l3 * base_pow(3) == l3 * 0x1_0000_0000_0000_0000_0000_0000);
        }
        limbs.push(l0);
        limbs.push(l1);
        limbs.push(l2);
        limbs.push(l3);
        BigNat { limbs }
    }

    /// Whether the number is zero.
    pub fn is_zero(&self) -> (r: bool)
        ensures
            r == (self@ == 0),
    {
        let mut i: usize = 0;
        while i < self.limbs.len()
            invariant
                i <= self.limbs.len(),
                low_value(self.limbs@, i as nat) == 0,
            decreases self.limbs.len() - i,
        {
            if self.limbs[i] != 0 {
                proof {
                    lemma_base_pow_positive(i as nat);
                    let d = self.limbs@[i as int] as nat;
                    let p = base_pow(i as nat);
                    assert(d * p > 0) by (nonlinear_arith)
                        requires
                            d > 0,
                            p > 0,
                    ;
                    lemma_low_value_monotone(self.limbs@, (i + 1) as nat, self.limbs@.len());
                }
                return false;
            }
            assert(0 * base_pow(i as nat) == 0);
            i += 1;
        }
        true
    }

    /// The same number without high zero limbs.
    pub fn trim(self) -> (r: BigNat)
        ensures
            r@ == self@,
            r.limbs@.len() > 0 ==> r.limbs@.last() != 0,
    {
        let mut limbs = self.limbs;
        while limbs.len() > 0 && limbs[limbs.len() - 1] == 0
            invariant
                limbs_value(limbs@) == self@,
            decreases limbs.len(),
        {
            proof {
                lemma_value_drop_zero(limbs@);
            }
            limbs.pop();
        }
        BigNat { limbs }
    }

    /// The sum of two numbers.
    pub fn add(&self, other: &BigNat) -> (r: BigNat)
        ensures
            r@ == self@ + other@,
    {
        let n: usize = if self.limbs.len() >= other.limbs.len() {
            self.limbs.len()
        } else {
            other.limbs.len()
        };
        let mut out: Vec<u32> = Vec::new();
        let mut carry: u64 = 0;
        let mut i: usize = 0;
        while i < n
            invariant
                i <= n,
                out@.len() == i,
                carry <= 1,
                limbs_value(out@) + carry * base_pow(i as nat) == low_value(self.limbs@, i as nat)
                    + low_value(other.limbs@, i as nat),
            decreases n - i,
        {
            let x: u64 = if i < self.limbs.len() {
                self.limbs[i] as u64
            } else {
                0
            };
            let y: u64 = if i < other.limbs.len() {
                other.limbs[i] as u64
            } else {
                0
            };
            let t: u64 = x + y + carry;
            let digit: u32 = (t % 0x1_0000_0000) as u32;
            let next: u64 = t / 0x1_0000_0000;
            proof {
                lemma_value_push(out@, digit);
                let p = base_pow(i as nat);
                assert(x == limb_at(self.limbs@, i as int));
                assert(y == limb_at(other.limbs@, i as int));
                assert(digit * p + next * (limb_base() * p) == (x + y + carry) * p)
                    by (nonlinear_arith)
                    requires
                        digit + limb_base() * next == x + y + carry,
                ;
                assert((x + y + carry) * p == x * p + y * p + carry * p) by (nonlinear_arith);
            }
            out.push(digit);
            carry = next;
            i += 1;
        }
        proof {
            lemma_low_value_past_end(self.limbs@, n as nat);
            lemma_low_value_past_end(other.limbs@, n as nat);
        }
        if carry != 0 {
            proof {
                lemma_value_push(out@, 1u32);
            }
            out.push(1);
        } else {
            assert(0 * base_pow(n as nat) == 0);
        }
        BigNat { limbs: out }
    }

    /// The difference `self - other` where it is not negative. The flag is
    /// set exactly when `self` is below `other`, and then the number that is
    /// returned is zero.
    pub fn sub_with_borrow(&self, other: &BigNat) -> (r: (BigNat, bool))
        ensures
            r.1 == (self@ < other@),
            !r.1 ==> r.0@ == self@ - other@,
            r.1 ==> r.0@ == 0,
    {
        let n: usize = if self.limbs.len() >= other.limbs.len() {
            self.limbs.len()
        } else {
            other.limbs.len()
        };
        let mut out: Vec<u32> = Vec::new();
        let mut borrow: u64 = 0;
        let mut i: usize = 0;
        while i < n
            invariant
                i <= n,
                out@.len() == i,
                borrow <= 1,
                limbs_value(out@) + low_value(other.limbs@, i as nat) == low_value(
                    self.limbs@,
                    i as nat,
                ) + borrow * base_pow(i as nat),
            decreases n - i,
        {
            let x: u64 = if i < self.limbs.len() {
                self.limbs[i] as u64
            } else {
                0
            };
            let y: u64 = if i < other.limbs.len() {
                other.limbs[i] as u64
            } else {
                0
            };
            let need: u64 = y + borrow;
            let next: u64 = if x >= need {
                0
            } else {
                1
            };
            let digit: u32 = if x >= need {
                (x - need) as u32
            } else {
                (x + 0x1_0000_0000 - need) as u32
            };
            proof {
                lemma_value_push(out@, digit);
                let p = base_pow(i as nat);
                assert(x == limb_at(self.limbs@, i as int));
                assert(y == limb_at(other.limbs@, i as int));
                assert(digit * p + y * p + borrow * p == x * p + next * (limb_base() * p))
                    by (nonlinear_arith)
                    requires
                        digit + y + borrow == x + limb_base() * next,
                ;
            }
            out.push(digit);
            borrow = next;
            i += 1;
        }
        proof {
            lemma_low_value_past_end(self.limbs@, n as nat);
            lemma_low_value_past_end(other.limbs@, n as nat);
            lemma_low_value_bound(out@, n as nat);
            if borrow == 0 {
                assert(0 * base_pow(n as nat) == 0);
            } else {
                assert(1 * base_pow(n as nat) == base_pow(n as nat));
            }
        }
        if borrow != 0 {
            (BigNat::zero(), true)
        } else {
            (BigNat { limbs: out }.trim(), false)
        }
    }

    /// The difference `self - other`, or `None` where it would be negative.
    pub fn checked_sub(&self, other: &BigNat) -> (r: Option<BigNat>)
        ensures
            r.is_some() == (self@ >= other@),
            r matches Some(d) ==> d@ == self@ - other@,
    {
        let (diff, borrow) = self.sub_with_borrow(other);
        if borrow {
            None
        } else {
            Some(diff)
        }
    }

    /// Whether `self` is below `other`.
    pub fn lt(&self, other: &BigNat) -> (r: bool)
        ensures
            r == (self@ < other@),
    {
        let (_diff, borrow) = self.sub_with_borrow(other);
        borrow
    }

    /// Whether `self` is at most `other`.
    pub fn le(&self, other: &BigNat) -> (r: bool)
        ensures
            r == (self@ <= other@),
    {
        !other.lt(self)
    }

    /// Whether the two are the same number.
    pub fn equals(&self, other: &BigNat) -> (r: bool)
        ensures
            r == (self@ == other@),
    {
        !self.lt(other) && !other.lt(self)
    }

    /// The number `self * 2^32 + d`: a new lowest limb is put in front.
    pub fn push_low(&self, d: u32) -> (r: BigNat)
        ensures
            r@ == self@ * limb_base() + d,
    {
        let mut out: Vec<u32> = Vec::new();
        out.push(d);
        let mut i: usize = 0;
        while i < self.limbs.len()
            invariant
                i <= self.limbs.len(),
                out@ == seq![d] + self.limbs@.take(i as int),
            decreases self.limbs.len() - i,
        {
            out.push(self.limbs[i]);
            assert((seq![d] + self.limbs@.take(i as int)).push(self.limbs@[i as int]) =~= seq![d]
                + self.limbs@.take((i + 1) as int));
            i += 1;
        }
        proof {
            assert(self.limbs@.take(self.limbs@.len() as int) =~= self.limbs@);
            lemma_value_is_high_value(out@);
            lemma_value_is_high_value(self.limbs@);
            lemma_high_value_shift(self.limbs@, d, 0);
            let h = high_value(self.limbs@, 0);
            assert(limb_base() * h == h * limb_base()) by (nonlinear_arith);
        }
        BigNat { limbs: out }
    }

    /// The product of the number and one limb.
    pub fn mul_small(&self, m: u32) -> (r: BigNat)
        ensures
            r@ == self@ * m,
    {
        let mut out: Vec<u32> = Vec::new();
        let mut carry: u64 = 0;
        let mut i: usize = 0;
        proof {
            assert(0 * m == 0);
            assert(0 * base_pow(0) == 0);
        }
        while i < self.limbs.len()
            invariant
                i <= self.limbs.len(),
                out@.len() == i,
                carry < 0x1_0000_0000,
                limbs_value(out@) + carry * base_pow(i as nat) == low_value(self.limbs@, i as nat)
                    * m,
            decreases self.limbs.len() - i,
        {
            let x: u64 = self.limbs[i] as u64;
            let w: u64 = m as u64;
            assert(x * w <= 0xffff_ffff * 0xffff_ffff) by (nonlinear_arith)
                requires
                    x <= 0xffff_ffff,
                    w <= 0xffff_ffff,
            ;
            let t: u64 = x * w + carry;
            let digit: u32 = (t % 0x1_0000_0000) as u32;
            let next: u64 = t / 0x1_0000_0000;
            proof {
                lemma_value_push(out@, digit);
                let p = base_pow(i as nat);
                let lv = low_value(self.limbs@, i as nat);
                assert(x == limb_at(self.limbs@, i as int));
                assert(digit * p + next * (limb_base() * p) == (x * w) * p + carry * p)
                    by (nonlinear_arith)
                    requires
                        digit + limb_base() * next == x * w + carry,
                ;
                assert((lv + x * p) * m == lv * m + (x * w) * p) by (nonlinear_arith)
                    requires
                        w == m,
                ;
            }
            out.push(digit);
            carry = next;
            i += 1;
        }
        proof {
            lemma_value_push(out@, carry as u32);
        }
        out.push(carry as u32);
        BigNat { limbs: out }.trim()
    }

    /// The product of two numbers.
    pub fn mul(&self, other: &BigNat) -> (r: BigNat)
        ensures
            r@ == self@ * other@,
    {
        let mut acc = BigNat::zero();
        let mut i: usize = self.limbs.len();
        proof {
            assert(0 * other@ == 0);
        }
        while i > 0
            invariant
                i <= self.limbs.len(),
                acc@ == high_value(self.limbs@, i as nat) * other@,
            decreases i,
        {
            i -= 1;
            let row = other.mul_small(self.limbs[i]);
            let shifted = acc.push_low(0);
            proof {
                let h = high_value(self.limbs@, (i + 1) as nat);
                let d = self.limbs@[i as int] as nat;
                let o = other@;
                assert((h * o) * limb_base() + o * d == (d + limb_base() * h) * o)
                    by (nonlinear_arith);
            }
            acc = shifted.add(&row);
        }
        proof {
            lemma_value_is_high_value(self.limbs@);
        }
        acc.trim()
    }

    /// One limb of long division. With `q * d + rem` the part of the dividend
    /// read so far, the next lower limb `x` is taken in, one bit at a time
    /// from its top.
    fn div_limb(q: BigNat, rem: BigNat, x: u32, d: &BigNat) -> (r: (BigNat, BigNat))
        requires
            rem@ < d@,
        ensures
            r.0@ * d@ + r.1@ == (q@ * d@ + rem@) * 0x1_0000_0000 + x,
            r.1@ < d@,
    {
        let one = BigNat::from_u64(1);
        let ghost whole: int = (q@ * d@ + rem@) * 0x1_0000_0000 + x;
        let ghost mut scaled: int = whole;
        let ghost mut weight: int = 1;
        let mut qq = q;
        let mut rr = rem;
        let mut y: u64 = x as u64;
        let mut t: u32 = 0;
        proof {
            lemma2_to64();
            assert(whole * 1 == whole) by (nonlinear_arith);
        }
        while t < 32
            invariant
                t <= 32,
                one@ == 1,
                y < 0x1_0000_0000,
                rr@ < d@,
                weight == pow2(t as nat),
                scaled == whole * weight,
                scaled == (qq@ * d@ + rr@) * 0x1_0000_0000 + y,
            decreases 32 - t,
        {
            let y2: u64 = y * 2;
            let bit: bool = y2 >= 0x1_0000_0000;
            let twice = rr.add(&rr);
            let taken = if bit {
                twice.add(&one)
            } else {
                twice
            };
            let (diff, borrow) = taken.sub_with_borrow(d);
            let doubled = qq.add(&qq);
            proof {
                let e = qq@ * d@ + rr@;
                let dd = d@;
                let qv = qq@;
                assert((2 * qv) * dd == 2 * (qv * dd)) by (nonlinear_arith);
                assert((2 * qv + 1) * dd == 2 * (qv * dd) + dd) by (nonlinear_arith);
                assert(whole * (2 * weight) == 2 * (whole * weight)) by (nonlinear_arith);
                lemma_pow2_unfold((t + 1) as nat);
                scaled = 2 * scaled;
                weight = 2 * weight;
            }
            if borrow {
                rr = taken;
                qq = doubled;
            } else {
                rr = diff;
                qq = doubled.add(&one);
            }
            y = if bit {
                y2 - 0x1_0000_0000
            } else {
                y2
            };
            t += 1;
        }
        proof {
            lemma2_to64();
            assert(whole * weight == whole * 0x1_0000_0000) by (nonlinear_arith)
                requires
                    weight == 0x1_0000_0000,
            ;
        }
        (qq, rr)
    }

    /// Quotient and remainder of the division by `d`.
    pub fn div_rem(&self, d: &BigNat) -> (r: (BigNat, BigNat))
        requires
            d@ > 0,
        ensures
            r.0@ == self@ / d@,
            r.1@ == self@ % d@,
    {
        let mut q = BigNat::zero();
        let mut rem = BigNat::zero();
        let mut i: usize = self.limbs.len();
        proof {
            assert(0 * d@ == 0);
        }
        while i > 0
            invariant
                i <= self.limbs.len(),
                d@ > 0,
                rem@ < d@,
                high_value(self.limbs@, i as nat) == q@ * d@ + rem@,
            decreases i,
        {
            i -= 1;
            let (q2, r2) = BigNat::div_limb(q, rem, self.limbs[i], d);
            q = q2;
            rem = r2;
        }
        proof {
            lemma_value_is_high_value(self.limbs@);
            lemma_fundamental_div_mod_converse(self@ as int, d@ as int, q@ as int, rem@ as int);
        }
        (q.trim(), rem)
    }

    /// The lowest limb: the number modulo 2^32.
    pub fn low_limb(&self) -> (r: u32)
        ensures
            r == self@ % 0x1_0000_0000,
    {
        if self.limbs.len() == 0 {
            0
        } else {
            proof {
                lemma_value_is_high_value(self.limbs@);
                let h = high_value(self.limbs@, 1);
                lemma_fundamental_div_mod_converse(
                    self@ as int,
                    0x1_0000_0000,
                    h as int,
                    self.limbs@[0] as int,
                );
            }
            self.limbs[0]
        }
    }

    /// The number written by `bytes`, most significant first.
    pub fn from_bytes_be(bytes: &Vec<u8>) -> (r: BigNat)
        ensures
            r@ == be_value(bytes@),
    {
        let mut acc = BigNat::zero();
        let mut i: usize = 0;
        proof {
            assert(bytes@.take(0) =~= Seq::<u8>::empty());
        }
        while i < bytes.len()
            invariant
                i <= bytes@.len(),
                acc@ == be_value(bytes@.take(i as int)),
            decreases bytes.len() - i,
        {
            proof {
                assert(bytes@.take((i + 1) as int).drop_last() =~= bytes@.take(i as int));
                assert(bytes@.take((i + 1) as int).last() == bytes@[i as int]);
            }
            acc = acc.mul_small(256).add(&BigNat::from_u64(bytes[i] as u64));
            i += 1;
        }
        proof {
            assert(bytes@.take(bytes@.len() as int) =~= bytes@);
        }
        acc.trim()
    }

    /// The bytes that write the number, most significant first, with no zero
    /// byte in front. Zero is written by no bytes at all.
    pub fn to_bytes_be(&self) -> (r: Vec<u8>)
        ensures
            be_value(r@) == self@,
            r@.len() > 0 ==> r@[0] != 0,
    {
        let base = BigNat::from_u64(256);
        let mut out: Vec<u8> = Vec::new();
        let mut rest = self.clone();
        proof {
            assert(rest@ * byte_pow(0) == rest@) by (nonlinear_arith)
                requires
                    byte_pow(0) == 1,
            ;
        }
        while !rest.is_zero()
            invariant
                base@ == 256,
                self@ == rest@ * byte_pow(out@.len()) + be_value(out@),
                out@.len() > 0 && rest@ == 0 ==> out@[0] != 0,
            decreases rest@,
        {
            let (q, d) = rest.div_rem(&base);
            let low: u32 = d.low_limb();
            let byte: u8 = low as u8;
            proof {
                lemma_fundamental_div_mod(rest@ as int, 256);
                assert(0 <= rest@ as int % 256 < 256);
                assert(byte == rest@ % 256);
                lemma_be_value_front(byte, out@);
                let p = byte_pow(out@.len());
                let qv = q@;
                assert(byte_pow(out@.len() + 1) == 256 * p);
                assert((256 * qv + byte) * p == qv * (256 * p) + byte * p) by (nonlinear_arith);
                assert(out@.insert(0, byte) =~= seq![byte] + out@);
                if qv == 0 {
                    assert(byte != 0);
                }
            }
            out.insert(0, byte);
            rest = q;
        }
        proof {
            assert(0 * byte_pow(out@.len()) == 0);
        }
        out
    }

    /// The quotient of the division by `d`, rounded down.
    pub fn div(&self, d: &BigNat) -> (r: BigNat)
        requires
            d@ > 0,
        ensures
            r@ == self@ / d@,
    {
        let (q, _rem) = self.div_rem(d);
        q
    }
}

} // verus!
