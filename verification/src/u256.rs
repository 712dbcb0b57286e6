//! Unsigned 256-bit and 512-bit integers and the rounding division built on
//! them.
//!
//! A value is a fixed array of 64-bit limbs. Its view is the natural number it
//! denotes; every operation is stated over that number. Nothing wraps: an
//! operation whose exact result does not fit either returns `None` or demands
//! in its `requires` that the result fit.

use vstd::prelude::*;
use vstd::arithmetic::power2::pow2;
use crate::limbs::{
    limbs_value, lemma_limbs_bound, lemma_limbs_split, lemma_limbs_zero, lemma_limbs_zero_value,
    lemma_limbs_four, lemma_pow2_wide, lemma_prefix_step, add8, sub8, ge8, shl1_8, mul4, divrem8, shr8,
};

verus! {

/// `2^128`, the scale of a Q128.128 fixed-point number.
pub open spec fn q128() -> nat {
    0x1_0000_0000_0000_0000_0000_0000_0000_0000nat
}

/// `2^256`, one more than the largest [`U256`].
pub open spec fn u256_limit() -> nat {
    0x1_0000_0000_0000_0000_0000_0000_0000_0000_0000_0000_0000_0000_0000_0000_0000_0000nat
}

/// `2^512`, one more than the largest [`U512`].
pub open spec fn u512_limit() -> nat {
    0x1_0000_0000_0000_0000_0000_0000_0000_0000_0000_0000_0000_0000_0000_0000_0000_0000_0000_0000_0000_0000_0000_0000_0000_0000_0000_0000_0000_0000_0000_0000_0000_0000nat
}

/// The quotient `a / b`, rounded down, or rounded half up when `rounding_up`
/// is set: up when the remainder exceeds `b / 2`, and on the exact tie of an
/// even `b`.
pub open spec fn div_rounded(a: nat, b: nat, rounding_up: bool) -> nat {
    let q = a / b;
    let r = a % b;
    if rounding_up && (r > b / 2 || (b % 2 == 0 && r == b / 2)) {
        q + 1
    } else {
        q
    }
}

/// The rounding rule of [`div_rounded`] is "round up when twice the remainder
/// reaches the divisor"; the rounded quotient is never more than one above the
/// floor and never above `a` itself.
pub proof fn lemma_div_rounded(a: nat, b: nat, rounding_up: bool)
    requires
        b > 0,
    ensures
        div_rounded(a, b, rounding_up) == a / b + (if rounding_up && 2 * (a % b) >= b {
            1nat
        } else {
            0
        }),
        a / b <= div_rounded(a, b, rounding_up) <= a / b + 1,
        div_rounded(a, b, rounding_up) <= a,
        div_rounded(a, b, false) == a / b,
{
    let q = a / b;
    let r = a % b;
    assert(a == b * q + r && r < b) by (nonlinear_arith)
        requires
            b > 0,
            q == a / b,
            r == a % b,
    ;
    assert(b * q >= q) by (nonlinear_arith)
        requires
            b >= 1,
    ;
}

/// An unsigned 256-bit integer.
#[derive(Clone, Copy, Debug, PartialEq, Eq)]
pub struct U256 {
    limbs: [u64; 4],
}

/// An unsigned 512-bit integer, wide enough for the product of two [`U256`].
#[derive(Clone, Copy, Debug, PartialEq, Eq)]
pub struct U512 {
    limbs: [u64; 8],
}

impl View for U256 {
    type V = nat;

    closed spec fn view(&self) -> nat {
        limbs_value(self.limbs@)
    }
}

impl View for U512 {
    type V = nat;

    closed spec fn view(&self) -> nat {
        limbs_value(self.limbs@)
    }
}

/// Copies four limbs into the low half of eight.
fn widen(a: &[u64; 4]) -> (out: [u64; 8])
    ensures
        limbs_value(out@) == limbs_value(a@),
{
    let out = [a[0], a[1], a[2], a[3], 0, 0, 0, 0];
    proof {
        lemma_limbs_split(out@, 4);
        assert(out@.take(4) =~= a@);
        lemma_limbs_zero(out@.skip(4));
        assert(pow2(256) * 0 == 0);
    }
    out
}

/// The low four limbs, when the high four are zero.
fn narrow(a: &[u64; 8]) -> (out: Option<[u64; 4]>)
    ensures
        out is Some <==> limbs_value(a@) < u256_limit(),
        out is Some ==> limbs_value(out->0@) == limbs_value(a@),
{
    let low = [a[0], a[1], a[2], a[3]];
    proof {
        lemma_pow2_wide();
        lemma_limbs_split(a@, 4);
        assert(a@.take(4) =~= low@);
        lemma_limbs_bound(low@);
    }
    if a[4] == 0 && a[5] == 0 && a[6] == 0 && a[7] == 0 {
        proof {
            lemma_limbs_zero(a@.skip(4));
            assert(pow2(256) * 0 == 0);
        }
        Some(low)
    } else {
        proof {
            let high = limbs_value(a@.skip(4));
            if high == 0 {
                lemma_limbs_zero_value(a@.skip(4));
                assert(a@.skip(4)[0] == a@[4]);
                assert(a@.skip(4)[1] == a@[5]);
                assert(a@.skip(4)[2] == a@[6]);
                assert(a@.skip(4)[3] == a@[7]);
            }
            assert(pow2(256) * high >= pow2(256)) by (nonlinear_arith)
                requires
                    high >= 1,
            ;
        }
        None
    }
}

impl U256 {
    /// Every value is below `2^256`.
    pub proof fn lemma_bound(self)
        ensures
            self@ < u256_limit(),
    {
        lemma_limbs_bound(self.limbs@);
        lemma_pow2_wide();
    }

    /// The number zero.
    pub fn zero() -> (r: U256)
        ensures
            r@ == 0,
    {
        let r = U256 { limbs: [0, 0, 0, 0] };
        proof {
            lemma_limbs_zero(r.limbs@);
        }
        r
    }

    /// The largest value, `2^256 - 1`.
    pub fn max_value() -> (r: U256)
        ensures
            r@ == u256_limit() - 1,
    {
        let m: u64 = 0xffff_ffff_ffff_ffff;
        let r = U256 { limbs: [m, m, m, m] };
        proof {
            lemma_limbs_four(r.limbs@);
        }
        r
    }

    /// The value `hi * 2^128 + lo`.
    pub fn from_words(hi: u128, lo: u128) -> (r: U256)
        ensures
            r@ == hi * q128() + lo,
    {
        let b: u128 = 0x1_0000_0000_0000_0000;
        let r = U256 { limbs: [(lo % b) as u64, (lo / b) as u64, (hi % b) as u64, (hi / b) as u64] };
        proof {
            lemma_limbs_four(r.limbs@);
        }
        r
    }

    /// The value of a 128-bit integer.
    pub fn from_u128(x: u128) -> (r: U256)
        ensures
            r@ == x,
    {
        U256::from_words(0, x)
    }

    /// The low 128 bits.
    pub fn low_u128(&self) -> (r: u128)
        ensures
            r == self@ % q128(),
    {
        proof {
            self.lemma_words();
        }
        (self.limbs[1] as u128) * 0x1_0000_0000_0000_0000 + self.limbs[0] as u128
    }

    /// The high 128 bits.
    pub fn high_u128(&self) -> (r: u128)
        ensures
            r == self@ / q128(),
    {
        proof {
            self.lemma_words();
        }
        (self.limbs[3] as u128) * 0x1_0000_0000_0000_0000 + self.limbs[2] as u128
    }

    /// The value as a 128-bit integer, when it fits.
    pub fn to_u128(&self) -> (r: Option<u128>)
        ensures
            r is Some <==> self@ < q128(),
            r is Some ==> r->0 == self@,
    {
        if self.high_u128() == 0 {
            Some(self.low_u128())
        } else {
            None
        }
    }

    /// The value in terms of its two 128-bit words.
    proof fn lemma_words(self)
        ensures
            self@ == (self.limbs@[3] * 0x1_0000_0000_0000_0000 + self.limbs@[2]) * q128() + (
            self.limbs@[1] * 0x1_0000_0000_0000_0000 + self.limbs@[0]),
            self@ / q128() == self.limbs@[3] * 0x1_0000_0000_0000_0000 + self.limbs@[2],
            self@ % q128() == self.limbs@[1] * 0x1_0000_0000_0000_0000 + self.limbs@[0],
    {
        lemma_limbs_four(self.limbs@);
        let hi = self.limbs@[3] * 0x1_0000_0000_0000_0000 + self.limbs@[2];
        let lo = self.limbs@[1] * 0x1_0000_0000_0000_0000 + self.limbs@[0];
        vstd::arithmetic::div_mod::lemma_fundamental_div_mod_converse(
            self@ as int,
            q128() as int,
            hi as int,
            lo as int,
        );
    }

    /// Whether the value is zero.
    pub fn is_zero(&self) -> (r: bool)
        ensures
            r <==> self@ == 0,
    {
        proof {
            self.lemma_words();
        }
        self.limbs[0] == 0 && self.limbs[1] == 0 && self.limbs[2] == 0 && self.limbs[3] == 0
    }

    /// `self >= other`.
    pub fn ge(&self, other: &U256) -> (r: bool)
        ensures
            r <==> self@ >= other@,
    {
        let a = widen(&self.limbs);
        let b = widen(&other.limbs);
        ge8(&a, &b)
    }

    /// `self > other`.
    pub fn gt(&self, other: &U256) -> (r: bool)
        ensures
            r <==> self@ > other@,
    {
        !other.ge(self)
    }

    /// `self <= other`.
    pub fn le(&self, other: &U256) -> (r: bool)
        ensures
            r <==> self@ <= other@,
    {
        other.ge(self)
    }

    /// `self < other`.
    pub fn lt(&self, other: &U256) -> (r: bool)
        ensures
            r <==> self@ < other@,
    {
        !self.ge(other)
    }

    /// Whether both denote the same number.
    pub fn equals(&self, other: &U256) -> (r: bool)
        ensures
            r <==> self@ == other@,
    {
        self.ge(other) && other.ge(self)
    }

    /// The sum, unless it exceeds 256 bits.
    pub fn checked_add(&self, other: &U256) -> (r: Option<U256>)
        ensures
            r is Some <==> self@ + other@ < u256_limit(),
            r is Some ==> r->0@ == self@ + other@,
    {
        let a = widen(&self.limbs);
        let b = widen(&other.limbs);
        let (sum, carry) = add8(&a, &b);
        proof {
            self.lemma_bound();
            other.lemma_bound();
            lemma_pow2_wide();
            lemma_limbs_bound(sum@);
        }
        match narrow(&sum) {
            Some(limbs) => Some(U256 { limbs }),
            None => None,
        }
    }

    /// The difference, unless it would be negative.
    pub fn checked_sub(&self, other: &U256) -> (r: Option<U256>)
        ensures
            r is Some <==> self@ >= other@,
            r is Some ==> r->0@ == self@ - other@,
    {
        let a = widen(&self.limbs);
        let b = widen(&other.limbs);
        let (diff, borrow) = sub8(&a, &b);
        if borrow {
            None
        } else {
            proof {
                self.lemma_bound();
            }
            match narrow(&diff) {
                Some(limbs) => Some(U256 { limbs }),
                None => None,
            }
        }
    }

    /// `2^shift`.
    fn power_of_two(shift: u32) -> (r: U256)
        requires
            shift < 256,
        ensures
            r@ == pow2(shift as nat),
    {
        let bit: u64 = 1u64 << (shift % 64);
        let r = if shift < 64 {
            U256 { limbs: [bit, 0, 0, 0] }
        } else if shift < 128 {
            U256 { limbs: [0, bit, 0, 0] }
        } else if shift < 192 {
            U256 { limbs: [0, 0, bit, 0] }
        } else {
            U256 { limbs: [0, 0, 0, bit] }
        };
        proof {
            let low = (shift % 64) as nat;
            let high = (shift - shift % 64) as nat;
            vstd::bits::lemma_u64_pow2_no_overflow(low);
            vstd::bits::lemma_u64_shl_is_mul(1, (shift % 64) as u64);
            lemma_limbs_four(r.limbs@);
            lemma_pow2_wide();
            vstd::arithmetic::power2::lemma2_to64();
            vstd::arithmetic::power2::lemma_pow2_adds(high, low);
            let b = bit as nat;
            let p = pow2(high);
            assert(b * p == p * b) by (nonlinear_arith);
        }
        r
    }

    /// The value shifted left by `shift` bits, unless a set bit would be
    /// shifted out.
    pub fn checked_shl(&self, shift: u32) -> (r: Option<U256>)
        ensures
            r is Some <==> self@ * pow2(shift as nat) < u256_limit(),
            r is Some ==> r->0@ == self@ * pow2(shift as nat),
    {
        if shift >= 256 {
            proof {
                lemma_pow2_wide();
                if shift > 256 {
                    vstd::arithmetic::power2::lemma_pow2_strictly_increases(256, shift as nat);
                }
                let v = self@;
                let p = pow2(shift as nat);
                assert(v >= 1 ==> v * p >= p) by (nonlinear_arith);
                assert(v == 0 ==> v * p == 0) by (nonlinear_arith);
            }
            if self.is_zero() {
                Some(U256::zero())
            } else {
                None
            }
        } else {
            self.checked_mul(&U256::power_of_two(shift))
        }
    }

    /// The value shifted right by `shift` bits.
    pub fn shr(&self, shift: u32) -> (r: U256)
        ensures
            r@ == self@ / pow2(shift as nat),
    {
        proof {
            self.lemma_bound();
            vstd::arithmetic::power2::lemma_pow2_pos(shift as nat);
            let v = self@;
            let p = pow2(shift as nat);
            assert(v / p <= v) by (nonlinear_arith)
                requires
                    p >= 1,
            ;
        }
        match U512::from_u256(*self).shr(shift).to_u256() {
            Some(r) => r,
            // a quotient of a 256-bit value fits 256 bits
            None => U256::zero(),
        }
    }

    /// The exact 512-bit product.
    pub fn full_mul(&self, other: &U256) -> (r: U512)
        ensures
            r@ == self@ * other@,
    {
        U512 { limbs: mul4(&self.limbs, &other.limbs) }
    }

    /// The product, unless it exceeds 256 bits.
    pub fn checked_mul(&self, other: &U256) -> (r: Option<U256>)
        ensures
            r is Some <==> self@ * other@ < u256_limit(),
            r is Some ==> r->0@ == self@ * other@,
    {
        self.full_mul(other).to_u256()
    }

    /// `(a * b) >> shift`, the product taken in 512 bits; `None` when the
    /// shifted product exceeds 256 bits.
    pub fn checked_mul_shr(a: U256, b: U256, shift: u16) -> (r: Option<U256>)
        ensures
            r is Some <==> (a@ * b@) / pow2(shift as nat) < u256_limit(),
            r is Some ==> r->0@ == (a@ * b@) / pow2(shift as nat),
    {
        a.full_mul(&b).shr(shift as u32).to_u256()
    }

    /// `(a * b) >> shift`, the product taken in 512 bits.
    pub fn mul_shr(a: U256, b: U256, shift: u16) -> (r: U256)
        requires
            (a@ * b@) / pow2(shift as nat) < u256_limit(),
        ensures
            r@ == (a@ * b@) / pow2(shift as nat),
    {
        match U256::checked_mul_shr(a, b, shift) {
            Some(r) => r,
            // left out by the `requires`
            None => U256::zero(),
        }
    }
}

impl U512 {
    /// Every value is below `2^512`.
    pub proof fn lemma_bound(self)
        ensures
            self@ < u512_limit(),
    {
        lemma_limbs_bound(self.limbs@);
        lemma_pow2_wide();
    }

    /// The number zero.
    pub fn zero() -> (r: U512)
        ensures
            r@ == 0,
    {
        let r = U512 { limbs: [0, 0, 0, 0, 0, 0, 0, 0] };
        proof {
            lemma_limbs_zero(r.limbs@);
        }
        r
    }

    /// The same number in 512 bits.
    pub fn from_u256(x: U256) -> (r: U512)
        ensures
            r@ == x@,
    {
        U512 { limbs: widen(&x.limbs) }
    }

    /// The value of a 128-bit integer.
    pub fn from_u128(x: u128) -> (r: U512)
        ensures
            r@ == x,
    {
        U512::from_u256(U256::from_u128(x))
    }

    /// The same number in 256 bits, when it fits.
    pub fn to_u256(&self) -> (r: Option<U256>)
        ensures
            r is Some <==> self@ < u256_limit(),
            r is Some ==> r->0@ == self@,
    {
        match narrow(&self.limbs) {
            Some(limbs) => Some(U256 { limbs }),
            None => None,
        }
    }

    /// Whether the value is zero.
    pub fn is_zero(&self) -> (r: bool)
        ensures
            r <==> self@ == 0,
    {
        let z = U512::zero();
        ge8(&z.limbs, &self.limbs)
    }

    /// `self >= other`.
    pub fn ge(&self, other: &U512) -> (r: bool)
        ensures
            r <==> self@ >= other@,
    {
        ge8(&self.limbs, &other.limbs)
    }

    /// Whether both denote the same number.
    pub fn equals(&self, other: &U512) -> (r: bool)
        ensures
            r <==> self@ == other@,
    {
        self.ge(other) && other.ge(self)
    }

    /// The value shifted right by `shift` bits.
    pub fn shr(&self, shift: u32) -> (r: U512)
        ensures
            r@ == self@ / pow2(shift as nat),
    {
        U512 { limbs: shr8(&self.limbs, shift) }
    }

    /// Quotient and remainder.
    pub fn div_rem(&self, d: &U512) -> (r: (U512, U512))
        requires
            d@ != 0,
        ensures
            r.0@ == self@ / d@,
            r.1@ == self@ % d@,
    {
        let (q, r) = divrem8(&self.limbs, &d.limbs);
        (U512 { limbs: q }, U512 { limbs: r })
    }
}

/// `a / b` in 512 bits, rounded as [`div_rounded`] says.
pub fn div512(a: U512, b: U512, rounding_up: bool) -> (r: U512)
    requires
        b@ != 0,
    ensures
        r@ == div_rounded(a@, b@, rounding_up),
{
    let (q, rem) = divrem8(&a.limbs, &b.limbs);
    proof {
        lemma_div_rounded(a@, b@, rounding_up);
    }
    if !rounding_up {
        return U512 { limbs: q };
    }
    let (twice, carry) = shl1_8(&rem, false);
    if carry || ge8(&twice, &b.limbs) {
        let one = [1u64, 0, 0, 0, 0, 0, 0, 0];
        let (up, _) = add8(&q, &one);
        proof {
            lemma_prefix_step(one@, 0);
            assert(one@.take(0) =~= Seq::<u64>::empty());
            lemma_limbs_split(one@, 1);
            lemma_limbs_zero(one@.skip(1));
            assert(pow2(64) * 0 == 0);
            vstd::arithmetic::power2::lemma2_to64();
            assert(limbs_value(one@) == 1);
            a.lemma_bound();
            b.lemma_bound();
            lemma_pow2_wide();
            lemma_limbs_bound(up@);
            lemma_limbs_bound(twice@);
        }
        U512 { limbs: up }
    } else {
        proof {
            lemma_limbs_bound(twice@);
            lemma_pow2_wide();
        }
        U512 { limbs: q }
    }
}

/// `a / b`, rounded as [`div_rounded`] says; `None` only when `b` is zero.
pub fn checked_div(a: U256, b: U256, rounding_up: bool) -> (r: Option<U256>)
    ensures
        r is Some <==> b@ != 0,
        r is Some ==> r->0@ == div_rounded(a@, b@, rounding_up),
{
    if b.is_zero() {
        return None;
    }
    proof {
        lemma_div_rounded(a@, b@, rounding_up);
        a.lemma_bound();
    }
    div512(U512::from_u256(a), U512::from_u256(b), rounding_up).to_u256()
}

/// `a / b`, rounded as [`div_rounded`] says.
pub fn div(a: U256, b: U256, rounding_up: bool) -> (r: U256)
    requires
        b@ != 0,
    ensures
        r@ == div_rounded(a@, b@, rounding_up),
{
    match checked_div(a, b, rounding_up) {
        Some(r) => r,
        // left out by the `requires`
        None => U256::zero(),
    }
}

/// `a * b / c` with the product taken in 512 bits and the quotient rounded as
/// [`div_rounded`] says; `None` when `c` is zero or the quotient exceeds 256
/// bits.
pub fn checked_mul_div(a: U256, b: U256, c: U256, rounding_up: bool) -> (r: Option<U256>)
    ensures
        r is Some <==> c@ != 0 && div_rounded(a@ * b@, c@, rounding_up) < u256_limit(),
        r is Some ==> r->0@ == div_rounded(a@ * b@, c@, rounding_up),
{
    if c.is_zero() {
        return None;
    }
    div512(a.full_mul(&b), U512::from_u256(c), rounding_up).to_u256()
}

/// `a * b / c` with the product taken in 512 bits and the quotient rounded as
/// [`div_rounded`] says.
pub fn mul_div(a: U256, b: U256, c: U256, rounding_up: bool) -> (r: U256)
    requires
        c@ != 0,
        div_rounded(a@ * b@, c@, rounding_up) < u256_limit(),
    ensures
        r@ == div_rounded(a@ * b@, c@, rounding_up),
{
    match checked_mul_div(a, b, c, rounding_up) {
        Some(r) => r,
        // left out by the `requires`
        None => U256::zero(),
    }
}

} // verus!
