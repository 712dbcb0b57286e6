//! Little-endian sequences of 64-bit limbs and what they denote.

use vstd::prelude::*;
use vstd::arithmetic::power2::{
    pow2, lemma_pow2_adds, lemma_pow2_pos, lemma_pow2_unfold, lemma_pow2_strictly_increases, lemma2_to64,
};
use vstd::arithmetic::div_mod::{lemma_fundamental_div_mod_converse, lemma_div_denominator};
use vstd::bits::{lemma_u64_shl_is_mul, lemma_u64_pow2_no_overflow};

verus! {

/// The radix of one limb, `2^64`.
pub open spec fn limb_base() -> nat {
    0x1_0000_0000_0000_0000
}

/// The natural number that a little-endian limb sequence denotes.
pub open spec fn limbs_value(s: Seq<u64>) -> nat
    decreases s.len(),
{
    if s.len() == 0 {
        0
    } else {
        limbs_value(s.drop_last()) + (s.last() as nat) * pow2((64 * (s.len() - 1)) as nat)
    }
}

/// `2^(64 * (i + 1))` is the limb radix times `2^(64 * i)`.
pub proof fn lemma_pow2_limb_step(i: nat)
    ensures
        pow2(64 * (i + 1)) == limb_base() * pow2(64 * i),
        pow2(64 * i) > 0,
{
    lemma_pow2_adds(64, 64 * i);
    lemma2_to64();
    lemma_pow2_pos(64 * i);
    assert(64 + 64 * i == 64 * (i + 1));
}

/// The value of a prefix grows by the next limb, weighted by its position.
pub proof fn lemma_prefix_step(s: Seq<u64>, i: int)
    requires
        0 <= i < s.len(),
    ensures
        limbs_value(s.take(i + 1)) == limbs_value(s.take(i)) + (s[i] as nat) * pow2((64 * i) as nat),
{
    assert(s.take(i + 1).drop_last() =~= s.take(i));
}

/// A sequence of `n` limbs denotes a number below `2^(64 n)`.
pub proof fn lemma_limbs_bound(s: Seq<u64>)
    ensures
        limbs_value(s) < pow2((64 * s.len()) as nat),
    decreases s.len(),
{
    if s.len() == 0 {
        lemma2_to64();
    } else {
        let n = (s.len() - 1) as nat;
        lemma_limbs_bound(s.drop_last());
        lemma_pow2_limb_step(n);
        let p = pow2(64 * n);
        let l = s.last() as nat;
        assert(l * p + p <= limb_base() * p) by (nonlinear_arith)
            requires
                l + 1 <= limb_base(),
        ;
    }
}

/// Replacing one limb changes the value by the difference of the two limbs,
/// weighted by the position.
pub proof fn lemma_limbs_update(s: Seq<u64>, k: int, v: u64)
    requires
        0 <= k < s.len(),
    ensures
        limbs_value(s.update(k, v)) + (s[k] as nat) * pow2((64 * k) as nat) == limbs_value(s) + (v as nat)
            * pow2((64 * k) as nat),
    decreases s.len(),
{
    if k == s.len() - 1 {
        assert(s.update(k, v).drop_last() =~= s.drop_last());
    } else {
        assert(s.update(k, v).drop_last() =~= s.drop_last().update(k, v));
        lemma_limbs_update(s.drop_last(), k, v);
    }
}

/// A sequence of zero limbs denotes zero.
pub proof fn lemma_limbs_zero(s: Seq<u64>)
    requires
        forall|i: int| 0 <= i < s.len() ==> s[i] == 0,
    ensures
        limbs_value(s) == 0,
    decreases s.len(),
{
    if s.len() > 0 {
        lemma_limbs_zero(s.drop_last());
    }
}

/// The value splits at any position into a low part and a weighted high part.
pub proof fn lemma_limbs_split(s: Seq<u64>, k: int)
    requires
        0 <= k <= s.len(),
    ensures
        limbs_value(s) == limbs_value(s.take(k)) + pow2((64 * k) as nat) * limbs_value(s.skip(k)),
    decreases s.len(),
{
    if k == s.len() {
        assert(s.take(k) =~= s);
        assert(s.skip(k) =~= Seq::<u64>::empty());
        assert(pow2((64 * k) as nat) * 0 == 0) by (nonlinear_arith);
    } else {
        let d = s.drop_last();
        let n = (s.len() - 1) as nat;
        lemma_limbs_split(d, k);
        assert(d.take(k) =~= s.take(k));
        assert(d.skip(k) =~= s.skip(k).drop_last());
        lemma_pow2_adds((64 * k) as nat, (64 * (n - k)) as nat);
        assert(64 * k + 64 * (n - k) == 64 * n);
        let pk = pow2((64 * k) as nat);
        let pr = pow2((64 * (n - k)) as nat);
        let l = s.last() as nat;
        let rest = limbs_value(s.skip(k).drop_last());
        assert(pk * (rest + l * pr) == pk * rest + l * (pk * pr)) by (nonlinear_arith);
    }
}

/// The value is the lowest limb plus the radix times the value of the rest.
pub proof fn lemma_limbs_first(s: Seq<u64>)
    requires
        s.len() > 0,
    ensures
        limbs_value(s) == (s[0] as nat) + limb_base() * limbs_value(s.drop_first()),
{
    lemma_limbs_split(s, 1);
    lemma_prefix_step(s, 0);
    assert(s.take(0) =~= Seq::<u64>::empty());
    assert(s.skip(1) =~= s.drop_first());
    lemma2_to64();
}

/// A sequence that denotes zero holds only zero limbs.
pub proof fn lemma_limbs_zero_value(s: Seq<u64>)
    requires
        limbs_value(s) == 0,
    ensures
        forall|i: int| 0 <= i < s.len() ==> s[i] == 0,
    decreases s.len(),
{
    if s.len() > 0 {
        let n = (s.len() - 1) as nat;
        lemma_pow2_pos(64 * n);
        let p = pow2(64 * n);
        let l = s.last() as nat;
        assert(l == 0) by (nonlinear_arith)
            requires
                l * p == 0,
                p > 0,
        ;
        lemma_limbs_zero_value(s.drop_last());
        assert forall|i: int| 0 <= i < s.len() implies s[i] == 0 by {
            if i < s.len() - 1 {
                assert(s.drop_last()[i] == s[i]);
            }
        }
    }
}

/// `2^128`, `2^256` and `2^512` written out.
pub proof fn lemma_pow2_wide()
    ensures
        pow2(64) == 0x1_0000_0000_0000_0000,
        pow2(128) == 0x1_0000_0000_0000_0000_0000_0000_0000_0000,
        pow2(192) == 0x1_0000_0000_0000_0000_0000_0000_0000_0000_0000_0000_0000_0000,
        pow2(256) == 0x1_0000_0000_0000_0000_0000_0000_0000_0000_0000_0000_0000_0000_0000_0000_0000_0000,
        pow2(512)
            == 0x1_0000_0000_0000_0000_0000_0000_0000_0000_0000_0000_0000_0000_0000_0000_0000_0000_0000_0000_0000_0000_0000_0000_0000_0000_0000_0000_0000_0000_0000_0000_0000_0000,
{
    lemma2_to64();
    lemma_pow2_adds(64, 64);
    lemma_pow2_adds(128, 64);
    lemma_pow2_adds(128, 128);
    lemma_pow2_adds(256, 256);
    let w2: nat = 0x1_0000_0000_0000_0000_0000_0000_0000_0000nat;
    let w4: nat = 0x1_0000_0000_0000_0000_0000_0000_0000_0000_0000_0000_0000_0000_0000_0000_0000_0000nat;
    assert(w2 * w2 == w4) by (nonlinear_arith)
        requires
            w2 == 0x1_0000_0000_0000_0000_0000_0000_0000_0000,
            w4 == 0x1_0000_0000_0000_0000_0000_0000_0000_0000_0000_0000_0000_0000_0000_0000_0000_0000,
    ;
    assert(w4 * w4
        == 0x1_0000_0000_0000_0000_0000_0000_0000_0000_0000_0000_0000_0000_0000_0000_0000_0000_0000_0000_0000_0000_0000_0000_0000_0000_0000_0000_0000_0000_0000_0000_0000_0000)
        by (nonlinear_arith)
        requires
            w4 == 0x1_0000_0000_0000_0000_0000_0000_0000_0000_0000_0000_0000_0000_0000_0000_0000_0000,
    ;
}

/// The value of four limbs, written out.
pub proof fn lemma_limbs_four(s: Seq<u64>)
    requires
        s.len() == 4,
    ensures
        limbs_value(s) == (s[0] as nat) + (s[1] as nat) * 0x1_0000_0000_0000_0000nat + (s[2] as nat)
            * 0x1_0000_0000_0000_0000_0000_0000_0000_0000nat + (s[3] as nat)
            * 0x1_0000_0000_0000_0000_0000_0000_0000_0000_0000_0000_0000_0000nat,
{
    lemma_pow2_wide();
    lemma2_to64();
    lemma_prefix_step(s, 0);
    lemma_prefix_step(s, 1);
    lemma_prefix_step(s, 2);
    lemma_prefix_step(s, 3);
    assert(s.take(0) =~= Seq::<u64>::empty());
    assert(s.take(4) =~= s);
    let (unit0, unit1, unit2, unit3) = (pow2(0), pow2(64), pow2(128), pow2(192));
    assert((s[0] as nat) * unit0 == s[0] as nat) by (nonlinear_arith)
        requires
            unit0 == 1,
    ;
    assert((s[1] as nat) * unit1 == (s[1] as nat) * 0x1_0000_0000_0000_0000nat) by (nonlinear_arith)
        requires
            unit1 == 0x1_0000_0000_0000_0000nat,
    ;
    assert((s[2] as nat) * unit2 == (s[2] as nat) * 0x1_0000_0000_0000_0000_0000_0000_0000_0000nat)
        by (nonlinear_arith)
        requires
            unit2 == 0x1_0000_0000_0000_0000_0000_0000_0000_0000nat,
    ;
    assert((s[3] as nat) * unit3 == (s[3] as nat)
        * 0x1_0000_0000_0000_0000_0000_0000_0000_0000_0000_0000_0000_0000nat) by (nonlinear_arith)
        requires
            unit3 == 0x1_0000_0000_0000_0000_0000_0000_0000_0000_0000_0000_0000_0000nat,
    ;
}

/// Adds two 8-limb numbers; the flag is the carry out of the top limb.
pub(crate) fn add8(a: &[u64; 8], b: &[u64; 8]) -> (res: ([u64; 8], bool))
    ensures
        limbs_value(res.0@) + (if res.1 { pow2(512) } else { 0 }) == limbs_value(a@) + limbs_value(b@),
{
    let mut out = [0u64; 8];
    let mut carry: u64 = 0;
    let mut i: usize = 0;
    while i < 8
        invariant
            i <= 8,
            carry <= 1,
            limbs_value(out@.take(i as int)) + carry * pow2((64 * i) as nat) == limbs_value(
                a@.take(i as int),
            ) + limbs_value(b@.take(i as int)),
        decreases 8 - i,
    {
        let t: u128 = a[i] as u128 + b[i] as u128 + carry as u128;
        let ghost prev = out@;
        let ghost old_carry = carry;
        out[i] = (t % 0x1_0000_0000_0000_0000) as u64;
        carry = (t / 0x1_0000_0000_0000_0000) as u64;
        proof {
            assert(out@.take(i as int) =~= prev.take(i as int));
            lemma_prefix_step(out@, i as int);
            lemma_prefix_step(a@, i as int);
            lemma_prefix_step(b@, i as int);
            lemma_pow2_limb_step(i as nat);
            let p = pow2((64 * i) as nat);
            let lo = out@[i as int] as nat;
            let hi = carry as nat;
            assert(lo * p + hi * (limb_base() * p) == (a@[i as int] as nat) * p + (b@[i as int] as nat) * p
                + (old_carry as nat) * p) by (nonlinear_arith)
                requires
                    lo + hi * limb_base() == a@[i as int] as nat + b@[i as int] as nat + old_carry as nat,
            ;
        }
        i += 1;
    }
    proof {
        assert(out@.take(8) =~= out@);
        assert(a@.take(8) =~= a@);
        assert(b@.take(8) =~= b@);
    }
    (out, carry == 1)
}

/// Subtracts two 8-limb numbers modulo `2^512`; the flag is the borrow out of
/// the top limb, set exactly when the first number is the smaller one.
pub(crate) fn sub8(a: &[u64; 8], b: &[u64; 8]) -> (res: ([u64; 8], bool))
    ensures
        limbs_value(res.0@) + limbs_value(b@) == limbs_value(a@) + (if res.1 {
            pow2(512)
        } else {
            0
        }),
        res.1 <==> limbs_value(a@) < limbs_value(b@),
{
    let mut out = [0u64; 8];
    let mut borrow: u64 = 0;
    let mut i: usize = 0;
    while i < 8
        invariant
            i <= 8,
            borrow <= 1,
            limbs_value(out@.take(i as int)) + limbs_value(b@.take(i as int)) == limbs_value(
                a@.take(i as int),
            ) + borrow * pow2((64 * i) as nat),
        decreases 8 - i,
    {
        let t: u128 = (a[i] as u128 + 0x1_0000_0000_0000_0000) - b[i] as u128 - borrow as u128;
        let ghost prev = out@;
        let ghost old_borrow = borrow;
        out[i] = (t % 0x1_0000_0000_0000_0000) as u64;
        borrow = 1 - (t / 0x1_0000_0000_0000_0000) as u64;
        proof {
            assert(out@.take(i as int) =~= prev.take(i as int));
            lemma_prefix_step(out@, i as int);
            lemma_prefix_step(a@, i as int);
            lemma_prefix_step(b@, i as int);
            lemma_pow2_limb_step(i as nat);
            let p = pow2((64 * i) as nat);
            let lo = out@[i as int] as nat;
            let nb = borrow as nat;
            assert(lo * p + (b@[i as int] as nat) * p + (old_borrow as nat) * p == (a@[i as int] as nat) * p
                + nb * (limb_base() * p)) by (nonlinear_arith)
                requires
                    lo + b@[i as int] as nat + old_borrow as nat == a@[i as int] as nat + nb * limb_base(),
            ;
        }
        i += 1;
    }
    proof {
        assert(out@.take(8) =~= out@);
        assert(a@.take(8) =~= a@);
        assert(b@.take(8) =~= b@);
        lemma_limbs_bound(out@);
        lemma_limbs_bound(a@);
        lemma_limbs_bound(b@);
    }
    (out, borrow == 1)
}

/// Whether the first 8-limb number is at least the second.
pub(crate) fn ge8(a: &[u64; 8], b: &[u64; 8]) -> (res: bool)
    ensures
        res <==> limbs_value(a@) >= limbs_value(b@),
{
    let (_, borrow) = sub8(a, b);
    !borrow
}

/// Doubles an 8-limb number and adds the incoming bit; the flag is the bit
/// shifted out of the top limb.
pub(crate) fn shl1_8(a: &[u64; 8], carry_in: bool) -> (res: ([u64; 8], bool))
    ensures
        limbs_value(res.0@) + (if res.1 { pow2(512) } else { 0 }) == 2 * limbs_value(a@) + (if carry_in {
            1nat
        } else {
            0
        }),
{
    let mut out = [0u64; 8];
    let mut carry: u64 = if carry_in { 1 } else { 0 };
    let mut i: usize = 0;
    proof {
        lemma2_to64();
    }
    while i < 8
        invariant
            i <= 8,
            carry <= 1,
            limbs_value(out@.take(i as int)) + carry * pow2((64 * i) as nat) == 2 * limbs_value(
                a@.take(i as int),
            ) + (if carry_in { 1nat } else { 0 }),
        decreases 8 - i,
    {
        let x = a[i];
        let ghost prev = out@;
        let ghost old_carry = carry;
        out[i] = (x % 0x8000_0000_0000_0000) * 2 + carry;
        carry = x / 0x8000_0000_0000_0000;
        proof {
            assert(out@.take(i as int) =~= prev.take(i as int));
            lemma_prefix_step(out@, i as int);
            lemma_prefix_step(a@, i as int);
            lemma_pow2_limb_step(i as nat);
            let p = pow2((64 * i) as nat);
            let lo = out@[i as int] as nat;
            let hi = carry as nat;
            assert(lo * p + hi * (limb_base() * p) == 2 * ((x as nat) * p) + (old_carry as nat) * p)
                by (nonlinear_arith)
                requires
                    lo + hi * limb_base() == 2 * (x as nat) + old_carry as nat,
            ;
        }
        i += 1;
    }
    proof {
        assert(out@.take(8) =~= out@);
        assert(a@.take(8) =~= a@);
    }
    (out, carry == 1)
}

/// The full product of two 4-limb numbers, as 8 limbs.
pub(crate) fn mul4(a: &[u64; 4], b: &[u64; 4]) -> (out: [u64; 8])
    ensures
        limbs_value(out@) == limbs_value(a@) * limbs_value(b@),
{
    let mut out = [0u64; 8];
    let mut i: usize = 0;
    proof {
        lemma_limbs_zero(out@);
        assert(limbs_value(a@.take(0)) * limbs_value(b@) == 0) by (nonlinear_arith)
            requires
                limbs_value(a@.take(0)) == 0,
        ;
    }
    while i < 4
        invariant
            i <= 4,
            limbs_value(out@) == limbs_value(a@.take(i as int)) * limbs_value(b@),
            forall|k: int| i + 4 <= k < 8 ==> out@[k] == 0,
        decreases 4 - i,
    {
        let mut carry: u64 = 0;
        let mut j: usize = 0;
        let limb_a = a[i];
        proof {
            assert(limbs_value(b@.take(0)) == 0);
            assert((limb_a as nat) * pow2((64 * i) as nat) * limbs_value(b@.take(0)) == 0) by (nonlinear_arith)
                requires
                    limbs_value(b@.take(0)) == 0,
            ;
        }
        while j < 4
            invariant
                i < 4,
                j <= 4,
                limb_a == a@[i as int],
                limbs_value(out@) + (carry as nat) * pow2((64 * (i + j)) as nat) == limbs_value(
                    a@.take(i as int),
                ) * limbs_value(b@) + (limb_a as nat) * pow2((64 * i) as nat) * limbs_value(b@.take(j as int)),
                forall|k: int| i + 4 <= k < 8 ==> out@[k] == 0,
            decreases 4 - j,
        {
            let limb_b = b[j];
            let cur = out[i + j];
            assert((limb_a as nat) * (limb_b as nat) <= 0xffff_ffff_ffff_ffff * 0xffff_ffff_ffff_ffff)
                by (nonlinear_arith);
            let t: u128 = (limb_a as u128) * (limb_b as u128) + cur as u128 + carry as u128;
            let ghost prev = out@;
            let ghost old_carry = carry;
            out[i + j] = (t % 0x1_0000_0000_0000_0000) as u64;
            carry = (t / 0x1_0000_0000_0000_0000) as u64;
            proof {
                lemma_limbs_update(prev, (i + j) as int, out@[(i + j) as int]);
                lemma_prefix_step(b@, j as int);
                lemma_pow2_limb_step((i + j) as nat);
                lemma_pow2_adds((64 * i) as nat, (64 * j) as nat);
                assert(64 * i + 64 * j == 64 * (i + j));
                let pi = pow2((64 * i) as nat);
                let pj = pow2((64 * j) as nat);
                let p = pow2((64 * (i + j)) as nat);
                let lo = out@[(i + j) as int] as nat;
                let hi = carry as nat;
                let bpre = limbs_value(b@.take(j as int));
                assert(lo * p + hi * (limb_base() * p) == ((limb_a as nat) * (limb_b as nat)) * p + (cur as nat) * p
                    + (old_carry as nat) * p) by (nonlinear_arith)
                    requires
                        lo + hi * limb_base() == (limb_a as nat) * (limb_b as nat) + cur as nat + old_carry as nat,
                ;
                assert((limb_a as nat) * pi * (bpre + (limb_b as nat) * pj) == (limb_a as nat) * pi * bpre + ((limb_a as nat)
                    * (limb_b as nat)) * p) by (nonlinear_arith)
                    requires
                        p == pi * pj,
                ;
            }
            j += 1;
        }
        let ghost prev = out@;
        out[i + 4] = carry;
        proof {
            lemma_limbs_update(prev, (i + 4) as int, carry);
            assert(b@.take(4) =~= b@);
            lemma_prefix_step(a@, i as int);
            let pi = pow2((64 * i) as nat);
            let apre = limbs_value(a@.take(i as int));
            let bv = limbs_value(b@);
            assert((apre + (limb_a as nat) * pi) * bv == apre * bv + (limb_a as nat) * pi * bv) by (nonlinear_arith);
            assert(prev[(i + 4) as int] == 0);
            assert(0 * pow2((64 * (i + 4)) as nat) == 0);
        }
        i += 1;
    }
    proof {
        assert(a@.take(4) =~= a@);
    }
    out
}

/// Quotient and remainder of two 8-limb numbers, by binary long division.
pub(crate) fn divrem8(a: &[u64; 8], b: &[u64; 8]) -> (res: ([u64; 8], [u64; 8]))
    requires
        limbs_value(b@) > 0,
    ensures
        limbs_value(res.0@) == limbs_value(a@) / limbs_value(b@),
        limbs_value(res.1@) == limbs_value(a@) % limbs_value(b@),
{
    let mut n = *a;
    let mut q = [0u64; 8];
    let mut r = [0u64; 8];
    let ghost mut hi: nat = 0;
    let ghost av = limbs_value(a@);
    let ghost bv = limbs_value(b@);
    let mut k: u32 = 0;
    proof {
        lemma2_to64();
        lemma_limbs_zero(q@);
        lemma_limbs_zero(r@);
        assert(0 * bv == 0);
        assert(0 * pow2(512) == 0);
    }
    while k < 512
        invariant
            k <= 512,
            av == limbs_value(a@),
            bv == limbs_value(b@),
            bv > 0,
            av * pow2(k as nat) == hi * pow2(512) + limbs_value(n@),
            hi < pow2(k as nat),
            hi == limbs_value(q@) * bv + limbs_value(r@),
            limbs_value(r@) < bv,
        decreases 512 - k,
    {
        let (n2, c) = shl1_8(&n, false);
        let (r2, cr) = shl1_8(&r, c);
        let (d, borrow) = sub8(&r2, b);
        let take = cr || !borrow;
        let (q2, cq) = shl1_8(&q, take);
        proof {
            let p = pow2(k as nat);
            let top = pow2(512);
            let cn: nat = if c { 1 } else { 0 };
            let tn: nat = if take { 1 } else { 0 };
            let qv = limbs_value(q@);
            let rv = limbs_value(r@);
            let hi2 = 2 * hi + cn;
            lemma_pow2_unfold((k + 1) as nat);
            lemma_limbs_bound(b@);
            lemma_limbs_bound(d@);
            lemma_limbs_bound(q2@);
            assert(av * (2 * p) == 2 * (av * p)) by (nonlinear_arith);
            assert(hi2 * top == 2 * (hi * top) + cn * top) by (nonlinear_arith)
                requires
                    hi2 == 2 * hi + cn,
            ;
            assert((2 * qv + tn) * bv == 2 * (qv * bv) + tn * bv) by (nonlinear_arith);
            assert(2 * qv + tn <= (2 * qv + tn) * bv) by (nonlinear_arith)
                requires
                    bv >= 1,
            ;
            if k + 1 < 512 {
                lemma_pow2_strictly_increases((k + 1) as nat, 512);
            }
        }
        n = n2;
        if take {
            r = d;
        } else {
            r = r2;
        }
        q = q2;
        proof {
            hi = 2 * hi + (if c { 1nat } else { 0 });
        }
        k += 1;
    }
    proof {
        let top = pow2(512);
        let nv = limbs_value(n@);
        lemma_limbs_bound(n@);
        assert(av == hi) by (nonlinear_arith)
            requires
                av * top == hi * top + nv,
                nv < top,
        ;
        lemma_fundamental_div_mod_converse(
            av as int,
            bv as int,
            limbs_value(q@) as int,
            limbs_value(r@) as int,
        );
    }
    (q, r)
}

/// Quotient and remainder of an 8-limb number by a single non-zero limb.
pub(crate) fn div_small8(a: &[u64; 8], d: u64) -> (res: ([u64; 8], u64))
    requires
        d > 0,
    ensures
        limbs_value(res.0@) == limbs_value(a@) / (d as nat),
        res.1 as nat == limbs_value(a@) % (d as nat),
{
    let mut q = [0u64; 8];
    let mut rem: u64 = 0;
    let mut i: usize = 8;
    proof {
        assert(a@.skip(8) =~= Seq::<u64>::empty());
        assert(q@.skip(8) =~= Seq::<u64>::empty());
        assert(0 * (d as nat) == 0);
    }
    while i > 0
        invariant
            i <= 8,
            d > 0,
            rem < d,
            limbs_value(a@.skip(i as int)) == limbs_value(q@.skip(i as int)) * (d as nat) + rem as nat,
        decreases i,
    {
        i -= 1;
        let cur: u128 = (rem as u128) * 0x1_0000_0000_0000_0000 + a[i] as u128;
        let ghost prev = q@;
        let ghost old_rem = rem;
        assert(cur / (d as u128) < 0x1_0000_0000_0000_0000) by (nonlinear_arith)
            requires
                cur < (old_rem as u128 + 1) * 0x1_0000_0000_0000_0000,
                old_rem < d,
                d > 0,
        ;
        let qd: u64 = (cur / (d as u128)) as u64;
        rem = (cur % (d as u128)) as u64;
        q[i] = qd;
        proof {
            lemma_limbs_first(a@.skip(i as int));
            lemma_limbs_first(q@.skip(i as int));
            assert(a@.skip(i as int).drop_first() =~= a@.skip(i + 1));
            assert(q@.skip(i as int).drop_first() =~= prev.skip(i + 1));
            let qs = limbs_value(prev.skip(i + 1));
            let dn = d as nat;
            assert(cur as nat == (qd as nat) * dn + rem as nat) by (nonlinear_arith)
                requires
                    qd as nat == (cur as nat) / dn,
                    rem as nat == (cur as nat) % dn,
                    dn > 0,
            ;
            assert((qd as nat + limb_base() * qs) * dn == (qd as nat) * dn + limb_base() * (qs * dn))
                by (nonlinear_arith);
        }
    }
    proof {
        assert(a@.skip(0) =~= a@);
        assert(q@.skip(0) =~= q@);
        lemma_fundamental_div_mod_converse(
            limbs_value(a@) as int,
            d as int,
            limbs_value(q@) as int,
            rem as int,
        );
    }
    (q, rem)
}

/// Shifts an 8-limb number right by any number of bits.
pub(crate) fn shr8(a: &[u64; 8], shift: u32) -> (out: [u64; 8])
    ensures
        limbs_value(out@) == limbs_value(a@) / pow2(shift as nat),
{
    if shift >= 512 {
        let out = [0u64; 8];
        proof {
            lemma_limbs_zero(out@);
            lemma_limbs_bound(a@);
            if shift > 512 {
                lemma_pow2_strictly_increases(512, shift as nat);
            }
            lemma_fundamental_div_mod_converse(
                limbs_value(a@) as int,
                pow2(shift as nat) as int,
                0,
                limbs_value(a@) as int,
            );
        }
        return out;
    }
    let skip: usize = (shift / 64) as usize;
    let bits: u32 = shift % 64;
    let mut moved = [0u64; 8];
    let mut k: usize = 0;
    while k + skip < 8
        invariant
            skip < 8,
            k + skip <= 8,
            forall|j: int| 0 <= j < k ==> moved@[j] == a@[j + skip],
            forall|j: int| k <= j < 8 ==> moved@[j] == 0,
        decreases 8 - k,
    {
        moved[k] = a[k + skip];
        k += 1;
    }
    let unit: u64 = 1u64 << bits;
    proof {
        let low = pow2((64 * skip) as nat);
        let keep = (8 - skip) as int;
        lemma_u64_pow2_no_overflow(bits as nat);
        lemma_u64_shl_is_mul(1, bits as u64);
        lemma_pow2_pos(bits as nat);
        lemma_pow2_pos((64 * skip) as nat);
        // the moved limbs denote the high part of `a`
        lemma_limbs_split(moved@, keep);
        assert(moved@.take(keep) =~= a@.skip(skip as int));
        lemma_limbs_zero(moved@.skip(keep));
        assert(pow2((64 * keep) as nat) * 0 == 0);
        lemma_limbs_split(a@, skip as int);
        lemma_limbs_bound(a@.take(skip as int));
        assert(low * limbs_value(a@.skip(skip as int)) == limbs_value(a@.skip(skip as int)) * low)
            by (nonlinear_arith);
        lemma_fundamental_div_mod_converse(
            limbs_value(a@) as int,
            low as int,
            limbs_value(moved@) as int,
            limbs_value(a@.take(skip as int)) as int,
        );
        lemma_div_denominator(limbs_value(a@) as int, low as int, pow2(bits as nat) as int);
        lemma_pow2_adds((64 * skip) as nat, bits as nat);
        assert(64 * skip + bits == shift);
    }
    let (out, _) = div_small8(&moved, unit);
    out
}

} // verus!
