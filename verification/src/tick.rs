//! Ticks and square-root prices.
//!
//! A tick is a price step of one basis point: the price at tick `t` is
//! `1.0001^t`. Its square root is kept as a Q128.128 number, computed from a
//! table of twenty factors, one for each bit of the tick's magnitude. A tick
//! index groups `tick_space` consecutive ticks.

use vstd::prelude::*;
use vstd::arithmetic::power2::{pow2, lemma_pow2_unfold, lemma_pow2_pos, lemma2_to64};
use vstd::arithmetic::div_mod::{
    lemma_div_denominator, lemma_div_is_ordered_by_denominator, lemma_fundamental_div_mod,
    lemma_fundamental_div_mod_converse, lemma_small_mod,
};
use crate::limbs::lemma_pow2_wide;
use crate::u256::{q128, u256_limit, div, lemma_div_rounded, U256};

verus! {

/// The highest tick whose price a pool may hold.
pub const MAX_TICK: i32 = 887271i32;

/// The lowest tick whose price a pool may hold.
pub const MIN_TICK: i32 = -887272i32;

/// Ticks of a magnitude below this one have their own square-root price; the
/// table reads the magnitude's low twenty bits.
pub const TICK_LIMIT: i32 = 1048576i32;

/// One, as a Q128.128 number: `2^128`.
pub fn denominator() -> (one: U256)
    ensures
        one@ == q128(),
{
    U256::from_words(1, 0)
}

/// The factor for bit `k` of a tick's magnitude: `1.0001^(-2^k / 2)` as a
/// Q128.128 number. Beyond the table it is one.
pub open spec fn multiplier(k: nat) -> nat {
    if k == 0 {
        0xfffc_b933_bd6f_ad37_aa2d_162d_1a59_4001nat
    } else if k == 1 {
        0xfff9_7272_373d_4132_59a4_6990_580e_213anat
    } else if k == 2 {
        0xfff2_e50f_5f65_6932_ef12_357c_f3c7_fdccnat
    } else if k == 3 {
        0xffe5_caca_7e10_e4e6_1c36_24ea_a094_1cd0nat
    } else if k == 4 {
        0xffcb_9843_d60f_6159_c9db_5883_5c92_6644nat
    } else if k == 5 {
        0xff97_3b41_fa98_c081_472e_6896_dfb2_54c0nat
    } else if k == 6 {
        0xff2e_a164_66c9_6a38_43ec_78b3_26b5_2861nat
    } else if k == 7 {
        0xfe5d_ee04_6a99_a2a8_11c4_61f1_969c_3053nat
    } else if k == 8 {
        0xfcbe_86c7_900a_88ae_dcff_c83b_479a_a3a4nat
    } else if k == 9 {
        0xf987_a725_3ac4_1317_6f2b_074c_f781_5e54nat
    } else if k == 10 {
        0xf339_2b08_22b7_0005_940c_7a39_8e4b_70f3nat
    } else if k == 11 {
        0xe715_9475_a2c2_9b74_43b2_9c7f_a6e8_89d9nat
    } else if k == 12 {
        0xd097_f3bd_fd20_22b8_845a_d8f7_92aa_5825nat
    } else if k == 13 {
        0xa9f7_4646_2d87_0fdf_8a65_dc1f_90e0_61e5nat
    } else if k == 14 {
        0x70d8_69a1_56d2_a1b8_90bb_3df6_2baf_32f7nat
    } else if k == 15 {
        0x31be_135f_97d0_8fd9_8123_1505_542f_cfa6nat
    } else if k == 16 {
        0x9aa_508b_5b7a_84e1_c677_de54_f3e9_9bc9nat
    } else if k == 17 {
        0x5d_6af8_dedb_8119_6699_c329_225e_e604nat
    } else if k == 18 {
        0x2216_e584_f5fa_1ea9_2604_1bed_fe98nat
    } else if k == 19 {
        0x48a_1703_91f7_dc42_444e_8fa2nat
    } else {
        q128()
    }
}

/// Bit `k` of `n`.
pub open spec fn tick_bit(n: nat, k: nat) -> bool {
    (n / pow2(k)) % 2 == 1
}

/// One table step: `x` times the factor for bit `k`, shifted back to Q128.128.
pub open spec fn scale_step(x: nat, k: nat) -> nat {
    x * multiplier(k) / q128()
}

/// The Q128.128 ratio after the factors of the bits below `k` that are set in
/// `n` have been applied to one, lowest bit first.
pub open spec fn tick_ratio(n: nat, k: nat) -> nat
    decreases k,
{
    if k == 0 {
        q128()
    } else {
        let prev = tick_ratio(n, (k - 1) as nat);
        if tick_bit(n, (k - 1) as nat) {
            scale_step(prev, (k - 1) as nat)
        } else {
            prev
        }
    }
}

/// The square-root price at a tick, as a Q128.128 number: the table ratio of
/// the tick's magnitude, inverted through `(2^256 - 1) / ratio` for a positive
/// tick.
pub open spec fn sqrt_price(tick: int) -> nat {
    let n = if tick < 0 { (-tick) as nat } else { tick as nat };
    let ratio = tick_ratio(n, 20);
    if tick > 0 {
        ((u256_limit() - 1) as nat) / ratio
    } else {
        ratio
    }
}

/// The ratio with every bit below `k` set: the least that `k` steps can give.
pub open spec fn floor_chain(k: nat) -> nat
    decreases k,
{
    if k == 0 {
        q128()
    } else {
        scale_step(floor_chain((k - 1) as nat), (k - 1) as nat)
    }
}

/// No factor exceeds one, and none is zero.
pub proof fn lemma_multiplier_bound(k: nat)
    ensures
        0 < multiplier(k) <= q128(),
{
}

/// A table step does not increase a value and keeps the order of two values.
pub proof fn lemma_scale_step(x: nat, y: nat, k: nat)
    requires
        x <= y,
    ensures
        scale_step(x, k) <= scale_step(y, k),
        scale_step(y, k) <= y,
{
    lemma_multiplier_bound(k);
    let m = multiplier(k);
    let d = q128();
    assert(x * m / d <= y * m / d && y * m / d <= y) by (nonlinear_arith)
        requires
            x <= y,
            0 < m <= d,
    ;
}

/// The values of the all-bits-set chain.
pub proof fn lemma_floor_chain_values()
    ensures
        floor_chain(0) == 0x1_0000_0000_0000_0000_0000_0000_0000_0000nat,
        floor_chain(1) == 0xfffc_b933_bd6f_ad37_aa2d_162d_1a59_4001nat,
        floor_chain(2) == 0xfff6_2bbb_6d45_8ec3_c792_1063_91dc_463enat,
        floor_chain(3) == 0xffe9_114b_9cf2_8d39_4c32_03db_d44e_b085nat,
        floor_chain(4) == 0xffce_de6f_1d8b_e90b_88f3_5042_4e84_e5b7nat,
        floor_chain(5) == 0xff9a_80c1_ada7_480b_1daa_871d_7c4d_9b36nat,
        floor_chain(6) == 0xff31_e58d_5a53_c84f_c142_023e_c1b1_dfd7nat,
        floor_chain(7) == 0xfe61_2f81_83b1_ea21_b72f_b71b_0354_2ae4nat,
        floor_chain(8) == 0xfcc1_c2f3_8053_6bc6_7ee1_ff56_4d10_80b2nat,
        floor_chain(9) == 0xf98a_d8c8_d7ec_c0a3_f8a4_2c97_24cf_fb6anat,
        floor_chain(10) == 0xf33c_4801_89b4_1523_5ad1_1942_7d89_a1f6nat,
        floor_chain(11) == 0xe718_89a8_5903_fd03_cb7c_c40b_df37_1a9cnat,
        floor_chain(12) == 0xd09a_9f3e_93db_5812_d482_0c2f_c67a_3e3anat,
        floor_chain(13) == 0xa9f9_7334_5b9e_647c_4163_af91_d00b_255fnat,
        floor_chain(14) == 0x70d9_db64_85f0_4ddd_567e_07c7_b89f_8e7cnat,
        floor_chain(15) == 0x31be_b65d_91af_63ae_717a_760b_e3b3_74dcnat,
        floor_chain(16) == 0x9aa_7036_fd23_5542_9c40_30b0_32e1_cf71nat,
        floor_chain(17) == 0x5d_6c2a_f97a_aa8d_e0e5_a6bf_23f5_e547nat,
        floor_chain(18) == 0x2217_5538_8a66_58e1_20f4_a3c5_03cfnat,
        floor_chain(19) == 0x48a_25e3_6942_a4fc_0c1f_899fnat,
        floor_chain(20) == 0x14_9b78_73d8_4d48nat,
{
    reveal_with_fuel(floor_chain, 2);
    assert(floor_chain(0) == 0x1_0000_0000_0000_0000_0000_0000_0000_0000nat);
    assert(floor_chain(1) == 0xfffc_b933_bd6f_ad37_aa2d_162d_1a59_4001nat);
    assert(floor_chain(2) == 0xfff6_2bbb_6d45_8ec3_c792_1063_91dc_463enat);
    assert(floor_chain(3) == 0xffe9_114b_9cf2_8d39_4c32_03db_d44e_b085nat);
    assert(floor_chain(4) == 0xffce_de6f_1d8b_e90b_88f3_5042_4e84_e5b7nat);
    assert(floor_chain(5) == 0xff9a_80c1_ada7_480b_1daa_871d_7c4d_9b36nat);
    assert(floor_chain(6) == 0xff31_e58d_5a53_c84f_c142_023e_c1b1_dfd7nat);
    assert(floor_chain(7) == 0xfe61_2f81_83b1_ea21_b72f_b71b_0354_2ae4nat);
    assert(floor_chain(8) == 0xfcc1_c2f3_8053_6bc6_7ee1_ff56_4d10_80b2nat);
    assert(floor_chain(9) == 0xf98a_d8c8_d7ec_c0a3_f8a4_2c97_24cf_fb6anat);
    assert(floor_chain(10) == 0xf33c_4801_89b4_1523_5ad1_1942_7d89_a1f6nat);
    assert(floor_chain(11) == 0xe718_89a8_5903_fd03_cb7c_c40b_df37_1a9cnat);
    assert(floor_chain(12) == 0xd09a_9f3e_93db_5812_d482_0c2f_c67a_3e3anat);
    assert(floor_chain(13) == 0xa9f9_7334_5b9e_647c_4163_af91_d00b_255fnat);
    assert(floor_chain(14) == 0x70d9_db64_85f0_4ddd_567e_07c7_b89f_8e7cnat);
    assert(floor_chain(15) == 0x31be_b65d_91af_63ae_717a_760b_e3b3_74dcnat);
    assert(floor_chain(16) == 0x9aa_7036_fd23_5542_9c40_30b0_32e1_cf71nat);
    assert(floor_chain(17) == 0x5d_6c2a_f97a_aa8d_e0e5_a6bf_23f5_e547nat);
    assert(floor_chain(18) == 0x2217_5538_8a66_58e1_20f4_a3c5_03cfnat);
    assert(floor_chain(19) == 0x48a_25e3_6942_a4fc_0c1f_899fnat);
    assert(floor_chain(20) == 0x14_9b78_73d8_4d48nat);
}

/// The all-bits-set chain only falls.
pub proof fn lemma_floor_chain_falls(j: nat, k: nat)
    requires
        j <= k,
    ensures
        floor_chain(k) <= floor_chain(j),
    decreases k,
{
    if j < k {
        lemma_floor_chain_falls(j, (k - 1) as nat);
        lemma_scale_step(floor_chain((k - 1) as nat), floor_chain((k - 1) as nat), (k - 1) as nat);
    }
}

/// Every ratio lies between the all-bits-set chain and one.
pub proof fn lemma_tick_ratio_bounds(n: nat, k: nat)
    ensures
        floor_chain(k) <= tick_ratio(n, k) <= q128(),
    decreases k,
{
    if k > 0 {
        let j = (k - 1) as nat;
        lemma_tick_ratio_bounds(n, j);
        lemma_scale_step(floor_chain(j), tick_ratio(n, j), j);
        lemma_scale_step(floor_chain(j), floor_chain(j), j);
    }
}

/// Every table ratio of twenty steps is at least `2^52`.
pub proof fn lemma_tick_ratio_positive(n: nat)
    ensures
        0x10_0000_0000_0000 <= tick_ratio(n, 20) <= q128(),
{
    lemma_tick_ratio_bounds(n, 20);
    lemma_floor_chain_values();
}

/// Every square-root price is positive and below `2^205`.
pub proof fn lemma_sqrt_price_bounds(tick: int)
    ensures
        0x10_0000_0000_0000 <= sqrt_price(tick) < 0x2000_0000_0000_0000_0000_0000_0000_0000_0000_0000_0000_0000_0000,
{
    let n = if tick < 0 { (-tick) as nat } else { tick as nat };
    lemma_tick_ratio_positive(n);
    let r = tick_ratio(n, 20);
    if tick > 0 {
        let top = (u256_limit() - 1) as nat;
        lemma_div_is_ordered_by_denominator(top as int, 0x10_0000_0000_0000, r as int);
        lemma_div_is_ordered_by_denominator(top as int, r as int, q128() as int);
        lemma_fundamental_div_mod_converse(top as int, q128() as int, q128() - 1, q128() - 1);
    }
}

/// `a` lies below `b` by one part in 20001.5 of `b`, as a ratio does below
/// the ratio of the magnitude before it: by at least one part in 20002 and at
/// most one part in 20001, give or take `c` units for the steps that have
/// rounded both down.
pub open spec fn gap(a: nat, b: nat, c: nat) -> bool {
    &&& a <= b
    &&& 20002 * (b - a) >= b - c * 20002
    &&& 20001 * (b - a) <= b + c * 20001
}

/// A table step on both values keeps their gap, at the price of one more unit
/// of slack.
pub proof fn lemma_gap_step(a: nat, b: nat, k: nat, c: nat)
    requires
        gap(a, b, c),
    ensures
        gap(scale_step(a, k), scale_step(b, k), c + 1),
{
    lemma_multiplier_bound(k);
    lemma_scale_step(a, b, k);
    let m = multiplier(k);
    let am = a * m;
    let bm = b * m;
    let cm = c * m;
    lemma_fundamental_div_mod(am as int, q128() as int);
    lemma_fundamental_div_mod(bm as int, q128() as int);
    assert(20002 * bm - 20002 * am >= bm - 20002 * cm && 20001 * bm - 20001 * am <= bm + 20001 * cm)
        by (nonlinear_arith)
        requires
            20002 * (b - a) >= b - c * 20002,
            20001 * (b - a) <= b + c * 20001,
            am == a * m,
            bm == b * m,
            cm == c * m,
            a <= b,
    ;
    assert(cm <= c * q128()) by (nonlinear_arith)
        requires
            cm == c * m,
            m <= q128(),
    ;
}

/// Each factor lies one part in 20001.5 below the chain of all lower bits.
pub proof fn lemma_gap_base(k: nat)
    requires
        k < 20,
    ensures
        gap(multiplier(k), floor_chain(k), 0),
{
    lemma_floor_chain_values();
}

/// Decrementing across a multiple of `p` borrows from the quotient, and a
/// multiple of `2p` is a multiple of `p` with an even quotient.
pub proof fn lemma_carry(x: nat, p: nat)
    requires
        p > 0,
        x >= 1,
    ensures
        x % p == 0 ==> (x - 1) / (p as int) == x / p - 1,
        x % p != 0 ==> (x - 1) / (p as int) == x / p,
        x % (2 * p) == 0 <==> (x % p == 0 && (x / p) % 2 == 0),
{
    let q = x / p;
    let r = x % p;
    lemma_fundamental_div_mod(x as int, p as int);
    if r == 0 {
        assert(q >= 1) by (nonlinear_arith)
            requires
                x == p * q,
                x >= 1,
                p > 0,
        ;
        assert(x - 1 == (q - 1) * p + (p - 1)) by (nonlinear_arith)
            requires
                x == p * q,
        ;
        lemma_fundamental_div_mod_converse(x - 1, p as int, q - 1, p - 1);
    } else {
        assert(x - 1 == q * p + (r - 1)) by (nonlinear_arith)
            requires
                x == p * q + r,
        ;
        lemma_fundamental_div_mod_converse(x - 1, p as int, q as int, r - 1);
    }
    let q2 = x / (2 * p);
    let r2 = x % (2 * p);
    lemma_fundamental_div_mod(x as int, (2 * p) as int);
    if r2 == 0 {
        assert(x == (2 * q2) * p + 0) by (nonlinear_arith)
            requires
                x == (2 * p) * q2,
        ;
        lemma_fundamental_div_mod_converse(x as int, p as int, (2 * q2) as int, 0);
    }
    if r == 0 && q % 2 == 0 {
        let v = q / 2;
        assert(x == v * (2 * p) + 0) by (nonlinear_arith)
            requires
                x == p * q,
                q == 2 * v,
        ;
        lemma_fundamental_div_mod_converse(x as int, (2 * p) as int, v as int, 0);
    }
}

/// How the ratios of `n` and `n + 1` compare after `k` steps. While the
/// increment still carries through the low `k` bits, `n` has them all set and
/// `n + 1` has none; once the carry has settled, the ratio of `n + 1` lies a
/// gap below that of `n`.
pub proof fn lemma_ratio_pair(n: nat, k: nat)
    requires
        k <= 20,
    ensures
        (n + 1) % pow2(k) == 0 ==> tick_ratio(n, k) == floor_chain(k) && tick_ratio(n + 1, k) == q128(),
        (n + 1) % pow2(k) != 0 ==> gap(tick_ratio(n + 1, k), tick_ratio(n, k), k),
    decreases k,
{
    if k == 0 {
        lemma2_to64();
    } else {
        let j = (k - 1) as nat;
        let p = pow2(j);
        lemma_ratio_pair(n, j);
        lemma_pow2_unfold(k);
        lemma_pow2_pos(j);
        lemma_carry(n + 1, p);
        assert(n + 1 - 1 == n);
        if (n + 1) % p == 0 {
            let u = (n + 1) / p;
            assert(n / p == u - 1);
            if u % 2 == 0 {
                assert(tick_bit(n, j));
                assert(!tick_bit(n + 1, j));
            } else {
                assert(!tick_bit(n, j));
                assert(tick_bit(n + 1, j));
                lemma_gap_base(j);
                lemma_fundamental_div_mod_converse(
                    (q128() * multiplier(j)) as int,
                    q128() as int,
                    multiplier(j) as int,
                    0,
                );
                assert(scale_step(q128(), j) == multiplier(j));
            }
        } else {
            assert(n / p == (n + 1) / p);
            assert(tick_bit(n, j) == tick_bit(n + 1, j));
            if tick_bit(n, j) {
                lemma_gap_step(tick_ratio(n + 1, j), tick_ratio(n, j), j, j);
            }
        }
    }
}

/// From one magnitude of the table to the next the ratio falls by one part
/// in 20001.5, which is what the square root of a basis point comes to: by at
/// least one part in 20002 and at most one part in 20001, give or take twenty
/// units.
pub proof fn lemma_ratio_step_size(n: nat)
    requires
        n + 1 < 1048576,
    ensures
        gap(tick_ratio(n + 1, 20), tick_ratio(n, 20), 20),
{
    lemma_ratio_pair(n, 20);
    lemma2_to64();
    lemma_small_mod(n + 1, 1048576);
}

/// Over the magnitudes of the table, the ratio strictly falls.
pub proof fn lemma_ratio_strictly_falls(n: nat)
    requires
        n + 1 < 1048576,
    ensures
        tick_ratio(n + 1, 20) < tick_ratio(n, 20),
{
    lemma_ratio_step_size(n);
    lemma_tick_ratio_positive(n);
}

/// Dividing `2^256 - 1` by the smaller of two ratios gives strictly more.
pub proof fn lemma_inverse_order(a: nat, b: nat)
    requires
        0 < a < b <= q128(),
    ensures
        ((u256_limit() - 1) as nat) / b < ((u256_limit() - 1) as nat) / a,
{
    let top = (u256_limit() - 1) as nat;
    let qa = top / a;
    let qb = top / b;
    lemma_fundamental_div_mod(top as int, a as int);
    lemma_fundamental_div_mod(top as int, b as int);
    lemma_div_is_ordered_by_denominator(top as int, b as int, q128() as int);
    lemma_fundamental_div_mod_converse(top as int, q128() as int, q128() - 1, q128() - 1);
    if qa <= qb {
        assert(false) by (nonlinear_arith)
            requires
                top == a * qa + top % a,
                top % a < a,
                top == b * qb + top % b,
                0 < a < b,
                qa <= qb,
                qb >= a,
        ;
    }
}

/// The table ratio of zero is one.
pub proof fn lemma_tick_ratio_zero(k: nat)
    ensures
        tick_ratio(0, k) == q128(),
    decreases k,
{
    if k > 0 {
        lemma_tick_ratio_zero((k - 1) as nat);
        lemma_pow2_pos((k - 1) as nat);
        assert(0nat / pow2((k - 1) as nat) == 0) by (nonlinear_arith)
            requires
                pow2((k - 1) as nat) > 0,
        ;
    }
}

/// From one tick to the next the square-root price strictly rises.
pub proof fn lemma_sqrt_price_step(t: int)
    requires
        -TICK_LIMIT < t,
        t + 1 < TICK_LIMIT,
    ensures
        sqrt_price(t) < sqrt_price(t + 1),
{
    let top = (u256_limit() - 1) as nat;
    if t < 0 {
        lemma_ratio_strictly_falls((-t - 1) as nat);
    } else if t == 0 {
        lemma_ratio_strictly_falls(0);
        lemma_tick_ratio_zero(20);
        lemma_tick_ratio_positive(1);
        let r = tick_ratio(1, 20);
        let below = (q128() - 1) as nat;
        lemma_div_is_ordered_by_denominator(top as int, r as int, below as int);
        lemma_fundamental_div_mod_converse(top as int, below as int, (q128() + 1) as int, 0);
    } else {
        lemma_ratio_strictly_falls(t as nat);
        lemma_tick_ratio_positive(t as nat);
        lemma_tick_ratio_positive((t + 1) as nat);
        lemma_inverse_order(tick_ratio((t + 1) as nat, 20), tick_ratio(t as nat, 20));
    }
}

/// Over the ticks of the table the square-root price is strictly increasing.
pub proof fn lemma_sqrt_price_monotone(a: int, b: int)
    requires
        -TICK_LIMIT < a <= b < TICK_LIMIT,
    ensures
        sqrt_price(a) <= sqrt_price(b),
        a < b ==> sqrt_price(a) < sqrt_price(b),
    decreases b - a,
{
    if a < b {
        lemma_sqrt_price_monotone(a, b - 1);
        lemma_sqrt_price_step(b - 1);
    }
}

/// The table factor for bit `k`.
fn multiplier_at(k: u32) -> (m: u128)
    requires
        k < 20,
    ensures
        m == multiplier(k as nat),
{
    match k {
        0 => 0xfffc_b933_bd6f_ad37_aa2d_162d_1a59_4001,
        1 => 0xfff9_7272_373d_4132_59a4_6990_580e_213a,
        2 => 0xfff2_e50f_5f65_6932_ef12_357c_f3c7_fdcc,
        3 => 0xffe5_caca_7e10_e4e6_1c36_24ea_a094_1cd0,
        4 => 0xffcb_9843_d60f_6159_c9db_5883_5c92_6644,
        5 => 0xff97_3b41_fa98_c081_472e_6896_dfb2_54c0,
        6 => 0xff2e_a164_66c9_6a38_43ec_78b3_26b5_2861,
        7 => 0xfe5d_ee04_6a99_a2a8_11c4_61f1_969c_3053,
        8 => 0xfcbe_86c7_900a_88ae_dcff_c83b_479a_a3a4,
        9 => 0xf987_a725_3ac4_1317_6f2b_074c_f781_5e54,
        10 => 0xf339_2b08_22b7_0005_940c_7a39_8e4b_70f3,
        11 => 0xe715_9475_a2c2_9b74_43b2_9c7f_a6e8_89d9,
        12 => 0xd097_f3bd_fd20_22b8_845a_d8f7_92aa_5825,
        13 => 0xa9f7_4646_2d87_0fdf_8a65_dc1f_90e0_61e5,
        14 => 0x70d8_69a1_56d2_a1b8_90bb_3df6_2baf_32f7,
        15 => 0x31be_135f_97d0_8fd9_8123_1505_542f_cfa6,
        16 => 0x9aa_508b_5b7a_84e1_c677_de54_f3e9_9bc9,
        17 => 0x5d_6af8_dedb_8119_6699_c329_225e_e604,
        18 => 0x2216_e584_f5fa_1ea9_2604_1bed_fe98,
        _ => 0x48a_1703_91f7_dc42_444e_8fa2,
    }
}

/// The square-root price at `tick`, as a Q128.128 number.
pub fn get_tick_price_sqrt(tick: i32) -> (price: U256)
    requires
        tick > i32::MIN,
    ensures
        price@ == sqrt_price(tick as int),
{
    let magnitude: u32 = if tick < 0 { (-tick) as u32 } else { tick as u32 };
    let mut ratio = U256::from_words(1, 0);
    let mut rest: u32 = magnitude;
    let mut k: u32 = 0;
    proof {
        lemma2_to64();
    }
    while k < 20
        invariant
            k <= 20,
            rest as nat == (magnitude as nat) / pow2(k as nat),
            ratio@ == tick_ratio(magnitude as nat, k as nat),
        decreases 20 - k,
    {
        proof {
            lemma_tick_ratio_bounds(magnitude as nat, k as nat);
            lemma_tick_ratio_bounds(magnitude as nat, (k + 1) as nat);
            lemma_pow2_wide();
            lemma_pow2_unfold((k + 1) as nat);
            lemma_pow2_pos(k as nat);
            lemma_div_denominator(magnitude as int, pow2(k as nat) as int, 2);
            assert(pow2(k as nat) * 2 == pow2((k + 1) as nat));
        }
        if rest % 2 == 1 {
            let m = U256::from_u128(multiplier_at(k));
            proof {
                let x = ratio@;
                lemma_multiplier_bound(k as nat);
                assert(x * m@ / q128() <= x) by (nonlinear_arith)
                    requires
                        0 < m@ <= q128(),
                ;
            }
            ratio = U256::mul_shr(ratio, m, 128);
        }
        rest = rest / 2;
        k += 1;
    }
    proof {
        lemma_tick_ratio_positive(magnitude as nat);
    }
    if tick > 0 {
        proof {
            lemma_div_rounded((u256_limit() - 1) as nat, ratio@, false);
        }
        ratio = div(U256::max_value(), ratio, false);
    }
    ratio
}

/// `t` is the tick that holds `price`: a tick a pool may hold whose own price
/// is at most `price` while the next tick's is above it.
pub open spec fn is_floor_tick(price: nat, t: int) -> bool {
    MIN_TICK <= t <= MAX_TICK && sqrt_price(t) <= price < sqrt_price(t + 1)
}

/// Whether some tick holds `price`: it lies between the price of the lowest
/// tick and that of the tick after the highest.
pub open spec fn price_in_range(price: nat) -> bool {
    sqrt_price(MIN_TICK as int) <= price < sqrt_price(MAX_TICK + 1)
}

/// The tick that holds `price`.
pub open spec fn tick_at_price(price: nat) -> int {
    choose|t: int| is_floor_tick(price, t)
}

/// At most one tick holds a price.
pub proof fn lemma_floor_tick_unique(price: nat, s: int, t: int)
    requires
        is_floor_tick(price, s),
        is_floor_tick(price, t),
    ensures
        s == t,
{
    if s < t {
        lemma_sqrt_price_monotone(s + 1, t);
    }
    if t < s {
        lemma_sqrt_price_monotone(t + 1, s);
    }
}

/// A tick that holds a price is the tick at that price.
pub proof fn lemma_tick_at_price(price: nat, t: int)
    requires
        is_floor_tick(price, t),
    ensures
        tick_at_price(price) == t,
        price_in_range(price),
{
    lemma_floor_tick_unique(price, t, tick_at_price(price));
    lemma_sqrt_price_monotone(MIN_TICK as int, t);
    lemma_sqrt_price_monotone(t + 1, MAX_TICK + 1);
}

/// The tick recovered from a valid tick's own square-root price, or from any
/// price above it that stays below the next tick's, is that tick.
pub proof fn lemma_tick_round_trip(t: int, excess: nat)
    requires
        MIN_TICK <= t <= MAX_TICK,
        sqrt_price(t) + excess < sqrt_price(t + 1),
    ensures
        tick_at_price(sqrt_price(t) + excess) == t,
        price_in_range(sqrt_price(t) + excess),
{
    lemma_tick_at_price(sqrt_price(t) + excess, t);
}

/// The tick on which the search for `price` ends: the tick that holds the
/// price; for a price below that of the lowest tick, the tick below the
/// lowest; for a price at or above that of the tick after the highest, the
/// highest tick.
pub open spec fn searched_tick(price: nat) -> int {
    if price < sqrt_price(MIN_TICK as int) {
        MIN_TICK - 1
    } else if price >= sqrt_price(MAX_TICK + 1) {
        MAX_TICK as int
    } else {
        tick_at_price(price)
    }
}

/// The tick that holds `price_sqrt`, found by halving the search window
/// twenty times from tick 0. A price that no tick holds ends the search on
/// the tick next to the ticks a pool may hold, on its side of them.
pub fn get_tick_from_price_sqrt(price_sqrt: U256) -> (tick: i32)
    ensures
        tick == searched_tick(price_sqrt@),
        price_in_range(price_sqrt@) ==> is_floor_tick(price_sqrt@, tick as int),
{
    let ghost price = price_sqrt@;
    let mut tick: i32 = 0;
    let mut step: i32 = 524288;
    let mut i: u32 = 0;
    let ghost mut odd: int = 0;
    proof {
        lemma2_to64();
    }
    while i < 19
        invariant
            i <= 19,
            price == price_sqrt@,
            step as nat == pow2((19 - i) as nat),
            step >= 1,
            -TICK_LIMIT + 2 * step <= tick <= TICK_LIMIT - 2 * step,
            price_in_range(price) ==> sqrt_price(
                if tick - 2 * step > MIN_TICK {
                    tick - 2 * step
                } else {
                    MIN_TICK as int
                },
            ) <= price < sqrt_price(
                if tick + 2 * step < MAX_TICK + 1 {
                    tick + 2 * step
                } else {
                    MAX_TICK + 1
                },
            ),
            price < sqrt_price(MIN_TICK as int) ==> tick - 2 * step <= MIN_TICK - 1 < tick + 2 * step,
            price >= sqrt_price(MAX_TICK + 1) ==> tick - 2 * step <= MAX_TICK < tick + 2 * step,
            i >= 1 ==> tick == 2 * step * odd && odd % 2 == 1,
            i == 0 ==> tick == 0,
        decreases 19 - i,
    {
        let tick_price = get_tick_price_sqrt(tick);
        let ghost before = tick as int;
        let ghost mut up = true;
        proof {
            if MIN_TICK <= tick <= MAX_TICK {
                lemma_sqrt_price_monotone(MIN_TICK as int, tick as int);
                lemma_sqrt_price_monotone(tick as int, MAX_TICK + 1);
            }
        }
        if tick < MIN_TICK {
            tick = tick + step;
        } else if tick > MAX_TICK {
            tick = tick - step;
            proof {
                up = false;
            }
        } else if price_sqrt.equals(&tick_price) {
            proof {
                lemma_sqrt_price_step(tick as int);
                if price_in_range(price) {
                    lemma_tick_at_price(price, tick as int);
                }
            }
            return tick;
        } else if price_sqrt.gt(&tick_price) {
            tick = tick + step;
        } else {
            tick = tick - step;
            proof {
                up = false;
            }
        }
        proof {
            lemma_pow2_unfold((19 - i) as nat);
            let half = step / 2;
            let next = if up { 2 * odd + 1 } else { 2 * odd - 1 };
            if i >= 1 {
                assert(tick == 2 * half * next) by (nonlinear_arith)
                    requires
                        before == 2 * step * odd,
                        step == 2 * half,
                        tick == before + (if up { step as int } else { -step }),
                        next == (if up { 2 * odd + 1 } else { 2 * odd - 1 }),
                ;
                odd = next;
            } else {
                odd = if up { 1 } else { -1 };
                assert(tick == 2 * half * odd) by (nonlinear_arith)
                    requires
                        step == 2 * half,
                        tick == (if up { step as int } else { -step }),
                        odd == (if up { 1int } else { -1int }),
                ;
            }
        }
        step = step / 2;
        i += 1;
    }
    proof {
        assert(step == 1);
        assert(tick == 2 * odd);
        if MIN_TICK <= tick <= MAX_TICK {
            lemma_sqrt_price_monotone(MIN_TICK as int, tick as int);
            lemma_sqrt_price_monotone(tick as int, MAX_TICK + 1);
        }
        lemma_sqrt_price_step(MAX_TICK as int);
        if price_in_range(price) {
            lemma_sqrt_price_monotone(-TICK_LIMIT + 1, MIN_TICK as int);
            lemma_sqrt_price_monotone(MAX_TICK + 1, TICK_LIMIT - 1);
            if tick - 2 <= MIN_TICK && tick + 2 <= MIN_TICK {
                lemma_sqrt_price_monotone(tick + 2, MIN_TICK as int);
            }
            if tick - 2 >= MAX_TICK + 1 {
                lemma_sqrt_price_monotone(MAX_TICK + 1, tick - 2);
            }
        }
    }
    let tick_price = get_tick_price_sqrt(tick);
    if tick < MIN_TICK {
        tick = tick + 1;
    } else if tick > MAX_TICK {
        tick = tick - 1;
    } else if price_sqrt.equals(&tick_price) {
        proof {
            lemma_sqrt_price_step(tick as int);
        }
    } else if price_sqrt.gt(&tick_price) {
        tick = tick + 1;
        let next_price = get_tick_price_sqrt(tick);
        if price_sqrt.lt(&next_price) {
            tick = tick - 1;
        }
    } else {
        tick = tick - 1;
        let next_price = get_tick_price_sqrt(tick);
        proof {
            if tick <= MIN_TICK {
                lemma_sqrt_price_monotone(tick as int, MIN_TICK as int);
            }
        }
        if price_sqrt.lt(&next_price) {
            tick = tick - 1;
        }
    }
    proof {
        if price_in_range(price) {
            lemma_tick_at_price(price, tick as int);
        }
    }
    tick
}

/// The index of the bucket of `spacing` ticks that holds `tick`: the floor of
/// the quotient.
pub open spec fn tick_index_of(tick: int, spacing: int) -> int {
    tick / spacing
}

/// The first tick of the bucket with index `index`.
pub open spec fn tick_of_index(index: int, spacing: int) -> int {
    index * spacing
}

/// The index of the bucket of `tick_space` ticks that holds `tick`. Negative
/// ticks round toward negative infinity.
pub fn tick_to_tick_index(tick: i32, tick_space: u16) -> (index: i32)
    requires
        tick_space > 0,
    ensures
        index == tick_index_of(tick as int, tick_space as int),
{
    let space: i64 = tick_space as i64;
    if tick >= 0 {
        (tick as i64 / space) as i32
    } else {
        let below: i64 = -(tick as i64);
        let whole: i64 = below / space;
        let left: i64 = below % space;
        proof {
            let t = tick as int;
            let s = space as int;
            assert(below == s * whole + left) by {
                lemma_fundamental_div_mod(below as int, s);
            }
            if left == 0 {
                assert(t == (-whole) * s + 0) by (nonlinear_arith)
                    requires
                        -t == s * whole,
                ;
                lemma_fundamental_div_mod_converse(t, s, -whole, 0);
            } else {
                assert(t == (-whole - 1) * s + (s - left)) by (nonlinear_arith)
                    requires
                        -t == s * whole + left,
                ;
                lemma_fundamental_div_mod_converse(t, s, -whole - 1, s - left);
            }
            assert(whole + left <= below) by (nonlinear_arith)
                requires
                    below == s * whole + left,
                    s >= 1,
                    left >= 0,
                    whole >= 0,
            ;
        }
        if left == 0 {
            (-whole) as i32
        } else {
            (-whole - 1) as i32
        }
    }
}

/// The first tick of the bucket with index `tick`.
pub fn tick_index_to_tick(tick: i32, tick_space: u16) -> (first: i32)
    requires
        i32::MIN <= tick_of_index(tick as int, tick_space as int) <= i32::MAX,
    ensures
        first == tick_of_index(tick as int, tick_space as int),
{
    let wide: i64 = tick as i64;
    let space: i64 = tick_space as i64;
    assert(-0x8000_0000 * 0x1_0000 <= wide * space <= 0x8000_0000 * 0x1_0000) by (nonlinear_arith)
        requires
            -0x8000_0000 <= wide < 0x8000_0000,
            0 <= space < 0x1_0000,
    ;
    (wide * space) as i32
}

/// The first tick of a bucket, when it is a tick that `i32` can hold.
pub fn checked_tick_index_to_tick(tick: i32, tick_space: u16) -> (first: Option<i32>)
    ensures
        first is Some <==> i32::MIN <= tick_of_index(tick as int, tick_space as int) <= i32::MAX,
        first is Some ==> first->0 == tick_of_index(tick as int, tick_space as int),
{
    let wide: i64 = tick as i64;
    let space: i64 = tick_space as i64;
    assert(-0x8000_0000 * 0x1_0000 <= wide * space <= 0x8000_0000 * 0x1_0000) by (nonlinear_arith)
        requires
            -0x8000_0000 <= wide < 0x8000_0000,
            0 <= space < 0x1_0000,
    ;
    let product: i64 = wide * space;
    if product < -0x8000_0000 || product > 0x7fff_ffff {
        None
    } else {
        Some(product as i32)
    }
}

/// The bucket that holds the first tick of bucket `index` is `index` itself.
pub proof fn lemma_tick_index_round_trip(index: int, spacing: int)
    requires
        spacing > 0,
    ensures
        tick_index_of(tick_of_index(index, spacing), spacing) == index,
{
    lemma_fundamental_div_mod_converse(index * spacing, spacing, index, 0);
}

} // verus!
