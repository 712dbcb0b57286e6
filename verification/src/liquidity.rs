//! Liquidity of a position and the token amounts it stands for.
//!
//! A position spans the buckets `lower_tick_index ..= upper_tick_index`, that
//! is the prices from the first tick of the lowest bucket up to the first tick
//! after the highest. Liquidity is computed from amounts rounding down, and
//! amounts from liquidity rounding half up, so that what a deposit is worth
//! never exceeds what was deposited.

use vstd::prelude::*;
use vstd::arithmetic::div_mod::lemma_fundamental_div_mod;
use crate::asset::TokenNumber;
use crate::limbs::lemma_pow2_wide;
use crate::tick::{get_tick_price_sqrt, lemma_sqrt_price_bounds, sqrt_price};
use crate::u256::{checked_div, checked_mul_div, div, div_rounded, lemma_div_rounded, q128, u256_limit, U256};

verus! {

/// The tick at which a bucket starts (`upper` unset) or at which the bucket
/// after it starts (`upper` set).
pub open spec fn bucket_tick(index: int, space: int, upper: bool) -> int {
    if upper {
        index * space + space
    } else {
        index * space
    }
}

/// Whether `tick` is one whose price can be computed: an `i32` other than the
/// least.
pub open spec fn tick_has_price(tick: int) -> bool {
    i32::MIN < tick <= i32::MAX
}

/// Token 0 that liquidity `liquidity` holds between the square-root prices
/// `from < to`: `liquidity * 2^128 * (to - from) / to / from`, each division
/// rounded half up.
pub open spec fn amount0_between(liquidity: nat, from: nat, to: nat) -> nat {
    div_rounded(div_rounded(liquidity * q128() * ((to - from) as nat), to, true), from, true)
}

/// Token 1 that liquidity `liquidity` holds between the square-root prices
/// `from < to`: `liquidity * (to - from) / 2^128`, rounded half up.
pub open spec fn amount1_between(liquidity: nat, from: nat, to: nat) -> nat {
    div_rounded(liquidity * ((to - from) as nat), q128(), true)
}

/// The amounts of both tokens that `liquidity` stands for in the price range
/// `low .. high` at the price `current`, before they are narrowed to 128
/// bits. Below the range only token 0 is held, at or above it only token 1.
/// `None` where the range is inverted and a difference would be negative.
pub open spec fn amounts_in_range(low: nat, high: nat, current: nat, liquidity: nat) -> Option<(nat, nat)> {
    if current < low {
        if high < low {
            None
        } else {
            Some((amount0_between(liquidity, low, high), 0nat))
        }
    } else if current >= high {
        if high < low {
            None
        } else {
            Some((0nat, amount1_between(liquidity, low, high)))
        }
    } else {
        Some((amount0_between(liquidity, current, high), amount1_between(liquidity, low, current)))
    }
}

/// What [`get_token_amount_from_liquidity`] returns: zero for an inverted
/// tick range, `None` where a boundary tick has no price or an amount
/// exceeds 128 bits, and else the amounts of [`amounts_in_range`].
pub open spec fn token_amounts(
    upper_tick_index: int,
    lower_tick_index: int,
    tick_space: int,
    current: nat,
    liquidity: nat,
) -> Option<(nat, nat)> {
    let low_tick = bucket_tick(lower_tick_index, tick_space, false);
    let high_tick = bucket_tick(upper_tick_index, tick_space, true);
    if upper_tick_index < lower_tick_index {
        Some((0nat, 0nat))
    } else if !tick_has_price(low_tick) || !tick_has_price(high_tick) {
        None
    } else {
        match amounts_in_range(sqrt_price(low_tick), sqrt_price(high_tick), current, liquidity) {
            Some((amount0, amount1)) => if amount0 < q128() && amount1 < q128() {
                Some((amount0, amount1))
            } else {
                None
            },
            None => None,
        }
    }
}

/// The tick at which a bucket starts or ends, when it has a price.
pub(crate) fn bucket_boundary(index: i32, tick_space: u16, upper: bool) -> (tick: Option<i32>)
    ensures
        tick is Some <==> tick_has_price(bucket_tick(index as int, tick_space as int, upper)),
        tick is Some ==> tick->0 == bucket_tick(index as int, tick_space as int, upper),
{
    let wide: i64 = index as i64;
    let space: i64 = tick_space as i64;
    assert(-0x8000_0000 * 0x1_0000 <= wide * space <= 0x8000_0000 * 0x1_0000) by (nonlinear_arith)
        requires
            -0x8000_0000 <= wide < 0x8000_0000,
            0 <= space < 0x1_0000,
    ;
    let product: i64 = wide * space;
    let at: i64 = if upper { product + space } else { product };
    if at <= -0x8000_0000 || at > 0x7fff_ffff {
        None
    } else {
        Some(at as i32)
    }
}

/// `liquidity * 2^128 * (to - from) / to / from`, rounded half up twice.
fn token0_between(liquidity: u128, from: U256, to: U256) -> (amount: U256)
    requires
        0 < from@ <= to@,
    ensures
        amount@ == amount0_between(liquidity as nat, from@, to@),
{
    let scaled = U256::from_words(liquidity, 0);
    let span = match to.checked_sub(&from) {
        Some(span) => span,
        // left out by the `requires`
        None => U256::zero(),
    };
    proof {
        let x = scaled@;
        let part = span@;
        let whole = to@;
        assert(x * part <= x * whole) by (nonlinear_arith)
            requires
                part <= whole,
        ;
        lemma_rounded_below(x * part, whole, x);
        scaled.lemma_bound();
    }
    let inner = match checked_mul_div(scaled, span, to, true) {
        Some(inner) => inner,
        // a share of `scaled` fits as `scaled` does
        None => U256::zero(),
    };
    div(inner, from, true)
}

/// `liquidity * (to - from) / 2^128`, rounded half up.
fn token1_between(liquidity: u128, from: U256, to: U256) -> (amount: U256)
    requires
        from@ <= to@,
    ensures
        amount@ == amount1_between(liquidity as nat, from@, to@),
{
    let span = match to.checked_sub(&from) {
        Some(span) => span,
        // left out by the `requires`
        None => U256::zero(),
    };
    proof {
        span.lemma_bound();
        let l = liquidity as nat;
        let s = span@;
        lemma_div_rounded(l * s, q128(), true);
        assert(l * s / q128() < u256_limit() - 1) by (nonlinear_arith)
            requires
                l < q128(),
                s < u256_limit(),
                u256_limit() == q128() * q128(),
        ;
    }
    match checked_mul_div(U256::from_u128(liquidity), span, U256::from_words(1, 0), true) {
        Some(amount) => amount,
        // 128 bits times 256 bits over `2^128` fit 256 bits
        None => U256::zero(),
    }
}

/// The amounts of token 0 and token 1 that `liquidity` stands for in the
/// position `lower_tick_index ..= upper_tick_index` at the current price.
/// An inverted range gives zero of both.
pub fn get_token_amount_from_liquidity(
    upper_tick_index: i32,
    lower_tick_index: i32,
    tick_space: u16,
    current_price_sqrt: U256,
    liquidity: u128,
) -> (amounts: Option<(u128, u128)>)
    ensures
        match token_amounts(
            upper_tick_index as int,
            lower_tick_index as int,
            tick_space as int,
            current_price_sqrt@,
            liquidity as nat,
        ) {
            Some((amount0, amount1)) => amounts == Some((amount0 as u128, amount1 as u128)),
            None => amounts is None,
        },
{
    if upper_tick_index < lower_tick_index {
        return Some((0, 0));
    }
    let low_tick = match bucket_boundary(lower_tick_index, tick_space, false) {
        Some(tick) => tick,
        None => { return None; },
    };
    let high_tick = match bucket_boundary(upper_tick_index, tick_space, true) {
        Some(tick) => tick,
        None => { return None; },
    };
    let price_low = get_tick_price_sqrt(low_tick);
    let price_high = get_tick_price_sqrt(high_tick);
    proof {
        lemma_sqrt_price_bounds(low_tick as int);
        lemma_sqrt_price_bounds(high_tick as int);
    }
    let (amount0, amount1) = if current_price_sqrt.lt(&price_low) {
        if price_high.lt(&price_low) {
            return None;
        }
        (token0_between(liquidity, price_low, price_high), U256::zero())
    } else if current_price_sqrt.ge(&price_high) {
        if price_high.lt(&price_low) {
            return None;
        }
        (U256::zero(), token1_between(liquidity, price_low, price_high))
    } else {
        (
            token0_between(liquidity, current_price_sqrt, price_high),
            token1_between(liquidity, price_low, current_price_sqrt),
        )
    };
    match (amount0.to_u128(), amount1.to_u128()) {
        (Some(amount0), Some(amount1)) => Some((amount0, amount1)),
        _ => None,
    }
}

/// The liquidity that `amount0` of token 0 provides between the square-root
/// prices `from < to`: `to * from / (to - from) * amount0 / 2^128`, each
/// division rounded down. `None` where the range is empty or inverted, or
/// where the first quotient exceeds 256 bits.
pub open spec fn liquidity0_between(amount0: nat, from: nat, to: nat) -> Option<nat> {
    if to <= from {
        None
    } else if to * from / ((to - from) as nat) >= u256_limit() {
        None
    } else {
        Some((to * from / ((to - from) as nat)) * amount0 / q128())
    }
}

/// The liquidity that `amount1` of token 1 provides between the square-root
/// prices `from < to`: `amount1 * 2^128 / (to - from)`, rounded down. `None`
/// where the range is empty or inverted.
pub open spec fn liquidity1_between(amount1: nat, from: nat, to: nat) -> Option<nat> {
    if to <= from {
        None
    } else {
        Some(amount1 * q128() / ((to - from) as nat))
    }
}

/// The liquidity that the two amounts provide in the price range
/// `low .. high` at the price `current`, before it is narrowed to 128 bits:
/// below the range what token 0 provides, at or above it what token 1
/// provides, inside it the smaller of the two.
pub open spec fn liquidity_in_range(amount0: nat, amount1: nat, low: nat, high: nat, current: nat) -> Option<
    nat,
> {
    if current < low {
        liquidity0_between(amount0, low, high)
    } else if current >= high {
        liquidity1_between(amount1, low, high)
    } else {
        match (liquidity0_between(amount0, current, high), liquidity1_between(amount1, low, current)) {
            (Some(l0), Some(l1)) => Some(if l0 > l1 { l1 } else { l0 }),
            _ => None,
        }
    }
}

/// What [`compute_liquidity`] returns: zero for an inverted tick range,
/// `None` where a boundary tick has no price, a step of
/// [`liquidity_in_range`] fails or the liquidity exceeds 128 bits, and else
/// that liquidity.
pub open spec fn liquidity_for(
    amount0: nat,
    amount1: nat,
    current: nat,
    upper_tick_index: int,
    lower_tick_index: int,
    tick_space: int,
) -> Option<nat> {
    let low_tick = bucket_tick(lower_tick_index, tick_space, false);
    let high_tick = bucket_tick(upper_tick_index, tick_space, true);
    if upper_tick_index < lower_tick_index {
        Some(0nat)
    } else if !tick_has_price(low_tick) || !tick_has_price(high_tick) {
        None
    } else {
        match liquidity_in_range(amount0, amount1, sqrt_price(low_tick), sqrt_price(high_tick), current) {
            Some(liquidity) => if liquidity < q128() {
                Some(liquidity)
            } else {
                None
            },
            None => None,
        }
    }
}

/// What [`compute_token_liquidity`] returns: the liquidity that one token's
/// amount provides between two prices, `None` where that fails or exceeds
/// 128 bits.
pub open spec fn token_liquidity(token_number: TokenNumber, amount: nat, high: nat, low: nat) -> Option<nat> {
    let wide = match token_number {
        TokenNumber::Token0 => liquidity0_between(amount, low, high),
        TokenNumber::Token1 => liquidity1_between(amount, low, high),
    };
    match wide {
        Some(liquidity) => if liquidity < q128() {
            Some(liquidity)
        } else {
            None
        },
        None => None,
    }
}

/// `to * from / (to - from) * amount0 / 2^128`, rounded down twice.
fn liquidity_from_token0(amount0: u128, from: U256, to: U256) -> (liquidity: Option<U256>)
    ensures
        match liquidity0_between(amount0 as nat, from@, to@) {
            Some(l) => liquidity is Some && liquidity->0@ == l,
            None => liquidity is None,
        },
{
    if to.le(&from) {
        return None;
    }
    let span = match to.checked_sub(&from) {
        Some(span) => span,
        None => { return None; },
    };
    proof {
        lemma_div_rounded(to@ * from@, span@, false);
    }
    let inner = match checked_mul_div(to, from, span, false) {
        Some(inner) => inner,
        None => { return None; },
    };
    proof {
        lemma_pow2_wide();
        inner.lemma_bound();
        let i = inner@;
        let a = amount0 as nat;
        assert(i * a / q128() < u256_limit()) by (nonlinear_arith)
            requires
                i < u256_limit(),
                a < q128(),
        ;
    }
    U256::checked_mul_shr(inner, U256::from_u128(amount0), 128)
}

/// `amount1 * 2^128 / (to - from)`, rounded down.
fn liquidity_from_token1(amount1: u128, from: U256, to: U256) -> (liquidity: Option<U256>)
    ensures
        match liquidity1_between(amount1 as nat, from@, to@) {
            Some(l) => liquidity is Some && liquidity->0@ == l,
            None => liquidity is None,
        },
{
    if to.le(&from) {
        return None;
    }
    let span = match to.checked_sub(&from) {
        Some(span) => span,
        None => { return None; },
    };
    proof {
        lemma_div_rounded(amount1 as nat * q128(), span@, false);
    }
    checked_div(U256::from_words(amount1, 0), span, false)
}

/// The liquidity that depositing the two amounts into the position
/// `lower_tick_index ..= upper_tick_index` provides at the current price. An
/// inverted range gives zero.
pub fn compute_liquidity(
    token0_amount: u128,
    token1_amount: u128,
    current_price_sqrt: U256,
    upper_tick_index: i32,
    lower_tick_index: i32,
    tick_space: u16,
) -> (liquidity: Option<u128>)
    ensures
        match liquidity_for(
            token0_amount as nat,
            token1_amount as nat,
            current_price_sqrt@,
            upper_tick_index as int,
            lower_tick_index as int,
            tick_space as int,
        ) {
            Some(l) => liquidity == Some(l as u128),
            None => liquidity is None,
        },
{
    if upper_tick_index < lower_tick_index {
        return Some(0);
    }
    let low_tick = match bucket_boundary(lower_tick_index, tick_space, false) {
        Some(tick) => tick,
        None => { return None; },
    };
    let high_tick = match bucket_boundary(upper_tick_index, tick_space, true) {
        Some(tick) => tick,
        None => { return None; },
    };
    let price_low = get_tick_price_sqrt(low_tick);
    let price_high = get_tick_price_sqrt(high_tick);
    let wide = if current_price_sqrt.lt(&price_low) {
        liquidity_from_token0(token0_amount, price_low, price_high)
    } else if current_price_sqrt.ge(&price_high) {
        liquidity_from_token1(token1_amount, price_low, price_high)
    } else {
        let liquidity0 = match liquidity_from_token0(token0_amount, current_price_sqrt, price_high) {
            Some(l) => l,
            None => { return None; },
        };
        let liquidity1 = match liquidity_from_token1(token1_amount, price_low, current_price_sqrt) {
            Some(l) => l,
            None => { return None; },
        };
        if liquidity0.gt(&liquidity1) {
            Some(liquidity1)
        } else {
            Some(liquidity0)
        }
    };
    match wide {
        Some(wide) => wide.to_u128(),
        None => None,
    }
}

/// The liquidity that `token_amount` of one token alone provides between two
/// square-root prices.
pub fn compute_token_liquidity(
    token_number: TokenNumber,
    token_amount: u128,
    price_high_sqrt: U256,
    price_low_sqrt: U256,
) -> (liquidity: Option<u128>)
    ensures
        match token_liquidity(token_number, token_amount as nat, price_high_sqrt@, price_low_sqrt@) {
            Some(l) => liquidity == Some(l as u128),
            None => liquidity is None,
        },
{
    let wide = match token_number {
        TokenNumber::Token0 => liquidity_from_token0(token_amount, price_low_sqrt, price_high_sqrt),
        TokenNumber::Token1 => liquidity_from_token1(token_amount, price_low_sqrt, price_high_sqrt),
    };
    match wide {
        Some(wide) => wide.to_u128(),
        None => None,
    }
}

/// A quotient rounded half up stays at or below any whole number that the
/// exact quotient does not exceed.
pub proof fn lemma_rounded_below(x: nat, d: nat, bound: nat)
    requires
        d > 0,
        x <= bound * d,
    ensures
        div_rounded(x, d, true) <= bound,
{
    lemma_div_rounded(x, d, true);
    let q = x / d;
    let r = x % d;
    lemma_fundamental_div_mod(x as int, d as int);
    assert(q <= bound && (q == bound ==> r == 0)) by (nonlinear_arith)
        requires
            x == d * q + r,
            0 <= r < d,
            x <= bound * d,
    ;
}

/// Token 0 worth of the liquidity that `amount0` provided is at most `amount0`.
pub proof fn lemma_token0_round_trip(amount0: nat, from: nat, to: nat, liquidity: nat)
    requires
        0 < from,
        liquidity0_between(amount0, from, to) matches Some(l0) && liquidity <= l0,
    ensures
        amount0_between(liquidity, from, to) <= amount0,
{
    let span = (to - from) as nat;
    let inner = to * from / span;
    let l0 = inner * amount0 / q128();
    let y = liquidity * q128() * span;
    lemma_fundamental_div_mod((to * from) as int, span as int);
    lemma_fundamental_div_mod((inner * amount0) as int, q128() as int);
    assert(y <= (from * amount0) * to) by (nonlinear_arith)
        requires
            y == liquidity * q128() * span,
            liquidity <= l0,
            q128() * l0 <= inner * amount0,
            span * inner <= to * from,
            span > 0,
    ;
    lemma_rounded_below(y, to, from * amount0);
    assert(from * amount0 == amount0 * from) by (nonlinear_arith);
    lemma_rounded_below(div_rounded(y, to, true), from, amount0);
}

/// Token 1 worth of the liquidity that `amount1` provided is at most `amount1`.
pub proof fn lemma_token1_round_trip(amount1: nat, from: nat, to: nat, liquidity: nat)
    requires
        liquidity1_between(amount1, from, to) matches Some(l1) && liquidity <= l1,
    ensures
        amount1_between(liquidity, from, to) <= amount1,
{
    let span = (to - from) as nat;
    let l1 = amount1 * q128() / span;
    lemma_fundamental_div_mod((amount1 * q128()) as int, span as int);
    assert(liquidity * span <= amount1 * q128()) by (nonlinear_arith)
        requires
            liquidity <= l1,
            span * l1 <= amount1 * q128(),
            span > 0,
    ;
    lemma_rounded_below(liquidity * span, q128(), amount1);
}

/// What a deposit is worth never exceeds the deposit: the amounts that the
/// liquidity computed from `amount0` and `amount1` stands for, at the same
/// price and in the same position, are at most `amount0` and `amount1`.
pub proof fn lemma_deposit_never_grows(
    amount0: nat,
    amount1: nat,
    current: nat,
    upper_tick_index: int,
    lower_tick_index: int,
    tick_space: int,
)
    requires
        amount0 < q128(),
        amount1 < q128(),
    ensures
        liquidity_for(amount0, amount1, current, upper_tick_index, lower_tick_index, tick_space) matches Some(
            liquidity,
        ) ==> token_amounts(upper_tick_index, lower_tick_index, tick_space, current, liquidity) matches Some(
            (back0, back1),
        ) && back0 <= amount0 && back1 <= amount1,
{
    let low_tick = bucket_tick(lower_tick_index, tick_space, false);
    let high_tick = bucket_tick(upper_tick_index, tick_space, true);
    let low = sqrt_price(low_tick);
    let high = sqrt_price(high_tick);
    lemma_sqrt_price_bounds(low_tick);
    lemma_sqrt_price_bounds(high_tick);
    match liquidity_for(amount0, amount1, current, upper_tick_index, lower_tick_index, tick_space) {
        Some(liquidity) => {
            if upper_tick_index >= lower_tick_index {
                if current < low {
                    lemma_token0_round_trip(amount0, low, high, liquidity);
                } else if current >= high {
                    lemma_token1_round_trip(amount1, low, high, liquidity);
                } else {
                    lemma_token0_round_trip(amount0, current, high, liquidity);
                    lemma_token1_round_trip(amount1, low, current, liquidity);
                }
            }
        },
        None => {},
    }
}

} // verus!
