//! One tick's worth of a swap.
//!
//! A step trades against the liquidity of a single bucket of ticks. It either
//! stays inside the bucket, moving the price along the curve, or uses the
//! bucket up: then it consumes only what the bucket absorbs, hands out all the
//! bucket holds of the other token, and leaves the price on the bucket's edge
//! with the neighbouring bucket as the next one. The fee is taken from the
//! gross return.

use vstd::prelude::*;
use vstd::arithmetic::div_mod::lemma_div_multiples_vanish;
use crate::asset::TokenNumber;
use crate::decimal::{ratio_floor, Decimal, DECIMAL_FRACTIONAL};
use crate::liquidity::{
    bucket_boundary, bucket_tick, get_token_amount_from_liquidity, tick_has_price,
    token_amounts,
};
use crate::price::{compute_price, price_after};
use crate::tick::{get_tick_price_sqrt, sqrt_price};
use crate::u256::{checked_div, checked_mul_div, div_rounded, lemma_div_rounded, q128, u256_limit, U256};

verus! {

/// What one step of a swap does.
pub struct SwapStep {
    /// How much of the offered token the step takes in.
    pub consumed: nat,
    /// How much of the other token the step hands out, before the fee.
    pub gross_return: nat,
    /// The fee, taken from the gross return.
    pub commission: nat,
    /// The square-root price after the step.
    pub next_price: nat,
    /// The bucket in which the swap goes on.
    pub next_tick_index: int,
}

/// The step of a bucket that cannot trade: everything zero. A caller has to
/// tell it from a trade.
pub open spec fn idle_step() -> SwapStep {
    SwapStep { consumed: 0, gross_return: 0, commission: 0, next_price: 0, next_tick_index: 0 }
}

/// The fee on a gross amount: `gross * fee_rate`, rounded down.
pub open spec fn commission_of(gross: nat, fee_atomics: nat) -> Option<nat> {
    if ratio_floor(gross, fee_atomics, DECIMAL_FRACTIONAL as nat) <= u128::MAX {
        Some(ratio_floor(gross, fee_atomics, DECIMAL_FRACTIONAL as nat))
    } else {
        None
    }
}

/// The step that moves to a neighbouring bucket: it leaves the price at
/// `edge` and goes on in the bucket `next`, provided that is an `i32`.
pub open spec fn crossing_step(
    consumed: nat,
    gross_return: nat,
    fee_atomics: nat,
    edge: nat,
    next: int,
) -> Option<SwapStep> {
    match commission_of(gross_return, fee_atomics) {
        Some(commission) => if i32::MIN <= next <= i32::MAX {
            Some(SwapStep { consumed, gross_return, commission, next_price: edge, next_tick_index: next })
        } else {
            None
        },
        None => None,
    }
}

/// What the price move from `before` to `after` hands out against
/// `liquidity`, rounded down. Offering token 0 lowers the price and returns
/// `liquidity * (before - after) / 2^128` of token 1; offering token 1 raises
/// it and returns `liquidity * 2^128 * (after - before) / after / before` of
/// token 0. `None` where the price moved the wrong way, a divisor is zero or
/// the amount exceeds 128 bits.
pub open spec fn swap_return(offer_token: TokenNumber, before: nat, after: nat, liquidity: nat) -> Option<nat> {
    match offer_token {
        TokenNumber::Token0 => {
            if after > before || liquidity * ((before - after) as nat) / q128() >= q128() {
                None
            } else {
                Some(liquidity * ((before - after) as nat) / q128())
            }
        },
        TokenNumber::Token1 => {
            if after < before || before == 0 || (liquidity * q128() * ((after - before) as nat) / after) / before
                >= q128() {
                None
            } else {
                Some((liquidity * q128() * ((after - before) as nat) / after) / before)
            }
        },
    }
}

/// The step that stays inside the bucket: all of `offer` is consumed, the
/// price moves as [`price_after`] says and the return is what that move
/// hands out.
pub open spec fn interior_step(
    tick_index: int,
    current: nat,
    liquidity: nat,
    offer_token: TokenNumber,
    offer: nat,
    fee_atomics: nat,
) -> Option<SwapStep> {
    match price_after(current, liquidity, offer, offer_token) {
        Some(next_price) => match swap_return(offer_token, current, next_price, liquidity) {
            Some(gross_return) => match commission_of(gross_return, fee_atomics) {
                Some(commission) => Some(
                    SwapStep { consumed: offer, gross_return, commission, next_price, next_tick_index: tick_index },
                ),
                None => None,
            },
            None => None,
        },
        None => None,
    }
}

/// What [`compute_swap_tick`] returns.
///
/// The bucket `tick_index` spans the prices `low ..= high` of its first tick
/// and of the first tick after it. Outside them, or without liquidity, the
/// step is idle. On the edge toward which the trade moves the price, the step
/// consumes nothing and crosses. Else the bucket absorbs at most what it
/// holds of the offered token at its far edge less what it holds now: a
/// larger offer uses the bucket up and crosses, any other stays inside.
/// `None` where a boundary tick has no price or an amount leaves its range.
pub open spec fn swap_tick(
    tick_index: int,
    tick_space: int,
    current: nat,
    liquidity: nat,
    offer_token: TokenNumber,
    offer: nat,
    fee_atomics: nat,
) -> Option<SwapStep> {
    let low_tick = bucket_tick(tick_index, tick_space, false);
    let high_tick = bucket_tick(tick_index, tick_space, true);
    let low = sqrt_price(low_tick);
    let high = sqrt_price(high_tick);
    if !tick_has_price(low_tick) || !tick_has_price(high_tick) {
        None
    } else if current > high || current < low || liquidity == 0 {
        Some(idle_step())
    } else {
        match (
            token_amounts(tick_index, tick_index, tick_space, current, liquidity),
            token_amounts(tick_index, tick_index, tick_space, low, liquidity),
            token_amounts(tick_index, tick_index, tick_space, high, liquidity),
        ) {
            (Some((held0, held1)), Some((most0, _)), Some((_, most1))) => match offer_token {
                TokenNumber::Token0 => {
                    if current == low {
                        crossing_step(0, 0, 0, low, tick_index - 1)
                    } else if most0 < held0 {
                        None
                    } else if offer > most0 - held0 {
                        crossing_step((most0 - held0) as nat, held1, fee_atomics, low, tick_index - 1)
                    } else {
                        interior_step(tick_index, current, liquidity, offer_token, offer, fee_atomics)
                    }
                },
                TokenNumber::Token1 => {
                    if current == high {
                        crossing_step(0, 0, 0, high, tick_index + 1)
                    } else if most1 < held1 {
                        None
                    } else if offer > most1 - held1 {
                        crossing_step((most1 - held1) as nat, held0, fee_atomics, high, tick_index + 1)
                    } else {
                        interior_step(tick_index, current, liquidity, offer_token, offer, fee_atomics)
                    }
                },
            },
            _ => None,
        }
    }
}

/// The token that is offered fixes the way the price moves: a step that
/// takes in token 0 never raises the price, a step that takes in token 1
/// never lowers it, and the next bucket lies the same way or is the same.
pub proof fn lemma_price_moves_one_way(
    tick_index: int,
    tick_space: int,
    current: nat,
    liquidity: nat,
    offer_token: TokenNumber,
    offer: nat,
    fee_atomics: nat,
)
    ensures
        swap_tick(tick_index, tick_space, current, liquidity, offer_token, offer, fee_atomics) matches Some(step)
            ==> (step != idle_step() ==> match offer_token {
            TokenNumber::Token0 => step.next_price <= current && tick_index - 1 <= step.next_tick_index
                <= tick_index,
            TokenNumber::Token1 => step.next_price >= current && tick_index <= step.next_tick_index
                <= tick_index + 1,
        }),
        swap_tick(tick_index, tick_space, current, liquidity, offer_token, offer, fee_atomics) matches Some(step)
            ==> step.consumed <= offer,
{
}

/// At a fee rate of at most one the fee of a step is within its return.
pub proof fn lemma_fee_within_return(
    tick_index: int,
    tick_space: int,
    current: nat,
    liquidity: nat,
    offer_token: TokenNumber,
    offer: nat,
    fee_atomics: nat,
)
    requires
        fee_atomics <= DECIMAL_FRACTIONAL,
    ensures
        swap_tick(tick_index, tick_space, current, liquidity, offer_token, offer, fee_atomics) matches Some(step)
            ==> step.commission <= step.gross_return,
{
    match swap_tick(tick_index, tick_space, current, liquidity, offer_token, offer, fee_atomics) {
        Some(step) => {
            let one = DECIMAL_FRACTIONAL as nat;
            let g = step.gross_return;
            assert(g * fee_atomics / one <= g) by (nonlinear_arith)
                requires
                    fee_atomics <= one,
                    one > 0,
            ;
            assert(0nat * 0nat / one == 0) by (nonlinear_arith)
                requires
                    one > 0,
            ;
        },
        None => {},
    }
}

/// Whether an executed step is the step of the model.
pub open spec fn step_matches(step: Option<(u128, u128, u128, U256, i32)>, model: Option<SwapStep>) -> bool {
    match (step, model) {
        (Some((consumed, gross_return, commission, next_price, next_tick_index)), Some(m)) => {
            &&& consumed == m.consumed
            &&& gross_return == m.gross_return
            &&& commission == m.commission
            &&& next_price@ == m.next_price
            &&& next_tick_index == m.next_tick_index
        },
        (None, None) => true,
        _ => false,
    }
}

/// The return of a price move, rounded down.
fn compute_swap(
    offer_token: &TokenNumber,
    price_sqrt_before: U256,
    price_sqrt_after: U256,
    liquidity: u128,
) -> (amount: Option<u128>)
    ensures
        match swap_return(*offer_token, price_sqrt_before@, price_sqrt_after@, liquidity as nat) {
            Some(r) => amount == Some(r as u128),
            None => amount is None,
        },
{
    match offer_token {
        TokenNumber::Token0 => {
            let fall = price_sqrt_before.checked_sub(&price_sqrt_after)?;
            proof {
                fall.lemma_bound();
                let l = liquidity as nat;
                let f = fall@;
                lemma_div_rounded(l * f, q128(), false);
                assert(l * f / q128() < u256_limit()) by (nonlinear_arith)
                    requires
                        l < q128(),
                        f < u256_limit(),
                        u256_limit() == q128() * q128(),
                ;
            }
            let wide = checked_mul_div(U256::from_u128(liquidity), fall, U256::from_words(1, 0), false)?;
            wide.to_u128()
        },
        TokenNumber::Token1 => {
            let rise = price_sqrt_after.checked_sub(&price_sqrt_before)?;
            let scaled = U256::from_words(liquidity, 0);
            if price_sqrt_before.is_zero() {
                return None;
            }
            proof {
                scaled.lemma_bound();
                lemma_div_rounded(scaled@ * rise@, price_sqrt_after@, false);
                let s = scaled@;
                let r = rise@;
                let a = price_sqrt_after@;
                if a > 0 {
                    assert(s * r / a <= s) by (nonlinear_arith)
                        requires
                            r <= a,
                            a > 0,
                    ;
                    lemma_div_rounded(s * r / a, price_sqrt_before@, false);
                }
            }
            if price_sqrt_after.is_zero() {
                return None;
            }
            let inner = checked_mul_div(scaled, rise, price_sqrt_after, false)?;
            let wide = checked_div(inner, price_sqrt_before, false)?;
            wide.to_u128()
        },
    }
}

/// One step of a swap that offers `offer_amount` of `offer_token` to the
/// bucket `tick_index`: what it consumes, what it returns before the fee, the
/// fee, the next square-root price and the next bucket.
pub fn compute_swap_tick(
    tick_index: i32,
    tick_space: u16,
    current_price_sqrt: U256,
    liquidity: u128,
    offer_token: &TokenNumber,
    offer_amount: u128,
    fee_rate: Decimal,
) -> (step: Option<(u128, u128, u128, U256, i32)>)
    ensures
        step_matches(
            step,
            swap_tick(
                tick_index as int,
                tick_space as int,
                current_price_sqrt@,
                liquidity as nat,
                *offer_token,
                offer_amount as nat,
                fee_rate.atomics as nat,
            ),
        ),
{
    let low_tick = bucket_boundary(tick_index, tick_space, false)?;
    let high_tick = bucket_boundary(tick_index, tick_space, true)?;
    let price_low = get_tick_price_sqrt(low_tick);
    let price_high = get_tick_price_sqrt(high_tick);
    if current_price_sqrt.gt(&price_high) || current_price_sqrt.lt(&price_low) || liquidity == 0 {
        return Some((0, 0, 0, U256::zero(), 0));
    }
    let (held0, held1) = get_token_amount_from_liquidity(
        tick_index,
        tick_index,
        tick_space,
        current_price_sqrt,
        liquidity,
    )?;
    let (most0, _) = get_token_amount_from_liquidity(tick_index, tick_index, tick_space, price_low, liquidity)?;
    let (_, most1) = get_token_amount_from_liquidity(tick_index, tick_index, tick_space, price_high, liquidity)?;
    match offer_token {
        TokenNumber::Token0 => {
            if current_price_sqrt.equals(&price_low) {
                let next = tick_index.checked_sub(1)?;
                proof {
                    assert(ratio_floor(0, 0, DECIMAL_FRACTIONAL as nat) == 0);
                }
                return Some((0, 0, 0, price_low, next));
            }
            let max_offer = most0.checked_sub(held0)?;
            if offer_amount > max_offer {
                let commission = fee_rate.mul_floor(held1)?;
                let next = tick_index.checked_sub(1)?;
                Some((max_offer, held1, commission, price_low, next))
            } else {
                let next_price = compute_price(current_price_sqrt, liquidity, offer_amount, offer_token)?;
                let gross = compute_swap(offer_token, current_price_sqrt, next_price, liquidity)?;
                let commission = fee_rate.mul_floor(gross)?;
                Some((offer_amount, gross, commission, next_price, tick_index))
            }
        },
        TokenNumber::Token1 => {
            if current_price_sqrt.equals(&price_high) {
                let next = tick_index.checked_add(1)?;
                proof {
                    assert(ratio_floor(0, 0, DECIMAL_FRACTIONAL as nat) == 0);
                }
                return Some((0, 0, 0, price_high, next));
            }
            let max_offer = most1.checked_sub(held1)?;
            if offer_amount > max_offer {
                let commission = fee_rate.mul_floor(held0)?;
                let next = tick_index.checked_add(1)?;
                Some((max_offer, held0, commission, price_high, next))
            } else {
                let next_price = compute_price(current_price_sqrt, liquidity, offer_amount, offer_token)?;
                let gross = compute_swap(offer_token, current_price_sqrt, next_price, liquidity)?;
                let commission = fee_rate.mul_floor(gross)?;
                Some((offer_amount, gross, commission, next_price, tick_index))
            }
        },
    }
}

/// The gross amount a bucket has to hand out so that `net` is left after the
/// fee: `net` times `1 / (1 - fee_rate)`, the inverse taken as a decimal
/// rounded down and the product rounded down. `None` for a fee rate of one or
/// more, or where the gross amount exceeds 128 bits.
pub open spec fn gross_of_net(net: nat, fee_atomics: nat) -> Option<nat> {
    let one = DECIMAL_FRACTIONAL as nat;
    if fee_atomics >= one {
        None
    } else {
        let inverse = ratio_floor(one, one, (one - fee_atomics) as nat);
        if ratio_floor(net, inverse, one) <= u128::MAX {
            Some(ratio_floor(net, inverse, one))
        } else {
            None
        }
    }
}

/// What has to be offered at the price `before` so that `ask` of the return
/// token is handed out against `liquidity`, every division rounded half up.
///
/// For token 0: `liquidity * ask / (liquidity * 2^128 / before - ask)`, then
/// times `before / 2^128`. For token 1:
/// `ask * 2^128 * liquidity / before / (liquidity * before / 2^128 - ask)`.
/// `None` where the bucket holds no more than `ask`, a divisor is zero or a
/// quotient leaves its range.
pub open spec fn swap_offer(return_token: TokenNumber, before: nat, ask: nat, liquidity: nat) -> Option<nat> {
    match return_token {
        TokenNumber::Token0 => {
            let held = div_rounded(liquidity * q128(), before, true);
            if before == 0 || held <= ask {
                None
            } else {
                let inner = div_rounded(liquidity * ask, (held - ask) as nat, true);
                if div_rounded(inner * before, q128(), true) >= q128() {
                    None
                } else {
                    Some(div_rounded(inner * before, q128(), true))
                }
            }
        },
        TokenNumber::Token1 => {
            let share = div_rounded(ask * q128() * liquidity, before, true);
            let held = div_rounded(liquidity * before, q128(), true);
            if before == 0 || share >= u256_limit() || held <= ask {
                None
            } else if div_rounded(share, (held - ask) as nat, true) >= q128() {
                None
            } else {
                Some(div_rounded(share, (held - ask) as nat, true))
            }
        },
    }
}

/// The step that stays inside the bucket when a return is asked for: the
/// offer is what [`swap_offer`] says, all of `gross` is returned, and the
/// price is reported as it was.
pub open spec fn interior_step_reverse(
    tick_index: int,
    current: nat,
    liquidity: nat,
    return_token: TokenNumber,
    gross: nat,
    fee_atomics: nat,
) -> Option<SwapStep> {
    match swap_offer(return_token, current, gross, liquidity) {
        Some(consumed) => match commission_of(gross, fee_atomics) {
            Some(commission) => Some(
                SwapStep {
                    consumed,
                    gross_return: gross,
                    commission,
                    next_price: current,
                    next_tick_index: tick_index,
                },
            ),
            None => None,
        },
        None => None,
    }
}

/// What [`compute_swap_tick_reverse`] returns.
///
/// The asked net amount is first raised to the gross amount of
/// [`gross_of_net`]. The bucket is idle, or crossed on its edge, as in
/// [`swap_tick`]. Else, if the gross amount exceeds what the bucket holds of
/// the return token, the bucket is used up and crossed; if not, the step
/// stays inside. The inside step leaves the price where it was: a reverse
/// step only answers what has to be offered.
pub open spec fn swap_tick_reverse(
    tick_index: int,
    tick_space: int,
    current: nat,
    liquidity: nat,
    return_token: TokenNumber,
    net_return: nat,
    fee_atomics: nat,
) -> Option<SwapStep> {
    let low_tick = bucket_tick(tick_index, tick_space, false);
    let high_tick = bucket_tick(tick_index, tick_space, true);
    let low = sqrt_price(low_tick);
    let high = sqrt_price(high_tick);
    if !tick_has_price(low_tick) || !tick_has_price(high_tick) {
        None
    } else if current > high || current < low || liquidity == 0 {
        Some(idle_step())
    } else {
        match (
            gross_of_net(net_return, fee_atomics),
            token_amounts(tick_index, tick_index, tick_space, current, liquidity),
            token_amounts(tick_index, tick_index, tick_space, low, liquidity),
            token_amounts(tick_index, tick_index, tick_space, high, liquidity),
        ) {
            (Some(gross), Some((held0, held1)), Some((most0, _)), Some((_, most1))) => match return_token {
                TokenNumber::Token1 => {
                    if current == low {
                        crossing_step(0, 0, 0, low, tick_index - 1)
                    } else if most0 < held0 {
                        None
                    } else if gross > held1 {
                        crossing_step((most0 - held0) as nat, held1, fee_atomics, low, tick_index - 1)
                    } else {
                        interior_step_reverse(tick_index, current, liquidity, return_token, gross, fee_atomics)
                    }
                },
                TokenNumber::Token0 => {
                    if current == high {
                        crossing_step(0, 0, 0, high, tick_index + 1)
                    } else if most1 < held1 {
                        None
                    } else if gross > held0 {
                        crossing_step((most1 - held1) as nat, held0, fee_atomics, high, tick_index + 1)
                    } else {
                        interior_step_reverse(tick_index, current, liquidity, return_token, gross, fee_atomics)
                    }
                },
            },
            _ => None,
        }
    }
}

/// The gross amount for a net amount.
fn gross_up(net: u128, fee_rate: Decimal) -> (gross: Option<u128>)
    ensures
        match gross_of_net(net as nat, fee_rate.atomics as nat) {
            Some(g) => gross == Some(g as u128),
            None => gross is None,
        },
{
    let one_minus_fee = Decimal::one().checked_sub(fee_rate)?;
    proof {
        lemma_div_multiples_vanish(one_minus_fee.atomics as int, DECIMAL_FRACTIONAL as int);
        assert((DECIMAL_FRACTIONAL as nat) * (one_minus_fee.atomics as nat) == (one_minus_fee.atomics as nat) * (
        DECIMAL_FRACTIONAL as nat)) by (nonlinear_arith);
    }
    let scaled = one_minus_fee.mul_floor(DECIMAL_FRACTIONAL)?;
    if scaled == 0 {
        return None;
    }
    proof {
        let one = DECIMAL_FRACTIONAL as nat;
        let d = scaled as nat;
        assert(one * one / d <= one * one) by (nonlinear_arith)
            requires
                d >= 1,
        ;
        assert(one * one == 1_000_000_000_000_000_000_000_000_000_000_000_000nat) by (nonlinear_arith)
            requires
                one == 1_000_000_000_000_000_000nat,
        ;
    }
    let inverse = Decimal::from_ratio(DECIMAL_FRACTIONAL, scaled)?;
    inverse.mul_floor(net)
}

/// The offer for an asked return, rounded half up.
fn compute_swap_reverse(
    return_token: &TokenNumber,
    price_sqrt_before: U256,
    ask_amount: U256,
    liquidity: u128,
) -> (amount: Option<u128>)
    requires
        ask_amount@ < q128(),
    ensures
        match swap_offer(*return_token, price_sqrt_before@, ask_amount@, liquidity as nat) {
            Some(o) => amount == Some(o as u128),
            None => amount is None,
        },
{
    let scaled = U256::from_words(liquidity, 0);
    let plain = U256::from_u128(liquidity);
    let unit = U256::from_words(1, 0);
    if price_sqrt_before.is_zero() {
        return None;
    }
    match return_token {
        TokenNumber::Token0 => {
            let held = checked_div(scaled, price_sqrt_before, true)?;
            if held.le(&ask_amount) {
                return None;
            }
            let room = held.checked_sub(&ask_amount)?;
            proof {
                let l = liquidity as nat;
                let a = ask_amount@;
                lemma_div_rounded(l * a, room@, true);
                assert(l * a < u256_limit()) by (nonlinear_arith)
                    requires
                        l < q128(),
                        a < q128(),
                        u256_limit() == q128() * q128(),
                ;
            }
            let inner = checked_mul_div(plain, ask_amount, room, true)?;
            let wide = match checked_mul_div(inner, price_sqrt_before, unit, true) {
                Some(wide) => wide,
                None => { return None; },
            };
            wide.to_u128()
        },
        TokenNumber::Token1 => {
            let shifted = match ask_amount.to_u128() {
                Some(ask) => U256::from_words(ask, 0),
                None => { return None; },
            };
            let share = checked_mul_div(shifted, plain, price_sqrt_before, true)?;
            proof {
                price_sqrt_before.lemma_bound();
                let l = liquidity as nat;
                let b = price_sqrt_before@;
                lemma_div_rounded(l * b, q128(), true);
                assert(l * b / q128() + 1 < u256_limit()) by (nonlinear_arith)
                    requires
                        l < q128(),
                        b < u256_limit(),
                        u256_limit() == q128() * q128(),
                ;
            }
            let held = checked_mul_div(plain, price_sqrt_before, unit, true)?;
            if held.le(&ask_amount) {
                return None;
            }
            let room = held.checked_sub(&ask_amount)?;
            let wide = checked_div(share, room, true)?;
            wide.to_u128()
        },
    }
}

/// One step of a swap that asks the bucket `tick_index` for `return_amount`
/// of `return_token` after the fee: what has to be offered, what is returned
/// before the fee, the fee, the next square-root price and the next bucket.
pub fn compute_swap_tick_reverse(
    tick_index: i32,
    tick_space: u16,
    current_price_sqrt: U256,
    liquidity: u128,
    return_token: &TokenNumber,
    return_amount: u128,
    fee_rate: Decimal,
) -> (step: Option<(u128, u128, u128, U256, i32)>)
    ensures
        step_matches(
            step,
            swap_tick_reverse(
                tick_index as int,
                tick_space as int,
                current_price_sqrt@,
                liquidity as nat,
                *return_token,
                return_amount as nat,
                fee_rate.atomics as nat,
            ),
        ),
{
    let low_tick = bucket_boundary(tick_index, tick_space, false)?;
    let high_tick = bucket_boundary(tick_index, tick_space, true)?;
    let price_low = get_tick_price_sqrt(low_tick);
    let price_high = get_tick_price_sqrt(high_tick);
    if current_price_sqrt.gt(&price_high) || current_price_sqrt.lt(&price_low) || liquidity == 0 {
        return Some((0, 0, 0, U256::zero(), 0));
    }
    let gross = gross_up(return_amount, fee_rate)?;
    let (held0, held1) = get_token_amount_from_liquidity(
        tick_index,
        tick_index,
        tick_space,
        current_price_sqrt,
        liquidity,
    )?;
    let (most0, _) = get_token_amount_from_liquidity(tick_index, tick_index, tick_space, price_low, liquidity)?;
    let (_, most1) = get_token_amount_from_liquidity(tick_index, tick_index, tick_space, price_high, liquidity)?;
    match return_token {
        TokenNumber::Token1 => {
            if current_price_sqrt.equals(&price_low) {
                let next = tick_index.checked_sub(1)?;
                proof {
                    assert(ratio_floor(0, 0, DECIMAL_FRACTIONAL as nat) == 0);
                }
                return Some((0, 0, 0, price_low, next));
            }
            let max_offer = most0.checked_sub(held0)?;
            if gross > held1 {
                let commission = fee_rate.mul_floor(held1)?;
                let next = tick_index.checked_sub(1)?;
                Some((max_offer, held1, commission, price_low, next))
            } else {
                let offer = compute_swap_reverse(
                    return_token,
                    current_price_sqrt,
                    U256::from_u128(gross),
                    liquidity,
                )?;
                let commission = fee_rate.mul_floor(gross)?;
                Some((offer, gross, commission, current_price_sqrt, tick_index))
            }
        },
        TokenNumber::Token0 => {
            if current_price_sqrt.equals(&price_high) {
                let next = tick_index.checked_add(1)?;
                proof {
                    assert(ratio_floor(0, 0, DECIMAL_FRACTIONAL as nat) == 0);
                }
                return Some((0, 0, 0, price_high, next));
            }
            let max_offer = most1.checked_sub(held1)?;
            if gross > held0 {
                let commission = fee_rate.mul_floor(held0)?;
                let next = tick_index.checked_add(1)?;
                Some((max_offer, held0, commission, price_high, next))
            } else {
                let offer = compute_swap_reverse(
                    return_token,
                    current_price_sqrt,
                    U256::from_u128(gross),
                    liquidity,
                )?;
                let commission = fee_rate.mul_floor(gross)?;
                Some((offer, gross, commission, current_price_sqrt, tick_index))
            }
        },
    }
}

} // verus!
