//! A pool of two assets and what a swap, a deposit and a withdrawal do to
//! it.
//!
//! The pool is kept as a value: each operation takes the pool and gives the
//! pool that results, or an error and no pool. Whoever keeps the pool
//! elsewhere, bucket by bucket, drives a swap step by step instead, with the
//! functions of [`crate::walk`], and settles it with [`settle_return`].

use vstd::prelude::*;
use crate::asset::TokenNumber;
use crate::decimal::{ratio_floor, Decimal, DECIMAL_FRACTIONAL};
use crate::error::ContractError;
use crate::liquidity::{
    bucket_boundary, bucket_tick, compute_liquidity, compute_token_liquidity, get_token_amount_from_liquidity,
    lemma_deposit_never_grows, liquidity_for, tick_has_price, token_amounts, token_liquidity,
};
use crate::tick::{
    get_tick_from_price_sqrt, get_tick_price_sqrt, lemma_sqrt_price_monotone, price_in_range, sqrt_price,
    tick_at_price, tick_index_of, tick_to_tick_index, MAX_TICK, MIN_TICK,
};
use crate::tick_table::{TickInfo, TickTable};
use crate::u256::{checked_mul_div, lemma_div_rounded, q128, u256_limit, U256};
use crate::walk::{
    dry_walk, dry_walk_reverse, swap_probe, swap_probe_reverse, swap_walk, walk, ReverseState, ReverseStateView,
    SwapState, SwapStateView, MAX_SWAP_STEPS,
};

verus! {

/// The most buckets that a position may span beyond its first.
pub const TICK_RANGE_LIMIT: i32 = 500i32;

/// The buckets that a new position spans.
#[derive(Clone, Copy, Debug, PartialEq, Eq, Structural)]
pub struct TickIndexes {
    /// The highest bucket of the position.
    pub upper_tick_index: i32,
    /// The lowest bucket of the position.
    pub lower_tick_index: i32,
}

/// What a pool does when it is sent a position.
#[derive(Clone, Copy, Debug, PartialEq, Eq, Structural)]
pub enum LpHookMsg {
    /// Withdraw all of the position and burn it.
    WithdrawBurn {},
}

/// The least return that a caller accepts who believes the price to be
/// `belief` and tolerates the slippage `max_slippage`: the offer over the
/// belief price as a decimal rounded down, its whole part, times one less the
/// slippage, rounded down. `None` where the belief price is zero, the
/// slippage exceeds one or a step leaves the range of 128 bits.
pub open spec fn min_return(offer: nat, belief_atomics: nat, max_slippage_atomics: nat) -> Option<nat> {
    let one = DECIMAL_FRACTIONAL as nat;
    if offer * one > u128::MAX || belief_atomics == 0 || ratio_floor(offer * one, one, belief_atomics)
        > u128::MAX || max_slippage_atomics > one {
        None
    } else {
        Some(
            ratio_floor(
                ratio_floor(offer * one, one, belief_atomics) / one,
                (one - max_slippage_atomics) as nat,
                one,
            ),
        )
    }
}

/// The least return that the caller accepts.
pub fn compute_min_return(
    offer_amount: u128,
    belief_price: Decimal,
    max_slippage: Decimal,
) -> (least: Option<u128>)
    ensures
        match min_return(offer_amount as nat, belief_price.atomics as nat, max_slippage.atomics as nat) {
            Some(m) => least is Some && least->0 == m,
            None => least is None,
        },
{
    let scaled = offer_amount.checked_mul(DECIMAL_FRACTIONAL)?;
    proof {
        let one = DECIMAL_FRACTIONAL as nat;
        let b = belief_price.atomics as nat;
        vstd::arithmetic::div_mod::lemma_div_multiples_vanish(b as int, one as int);
        assert(one * b == b * one) by (nonlinear_arith);
    }
    let belief = belief_price.mul_floor(DECIMAL_FRACTIONAL)?;
    let expected = Decimal::from_ratio(scaled, belief)?;
    proof {
        let one = DECIMAL_FRACTIONAL as nat;
        let e = expected.atomics as nat;
        assert(1 * e == e);
    }
    let whole = expected.mul_floor(1)?;
    let kept = Decimal::one().checked_sub(max_slippage)?;
    proof {
        let one = DECIMAL_FRACTIONAL as nat;
        let w = whole as nat;
        let k = kept.atomics as nat;
        assert(w * k / one <= w) by (nonlinear_arith)
            requires
                k <= one,
                one > 0,
        ;
    }
    kept.mul_floor(whole)
}

/// What a finished swap hands to the trader: the total return less the total
/// fee. It fails when the fee exceeds the return (`Overflow`) and, where a
/// belief price and a slippage are both given, when the net return is below
/// [`min_return`] (`MaxSlippage`) or that cannot be computed (`Overflow`).
pub open spec fn settled_return(
    offer: nat,
    total_return: nat,
    total_commission: nat,
    belief_price: Option<Decimal>,
    max_slippage: Option<Decimal>,
) -> Result<nat, ContractError> {
    if total_return < total_commission {
        Err(ContractError::Overflow)
    } else {
        match (max_slippage, belief_price) {
            (Some(slippage), Some(belief)) => match min_return(
                offer,
                belief.atomics as nat,
                slippage.atomics as nat,
            ) {
                None => Err(ContractError::Overflow),
                Some(least) => if least > total_return - total_commission {
                    Err(ContractError::MaxSlippage)
                } else {
                    Ok((total_return - total_commission) as nat)
                },
            },
            _ => Ok((total_return - total_commission) as nat),
        }
    }
}

/// What a finished swap hands to the trader, after the slippage guard.
pub fn settle_return(
    offer_amount: u128,
    total_return: u128,
    total_commission: u128,
    belief_price: Option<Decimal>,
    max_slippage: Option<Decimal>,
) -> (net: Result<u128, ContractError>)
    ensures
        match settled_return(
            offer_amount as nat,
            total_return as nat,
            total_commission as nat,
            belief_price,
            max_slippage,
        ) {
            Ok(n) => net == Ok::<u128, ContractError>(n as u128),
            Err(e) => net == Err::<u128, ContractError>(e),
        },
{
    let user_return = match total_return.checked_sub(total_commission) {
        Some(net) => net,
        None => { return Err(ContractError::Overflow); },
    };
    match (max_slippage, belief_price) {
        (Some(slippage), Some(belief)) => {
            let least = match compute_min_return(offer_amount, belief, slippage) {
                Some(least) => least,
                None => { return Err(ContractError::Overflow); },
            };
            if least > user_return {
                return Err(ContractError::MaxSlippage);
            }
        },
        _ => {},
    }
    Ok(user_return)
}

/// `a + b` modulo `2^128`.
pub fn wrapping_sum(a: u128, b: u128) -> (sum: u128)
    ensures
        sum == wrapped(a as nat, b as nat),
{
    match a.checked_add(b) {
        Some(sum) => sum,
        None => a - (u128::MAX - b) - 1,
    }
}

/// The state of a pool.
#[derive(Debug)]
pub struct Pool {
    /// The width of a bucket in ticks; not zero.
    pub tick_space: u16,
    /// The fee rate, below one.
    pub fee_rate: Decimal,
    /// The bucket that holds the current price.
    pub current_tick_index: i32,
    /// The current square-root price as a Q128.128 number.
    pub current_price_sqrt: U256,
    /// The volume traded of each token so far, modulo `2^128`.
    pub cumulative_volume: [u128; 2],
    /// The buckets that hold or have held liquidity.
    pub ticks: TickTable,
}

/// A [`Pool`] over mathematical integers.
pub struct PoolView {
    pub tick_space: int,
    pub fee_atomics: nat,
    pub tick_index: int,
    pub price: nat,
    pub volume0: nat,
    pub volume1: nat,
    pub ticks: Map<int, TickInfo>,
}

impl View for Pool {
    type V = PoolView;

    open spec fn view(&self) -> PoolView {
        PoolView {
            tick_space: self.tick_space as int,
            fee_atomics: self.fee_rate.atomics as nat,
            tick_index: self.current_tick_index as int,
            price: self.current_price_sqrt@,
            volume0: self.cumulative_volume[0] as nat,
            volume1: self.cumulative_volume[1] as nat,
            ticks: self.ticks@,
        }
    }
}

/// `a + b` modulo `2^128`.
pub open spec fn wrapped(a: nat, b: nat) -> nat {
    (a + b) % q128()
}

/// What a swap of `offer` of `offer_token` does to a pool: the pool after
/// it, what the trader receives and the fee. The swap walks from the pool's
/// price to its end; the volumes grow by the offer and by the total return;
/// the trader receives what [`settled_return`] says. A swap that fails
/// leaves no pool.
pub open spec fn swapped(
    pool: PoolView,
    offer_token: TokenNumber,
    offer: nat,
    belief_price: Option<Decimal>,
    max_slippage: Option<Decimal>,
) -> Result<(PoolView, nat, nat), ContractError> {
    let start = SwapStateView {
        remain: offer,
        tick_index: pool.tick_index,
        price: pool.price,
        total_return: 0,
        total_commission: 0,
        steps: 0,
    };
    match walk(pool.tick_space, pool.fee_atomics, offer_token, start, pool.ticks) {
        Err(e) => Err(e),
        Ok((end, ticks)) => match settled_return(
            offer,
            end.total_return,
            end.total_commission,
            belief_price,
            max_slippage,
        ) {
            Err(e) => Err(e),
            Ok(net) => Ok(
                (
                    PoolView {
                        tick_space: pool.tick_space,
                        fee_atomics: pool.fee_atomics,
                        tick_index: end.tick_index,
                        price: end.price,
                        volume0: match offer_token {
                            TokenNumber::Token0 => wrapped(pool.volume0, offer),
                            TokenNumber::Token1 => wrapped(pool.volume0, end.total_return),
                        },
                        volume1: match offer_token {
                            TokenNumber::Token0 => wrapped(pool.volume1, end.total_return),
                            TokenNumber::Token1 => wrapped(pool.volume1, offer),
                        },
                        ticks,
                    },
                    net,
                    end.total_commission,
                ),
            ),
        },
    }
}

/// Whether an executed swap is the swap of the model.
pub open spec fn swap_matches(
    result: Result<(Pool, u128, u128), ContractError>,
    model: Result<(PoolView, nat, nat), ContractError>,
) -> bool {
    match (result, model) {
        (Ok((pool, net, commission)), Ok((after, return_amount, commission_amount))) => {
            &&& pool@ == after
            &&& net == return_amount
            &&& commission == commission_amount
        },
        (Err(e), Err(f)) => e == f,
        _ => false,
    }
}

/// What a swap of `offer` would hand to the trader and take as its fee, the
/// pool left as it is.
pub open spec fn simulated(pool: PoolView, offer_token: TokenNumber, offer: nat) -> Result<
    (nat, nat),
    ContractError,
> {
    let start = SwapStateView {
        remain: offer,
        tick_index: pool.tick_index,
        price: pool.price,
        total_return: 0,
        total_commission: 0,
        steps: 0,
    };
    match dry_walk(pool.tick_space, pool.fee_atomics, offer_token, start, pool.ticks) {
        Err(e) => Err(e),
        Ok(end) => if end.total_return < end.total_commission {
            Err(ContractError::Overflow)
        } else {
            Ok(((end.total_return - end.total_commission) as nat, end.total_commission))
        },
    }
}

/// What has to be offered so that `ask` of `return_token` is received, and
/// the fee taken on the way, the pool left as it is.
pub open spec fn simulated_reverse(pool: PoolView, return_token: TokenNumber, ask: nat) -> Result<
    (nat, nat),
    ContractError,
> {
    let start = ReverseStateView {
        remain: ask,
        tick_index: pool.tick_index,
        price: pool.price,
        total_offer: 0,
        total_commission: 0,
        steps: 0,
    };
    match dry_walk_reverse(pool.tick_space, pool.fee_atomics, return_token, start, pool.ticks) {
        Err(e) => Err(e),
        Ok(end) => Ok((end.total_offer, end.total_commission)),
    }
}

impl Pool {
    /// What a swap of `offer_amount` of `offer_token` would hand to the
    /// trader, and its fee.
    pub fn swap_simulation(
        &self,
        offer_token: TokenNumber,
        offer_amount: u128,
    ) -> (result: Result<(u128, u128), ContractError>)
        ensures
            match simulated(self@, offer_token, offer_amount as nat) {
                Ok((net, commission)) => result == Ok::<(u128, u128), ContractError>(
                    (net as u128, commission as u128),
                ),
                Err(e) => result == Err::<(u128, u128), ContractError>(e),
            },
    {
        let start = SwapState::start(offer_amount, self.current_tick_index, self.current_price_sqrt);
        let ghost goal = dry_walk(
            self.tick_space as int,
            self.fee_rate.atomics as nat,
            offer_token,
            start@,
            self.ticks@,
        );
        let mut current = start;
        while current.remain > 0
            invariant
                goal == dry_walk(
                    self.tick_space as int,
                    self.fee_rate.atomics as nat,
                    offer_token,
                    start@,
                    self.ticks@,
                ),
                goal == dry_walk(
                    self.tick_space as int,
                    self.fee_rate.atomics as nat,
                    offer_token,
                    current@,
                    self.ticks@,
                ),
                start@.remain == offer_amount,
                start@.tick_index == self.current_tick_index,
                start@.price == self.current_price_sqrt@,
                start@.total_return == 0,
                start@.total_commission == 0,
                start@.steps == 0,
            decreases MAX_SWAP_STEPS - current.steps,
        {
            current = swap_probe(
                self.tick_space,
                self.fee_rate,
                &offer_token,
                &current,
                self.ticks.get(current.tick_index),
            )?;
        }
        match current.total_return.checked_sub(current.total_commission) {
            Some(net) => Ok((net, current.total_commission)),
            None => Err(ContractError::Overflow),
        }
    }

    /// What has to be offered so that `ask_amount` of `return_token` is
    /// received, and the fee taken on the way.
    pub fn swap_simulation_reverse(
        &self,
        return_token: TokenNumber,
        ask_amount: u128,
    ) -> (result: Result<(u128, u128), ContractError>)
        ensures
            match simulated_reverse(self@, return_token, ask_amount as nat) {
                Ok((offer, commission)) => result == Ok::<(u128, u128), ContractError>(
                    (offer as u128, commission as u128),
                ),
                Err(e) => result == Err::<(u128, u128), ContractError>(e),
            },
    {
        let start = ReverseState {
            remain: ask_amount,
            tick_index: self.current_tick_index,
            price_sqrt: self.current_price_sqrt,
            total_offer: 0,
            total_commission: 0,
            steps: 0,
        };
        let ghost goal = dry_walk_reverse(
            self.tick_space as int,
            self.fee_rate.atomics as nat,
            return_token,
            start@,
            self.ticks@,
        );
        let mut current = start;
        while current.remain > 0
            invariant
                goal == dry_walk_reverse(
                    self.tick_space as int,
                    self.fee_rate.atomics as nat,
                    return_token,
                    start@,
                    self.ticks@,
                ),
                goal == dry_walk_reverse(
                    self.tick_space as int,
                    self.fee_rate.atomics as nat,
                    return_token,
                    current@,
                    self.ticks@,
                ),
                start@.remain == ask_amount,
                start@.tick_index == self.current_tick_index,
                start@.price == self.current_price_sqrt@,
                start@.total_offer == 0,
                start@.total_commission == 0,
                start@.steps == 0,
            decreases MAX_SWAP_STEPS - current.steps,
        {
            current = swap_probe_reverse(
                self.tick_space,
                self.fee_rate,
                &return_token,
                &current,
                self.ticks.get(current.tick_index),
            )?;
        }
        Ok((current.total_offer, current.total_commission))
    }

    /// Swaps `offer_amount` of `offer_token`: the pool after the swap, what
    /// the trader receives and the fee.
    pub fn swap(
        self,
        offer_token: TokenNumber,
        offer_amount: u128,
        belief_price: Option<Decimal>,
        max_slippage: Option<Decimal>,
    ) -> (result: Result<(Pool, u128, u128), ContractError>)
        ensures
            swap_matches(result, swapped(self@, offer_token, offer_amount as nat, belief_price, max_slippage)),
    {
        let start = SwapState::start(offer_amount, self.current_tick_index, self.current_price_sqrt);
        let tick_space = self.tick_space;
        let fee_rate = self.fee_rate;
        let volume = self.cumulative_volume;
        let (end, ticks) = swap_walk(tick_space, fee_rate, &offer_token, start, self.ticks)?;
        let cumulative_volume = match offer_token {
            TokenNumber::Token0 => [
                wrapping_sum(volume[0], offer_amount),
                wrapping_sum(volume[1], end.total_return),
            ],
            TokenNumber::Token1 => [
                wrapping_sum(volume[0], end.total_return),
                wrapping_sum(volume[1], offer_amount),
            ],
        };
        let net = settle_return(offer_amount, end.total_return, end.total_commission, belief_price, max_slippage)?;
        Ok(
            (
                Pool {
                    tick_space,
                    fee_rate,
                    current_tick_index: end.tick_index,
                    current_price_sqrt: end.price_sqrt,
                    cumulative_volume,
                    ticks,
                },
                net,
                end.total_commission,
            ),
        )
    }
}

/// Whether a new position may span the buckets `indexes`: the upper one not
/// below the lower one, both within the ticks a pool may hold, and no more
/// than [`TICK_RANGE_LIMIT`] apart.
pub open spec fn range_is_valid(indexes: TickIndexes, tick_space: int) -> bool {
    &&& indexes.lower_tick_index <= indexes.upper_tick_index
    &&& indexes.upper_tick_index * tick_space <= MAX_TICK
    &&& indexes.lower_tick_index * tick_space >= MIN_TICK
    &&& indexes.upper_tick_index - indexes.lower_tick_index <= TICK_RANGE_LIMIT
}

/// The check of the range of a new position: any range that is not valid is
/// an `InvalidTickRange`.
pub open spec fn range_check(indexes: TickIndexes, tick_space: int) -> Result<(), ContractError> {
    if range_is_valid(indexes, tick_space) {
        Ok(())
    } else {
        Err(ContractError::InvalidTickRange)
    }
}

/// Checks the range of a new position.
pub fn check_tick_range(
    tick_indexes: TickIndexes,
    tick_space: u16,
) -> (result: Result<(), ContractError>)
    ensures
        result == range_check(tick_indexes, tick_space as int),
{
    let lower: i64 = tick_indexes.lower_tick_index as i64;
    let upper: i64 = tick_indexes.upper_tick_index as i64;
    let space: i64 = tick_space as i64;
    if lower > upper {
        return Err(ContractError::InvalidTickRange);
    }
    assert(-0x8000_0000 * 0x1_0000 <= upper * space <= 0x8000_0000 * 0x1_0000 && -0x8000_0000 * 0x1_0000
        <= lower * space <= 0x8000_0000 * 0x1_0000) by (nonlinear_arith)
        requires
            -0x8000_0000 <= upper < 0x8000_0000,
            -0x8000_0000 <= lower < 0x8000_0000,
            0 <= space < 0x1_0000,
    ;
    if upper * space > MAX_TICK as i64 || lower * space < MIN_TICK as i64 {
        return Err(ContractError::InvalidTickRange);
    }
    if upper - lower > TICK_RANGE_LIMIT as i64 {
        return Err(ContractError::InvalidTickRange);
    }
    Ok(())
}

/// The range of a deposit: that of the position it adds to, if one is
/// given; else the new range, if it passes [`range_check`]; and else
/// nothing (`ProvideOptionError`). The flag says whether the deposit adds to
/// a position.
pub open spec fn resolved_range(
    position: Option<TickIndexes>,
    tick_indexes: Option<TickIndexes>,
    tick_space: int,
) -> Result<(TickIndexes, bool), ContractError> {
    match (position, tick_indexes) {
        (Some(held), _) => Ok((held, true)),
        (None, Some(fresh)) => match range_check(fresh, tick_space) {
            Err(e) => Err(e),
            Ok(_) => Ok((fresh, false)),
        },
        (None, None) => Err(ContractError::ProvideOptionError),
    }
}

/// The range of a deposit.
pub fn resolve_range(
    position: Option<TickIndexes>,
    tick_indexes: Option<TickIndexes>,
    tick_space: u16,
) -> (result: Result<(TickIndexes, bool), ContractError>)
    ensures
        result == resolved_range(position, tick_indexes, tick_space as int),
{
    match position {
        Some(held) => Ok((held, true)),
        None => match tick_indexes {
            Some(fresh) => {
                check_tick_range(fresh, tick_space)?;
                Ok((fresh, false))
            },
            None => Err(ContractError::ProvideOptionError),
        },
    }
}

/// What a bucket keeps after `liquidity` is deposited into it: its total
/// grows, and a bucket that was missing begins with no fee growth.
pub open spec fn bucket_after_deposit(kept: Option<TickInfo>, liquidity: nat) -> Option<TickInfo> {
    match kept {
        Some(info) => if info.total_liquidity + liquidity > u128::MAX {
            None
        } else {
            Some(
                TickInfo {
                    last_fee_growth_0: info.last_fee_growth_0,
                    last_fee_growth_1: info.last_fee_growth_1,
                    total_liquidity: (info.total_liquidity + liquidity) as u128,
                },
            )
        },
        None => if liquidity > u128::MAX {
            None
        } else {
            Some(
                TickInfo {
                    last_fee_growth_0: Decimal { atomics: 0 },
                    last_fee_growth_1: Decimal { atomics: 0 },
                    total_liquidity: liquidity as u128,
                },
            )
        },
    }
}

/// The buckets after `liquidity` is deposited into each of `from ..= upper`.
pub open spec fn buckets_after_deposit(ticks: Map<int, TickInfo>, from: int, upper: int, liquidity: nat) -> Option<
    Map<int, TickInfo>,
>
    decreases upper - from + 1,
{
    if from > upper {
        Some(ticks)
    } else {
        match bucket_after_deposit(ticks.get(from), liquidity) {
            None => None,
            Some(info) => buckets_after_deposit(ticks.insert(from, info), from + 1, upper, liquidity),
        }
    }
}

/// What a bucket keeps after `liquidity` is withdrawn from it. A missing
/// bucket is an error (`UpdateFail`), and so is one that holds less
/// (`Overflow`).
pub open spec fn bucket_after_withdrawal(kept: Option<TickInfo>, liquidity: nat) -> Result<
    TickInfo,
    ContractError,
> {
    match kept {
        Some(info) => if info.total_liquidity < liquidity {
            Err(ContractError::Overflow)
        } else {
            Ok(
                TickInfo {
                    last_fee_growth_0: info.last_fee_growth_0,
                    last_fee_growth_1: info.last_fee_growth_1,
                    total_liquidity: (info.total_liquidity - liquidity) as u128,
                },
            )
        },
        None => Err(ContractError::UpdateFail),
    }
}

/// The buckets after `liquidity` is withdrawn from each of `from ..= upper`,
/// or the error of the first bucket that fails.
pub open spec fn buckets_after_withdrawal(
    ticks: Map<int, TickInfo>,
    from: int,
    upper: int,
    liquidity: nat,
) -> Result<Map<int, TickInfo>, ContractError>
    decreases upper - from + 1,
{
    if from > upper {
        Ok(ticks)
    } else {
        match bucket_after_withdrawal(ticks.get(from), liquidity) {
            Err(e) => Err(e),
            Ok(info) => buckets_after_withdrawal(ticks.insert(from, info), from + 1, upper, liquidity),
        }
    }
}

/// What a bucket keeps after a deposit.
pub fn deposit_into_bucket(kept: Option<TickInfo>, liquidity: u128) -> (after: Option<TickInfo>)
    ensures
        after == bucket_after_deposit(kept, liquidity as nat),
{
    match kept {
        Some(info) => {
            let total_liquidity = info.total_liquidity.checked_add(liquidity)?;
            Some(
                TickInfo {
                    last_fee_growth_0: info.last_fee_growth_0,
                    last_fee_growth_1: info.last_fee_growth_1,
                    total_liquidity,
                },
            )
        },
        None => Some(
            TickInfo {
                last_fee_growth_0: Decimal::zero(),
                last_fee_growth_1: Decimal::zero(),
                total_liquidity: liquidity,
            },
        ),
    }
}

/// What a bucket keeps after a withdrawal.
pub fn withdraw_from_bucket(
    kept: Option<TickInfo>,
    liquidity: u128,
) -> (after: Result<TickInfo, ContractError>)
    ensures
        after == bucket_after_withdrawal(kept, liquidity as nat),
{
    match kept {
        Some(info) => match info.total_liquidity.checked_sub(liquidity) {
            Some(total_liquidity) => Ok(
                TickInfo {
                    last_fee_growth_0: info.last_fee_growth_0,
                    last_fee_growth_1: info.last_fee_growth_1,
                    total_liquidity,
                },
            ),
            None => Err(ContractError::Overflow),
        },
        None => Err(ContractError::UpdateFail),
    }
}

/// What a deposit comes to.
#[derive(Clone, Copy, Debug, PartialEq, Eq, Structural)]
pub struct Provision {
    /// The liquidity that the deposit provides.
    pub liquidity: u128,
    /// How much of token 0 the pool takes.
    pub amount0: u128,
    /// How much of token 1 the pool takes.
    pub amount1: u128,
    /// How much of token 0 goes back to the depositor.
    pub refund0: u128,
    /// How much of token 1 goes back to the depositor.
    pub refund1: u128,
}

/// What a deposit of `amount0` and `amount1` into the position
/// `lower ..= upper` comes to at the square-root price `price`: the liquidity
/// of [`liquidity_for`], the amounts that this liquidity stands for, and what
/// is left of the deposit, which is never negative. A deposit that provides
/// no liquidity is an error (`ZeroLiquidity`).
pub open spec fn provision(amount0: nat, amount1: nat, price: nat, upper: int, lower: int, tick_space: int) -> Result<
    Provision,
    ContractError,
> {
    match liquidity_for(amount0, amount1, price, upper, lower, tick_space) {
        None => Err(ContractError::Overflow),
        Some(liquidity) => match token_amounts(upper, lower, tick_space, price, liquidity) {
            None => Err(ContractError::Overflow),
            Some((taken0, taken1)) => if liquidity == 0 {
                Err(ContractError::ZeroLiquidity)
            } else {
                Ok(
                    Provision {
                        liquidity: liquidity as u128,
                        amount0: taken0 as u128,
                        amount1: taken1 as u128,
                        refund0: (amount0 - taken0) as u128,
                        refund1: (amount1 - taken1) as u128,
                    },
                )
            },
        },
    }
}

/// What a deposit comes to.
pub fn compute_provision(
    token0_amount: u128,
    token1_amount: u128,
    current_price_sqrt: U256,
    upper_tick_index: i32,
    lower_tick_index: i32,
    tick_space: u16,
) -> (result: Result<Provision, ContractError>)
    ensures
        result == provision(
            token0_amount as nat,
            token1_amount as nat,
            current_price_sqrt@,
            upper_tick_index as int,
            lower_tick_index as int,
            tick_space as int,
        ),
{
    let liquidity = match compute_liquidity(
        token0_amount,
        token1_amount,
        current_price_sqrt,
        upper_tick_index,
        lower_tick_index,
        tick_space,
    ) {
        Some(liquidity) => liquidity,
        None => { return Err(ContractError::Overflow); },
    };
    let (amount0, amount1) = match get_token_amount_from_liquidity(
        upper_tick_index,
        lower_tick_index,
        tick_space,
        current_price_sqrt,
        liquidity,
    ) {
        Some(amounts) => amounts,
        None => { return Err(ContractError::Overflow); },
    };
    proof {
        lemma_deposit_never_grows(
            token0_amount as nat,
            token1_amount as nat,
            current_price_sqrt@,
            upper_tick_index as int,
            lower_tick_index as int,
            tick_space as int,
        );
    }
    if liquidity == 0 {
        return Err(ContractError::ZeroLiquidity);
    }
    Ok(
        Provision {
            liquidity,
            amount0,
            amount1,
            refund0: token0_amount - amount0,
            refund1: token1_amount - amount1,
        },
    )
}

/// What a deposit into the buckets `lower ..= upper` does to a pool: what it
/// comes to, and the pool with the liquidity added to every one of the
/// buckets. The range is taken as it is given.
pub open spec fn deposited(pool: PoolView, amount0: nat, amount1: nat, upper: int, lower: int) -> Result<
    (PoolView, Provision),
    ContractError,
> {
    match provision(amount0, amount1, pool.price, upper, lower, pool.tick_space) {
        Err(e) => Err(e),
        Ok(p) => match buckets_after_deposit(pool.ticks, lower, upper, p.liquidity as nat) {
            None => Err(ContractError::Overflow),
            Some(ticks) => Ok(
                (
                    PoolView {
                        tick_space: pool.tick_space,
                        fee_atomics: pool.fee_atomics,
                        tick_index: pool.tick_index,
                        price: pool.price,
                        volume0: pool.volume0,
                        volume1: pool.volume1,
                        ticks,
                    },
                    p,
                ),
            ),
        },
    }
}

/// What providing liquidity comes to.
#[derive(Clone, Copy, Debug, PartialEq, Eq, Structural)]
pub struct Provided {
    /// The liquidity, the amounts taken and the amounts given back.
    pub provision: Provision,
    /// The buckets that took the liquidity.
    pub range: TickIndexes,
    /// Whether the liquidity was added to a position that there was.
    pub additional: bool,
}

/// What providing `amount0` and `amount1` does to a pool. The range is that
/// of [`resolved_range`]: the range of the position provided to, or else the
/// new range asked for, which has to be valid (`InvalidTickRange`); without
/// either nothing is provided (`ProvideOptionError`). Into that range the
/// amounts are deposited as [`deposited`] says. Whatever fails, no bucket is
/// made or changed.
pub open spec fn provided(
    pool: PoolView,
    amount0: nat,
    amount1: nat,
    position: Option<TickIndexes>,
    tick_indexes: Option<TickIndexes>,
) -> Result<(PoolView, Provided), ContractError> {
    match resolved_range(position, tick_indexes, pool.tick_space) {
        Err(e) => Err(e),
        Ok((range, additional)) => match deposited(
            pool,
            amount0,
            amount1,
            range.upper_tick_index as int,
            range.lower_tick_index as int,
        ) {
            Err(e) => Err(e),
            Ok((after, provision)) => Ok((after, Provided { provision, range, additional })),
        },
    }
}

/// A new position is made only over a valid range: where no position is
/// provided to and the range asked for is inverted, leaves the ticks a pool
/// may hold or spans more than [`TICK_RANGE_LIMIT`] buckets beyond its first,
/// providing fails with `InvalidTickRange`; and where it succeeds for a new
/// position, the range is valid.
pub proof fn lemma_new_range_is_checked(
    pool: PoolView,
    amount0: nat,
    amount1: nat,
    tick_indexes: TickIndexes,
)
    ensures
        !range_is_valid(tick_indexes, pool.tick_space) ==> provided(
            pool,
            amount0,
            amount1,
            None,
            Some(tick_indexes),
        ) == Err::<(PoolView, Provided), ContractError>(ContractError::InvalidTickRange),
        provided(pool, amount0, amount1, None, Some(tick_indexes)) matches Ok((_, outcome))
            ==> outcome.range == tick_indexes && !outcome.additional && range_is_valid(
            tick_indexes,
            pool.tick_space,
        ),
{
}

/// What a withdrawal hands out.
#[derive(Clone, Copy, Debug, PartialEq, Eq, Structural)]
pub struct Withdrawal {
    /// The liquidity withdrawn.
    pub liquidity: u128,
    /// How much of token 0 is handed out.
    pub amount0: u128,
    /// How much of token 1 is handed out.
    pub amount1: u128,
    /// Whether part of the position stays.
    pub partial: bool,
}

/// What a withdrawal from the position `lower ..= upper` does to a pool.
/// With an amount given, that much liquidity is withdrawn and part of the
/// position stays; without, all of `position_liquidity` is. The amounts
/// handed out are those the liquidity stands for at the pool's price, and
/// every bucket of the position loses the liquidity.
pub open spec fn withdrawn(
    pool: PoolView,
    upper: int,
    lower: int,
    position_liquidity: nat,
    amount: Option<u128>,
) -> Result<(PoolView, Withdrawal), ContractError> {
    let liquidity = match amount {
        Some(part) => part as nat,
        None => position_liquidity,
    };
    match token_amounts(upper, lower, pool.tick_space, pool.price, liquidity) {
        None => Err(ContractError::Overflow),
        Some((amount0, amount1)) => match buckets_after_withdrawal(pool.ticks, lower, upper, liquidity) {
            Err(e) => Err(e),
            Ok(ticks) => Ok(
                (
                    PoolView {
                        tick_space: pool.tick_space,
                        fee_atomics: pool.fee_atomics,
                        tick_index: pool.tick_index,
                        price: pool.price,
                        volume0: pool.volume0,
                        volume1: pool.volume1,
                        ticks,
                    },
                    Withdrawal {
                        liquidity: liquidity as u128,
                        amount0: amount0 as u128,
                        amount1: amount1 as u128,
                        partial: amount is Some,
                    },
                ),
            ),
        },
    }
}

/// Whether an executed deposit or withdrawal is that of the model.
pub open spec fn change_matches<T>(
    result: Result<(Pool, T), ContractError>,
    model: Result<(PoolView, T), ContractError>,
) -> bool {
    match (result, model) {
        (Ok((pool, outcome)), Ok((after, expected))) => pool@ == after && outcome == expected,
        (Err(e), Err(f)) => e == f,
        _ => false,
    }
}

/// How much of the other token a deposit of `amount` of `token` into the
/// position `lower ..= upper` calls for at the pool's price. Where the price
/// lies beyond the range on the side on which only the other token is held,
/// the given token cannot be deposited (`AssetMustBeZero`); on the opposite
/// side none of the other token is called for. Inside the range the
/// liquidity is that of the given token between the price and the range's
/// far edge, and the answer is what that liquidity stands for of the other
/// token.
pub open spec fn other_amount(
    tick_space: int,
    price: nat,
    token: TokenNumber,
    amount: nat,
    upper: int,
    lower: int,
) -> Result<nat, ContractError> {
    let low_tick = bucket_tick(lower, tick_space, false);
    let high_tick = bucket_tick(upper, tick_space, true);
    let low = sqrt_price(low_tick);
    let high = sqrt_price(high_tick);
    if !tick_has_price(low_tick) || !tick_has_price(high_tick) {
        Err(ContractError::Overflow)
    } else {
        match token {
            TokenNumber::Token0 => if high < price {
                Err(ContractError::AssetMustBeZero)
            } else if price < low {
                Ok(0nat)
            } else {
                match token_liquidity(TokenNumber::Token0, amount, high, price) {
                    None => Err(ContractError::Overflow),
                    Some(liquidity) => match token_amounts(upper, lower, tick_space, price, liquidity) {
                        None => Err(ContractError::Overflow),
                        Some((_, amount1)) => Ok(amount1),
                    },
                }
            },
            TokenNumber::Token1 => if high < price {
                Ok(0nat)
            } else if price < low {
                Err(ContractError::AssetMustBeZero)
            } else {
                match token_liquidity(TokenNumber::Token1, amount, price, low) {
                    None => Err(ContractError::Overflow),
                    Some(liquidity) => match token_amounts(upper, lower, tick_space, price, liquidity) {
                        None => Err(ContractError::Overflow),
                        Some((amount0, _)) => Ok(amount0),
                    },
                }
            },
        }
    }
}

/// The pool that opens at the square-root price `price_sqrt`, given as a
/// decimal: the price as a Q128.128 number, rounded down, in the bucket that
/// holds it, without buckets of liquidity and without volume. The bucket
/// width must not be zero (`InvalidTickSpace`), the fee rate must be below
/// one (`InvalidFeeRate`) and the price must lie strictly between the prices
/// of the lowest tick and of the tick after the highest (`InvalidPrice`).
pub open spec fn opened(price_sqrt_atomics: nat, tick_space: int, fee_atomics: nat) -> Result<
    PoolView,
    ContractError,
> {
    let price = ratio_floor(q128(), price_sqrt_atomics, DECIMAL_FRACTIONAL as nat);
    if tick_space == 0 {
        Err(ContractError::InvalidTickSpace)
    } else if fee_atomics >= DECIMAL_FRACTIONAL {
        Err(ContractError::InvalidFeeRate)
    } else if price <= sqrt_price(MIN_TICK as int) || price >= sqrt_price(MAX_TICK + 1) {
        Err(ContractError::InvalidPrice)
    } else {
        Ok(
            PoolView {
                tick_space,
                fee_atomics,
                tick_index: tick_index_of(tick_at_price(price), tick_space),
                price,
                volume0: 0,
                volume1: 0,
                ticks: Map::empty(),
            },
        )
    }
}

/// Whether the pool's price lies in the pool's bucket: not below the price
/// of the bucket's first tick and below that of the next bucket's.
pub open spec fn price_in_bucket(pool: PoolView) -> bool {
    sqrt_price(bucket_tick(pool.tick_index, pool.tick_space, false)) <= pool.price < sqrt_price(
        bucket_tick(pool.tick_index, pool.tick_space, true),
    )
}

/// A pool opens with its price in its bucket.
pub proof fn lemma_opened_in_bucket(price_sqrt_atomics: nat, tick_space: int, fee_atomics: nat)
    requires
        0 < tick_space <= u16::MAX,
    ensures
        opened(price_sqrt_atomics, tick_space, fee_atomics) matches Ok(pool) ==> price_in_bucket(pool),
{
    match opened(price_sqrt_atomics, tick_space, fee_atomics) {
        Ok(pool) => {
            let price = pool.price;
            assert(price_in_range(price));
            let tick = tick_at_price(price);
            // some tick holds the price, so the chosen one does
            lemma_some_tick_holds(price);
            let index = tick / tick_space;
            vstd::arithmetic::div_mod::lemma_fundamental_div_mod(tick, tick_space);
            assert(index * tick_space == tick_space * index) by (nonlinear_arith);
            assert(index * tick_space <= tick < index * tick_space + tick_space);
            lemma_sqrt_price_monotone(index * tick_space, tick);
            lemma_sqrt_price_monotone(tick + 1, index * tick_space + tick_space);
        },
        Err(e) => {},
    }
}

/// A price in range is held by the tick chosen for it.
pub proof fn lemma_some_tick_holds(price: nat)
    requires
        price_in_range(price),
    ensures
        crate::tick::is_floor_tick(price, tick_at_price(price)),
{
    let t = lemma_floor_tick_exists(price, MIN_TICK as int, MAX_TICK + 1);
}

/// Between two ticks whose prices enclose `price` lies a tick that holds it.
pub proof fn lemma_floor_tick_exists(price: nat, low: int, high: int) -> (t: int)
    requires
        MIN_TICK <= low < high <= MAX_TICK + 1,
        sqrt_price(low) <= price < sqrt_price(high),
    ensures
        crate::tick::is_floor_tick(price, t),
    decreases high - low,
{
    if price < sqrt_price(low + 1) {
        low
    } else {
        lemma_floor_tick_exists(price, low + 1, high)
    }
}

impl Pool {
    /// The pool that opens at a square-root price given as a decimal.
    pub fn open(
        price_sqrt: Decimal,
        tick_space: u16,
        fee_rate: Decimal,
    ) -> (result: Result<Pool, ContractError>)
        ensures
            match opened(price_sqrt.atomics as nat, tick_space as int, fee_rate.atomics as nat) {
                Ok(pool) => result is Ok && result->Ok_0@ == pool,
                Err(e) => result is Err && result->Err_0 == e,
            },
    {
        if tick_space == 0 {
            return Err(ContractError::InvalidTickSpace);
        }
        if fee_rate.atomics >= DECIMAL_FRACTIONAL {
            return Err(ContractError::InvalidFeeRate);
        }
        let unit = U256::from_words(1, 0);
        let atomics = U256::from_u128(price_sqrt.atomics);
        let scale = U256::from_u128(DECIMAL_FRACTIONAL);
        proof {
            let a = price_sqrt.atomics as nat;
            lemma_div_rounded(q128() * a, DECIMAL_FRACTIONAL as nat, false);
            assert(q128() * a / (DECIMAL_FRACTIONAL as nat) < u256_limit()) by (nonlinear_arith)
                requires
                    a < q128(),
                    u256_limit() == q128() * q128(),
                    DECIMAL_FRACTIONAL >= 1,
            ;
        }
        let current_price_sqrt = match checked_mul_div(unit, atomics, scale, false) {
            Some(price) => price,
            None => { return Err(ContractError::Overflow); },
        };
        let lowest = get_tick_price_sqrt(MIN_TICK);
        let highest = get_tick_price_sqrt(MAX_TICK + 1);
        if current_price_sqrt.le(&lowest) || current_price_sqrt.ge(&highest) {
            return Err(ContractError::InvalidPrice);
        }
        let tick = get_tick_from_price_sqrt(current_price_sqrt);
        let current_tick_index = tick_to_tick_index(tick, tick_space);
        Ok(
            Pool {
                tick_space,
                fee_rate,
                current_tick_index,
                current_price_sqrt,
                cumulative_volume: [0, 0],
                ticks: TickTable::new(),
            },
        )
    }

    /// The pool that opens at the price `initial_price` of token 0 in token
    /// 1: [`Pool::open`] at the price's square root.
    pub fn instantiate(
        initial_price: Decimal,
        tick_space: u16,
        fee_rate: Decimal,
    ) -> (result: Result<Pool, ContractError>)
        ensures
            match opened(
                crate::decimal::decimal_sqrt(initial_price.atomics) as nat,
                tick_space as int,
                fee_rate.atomics as nat,
            ) {
                Ok(pool) => result is Ok && result->Ok_0@ == pool,
                Err(e) => result is Err && result->Err_0 == e,
            },
    {
        Pool::open(initial_price.sqrt(), tick_space, fee_rate)
    }

    /// Provides `token0_amount` and `token1_amount` as liquidity: to the
    /// position with the range `position`, if one is given, and else to a
    /// new position over `tick_indexes`, after that range has been checked.
    pub fn provide(
        self,
        token0_amount: u128,
        token1_amount: u128,
        position: Option<TickIndexes>,
        tick_indexes: Option<TickIndexes>,
    ) -> (result: Result<(Pool, Provided), ContractError>)
        ensures
            change_matches(
                result,
                provided(self@, token0_amount as nat, token1_amount as nat, position, tick_indexes),
            ),
    {
        let (range, additional) = resolve_range(position, tick_indexes, self.tick_space)?;
        let (pool, provision) = self.deposit(
            token0_amount,
            token1_amount,
            range.upper_tick_index,
            range.lower_tick_index,
        )?;
        Ok((pool, Provided { provision, range, additional }))
    }

    /// Deposits `token0_amount` and `token1_amount` into the buckets
    /// `lower_tick_index ..= upper_tick_index`, the range taken as it is
    /// given: the pool after the deposit and what the deposit comes to.
    #[verifier::loop_isolation(false)]
    pub fn deposit(
        self,
        token0_amount: u128,
        token1_amount: u128,
        upper_tick_index: i32,
        lower_tick_index: i32,
    ) -> (result: Result<(Pool, Provision), ContractError>)
        ensures
            change_matches(
                result,
                deposited(
                    self@,
                    token0_amount as nat,
                    token1_amount as nat,
                    upper_tick_index as int,
                    lower_tick_index as int,
                ),
            ),
    {
        let provision = compute_provision(
            token0_amount,
            token1_amount,
            self.current_price_sqrt,
            upper_tick_index,
            lower_tick_index,
            self.tick_space,
        )?;
        let ghost goal = buckets_after_deposit(
            self.ticks@,
            lower_tick_index as int,
            upper_tick_index as int,
            provision.liquidity as nat,
        );
        let tick_space = self.tick_space;
        let fee_rate = self.fee_rate;
        let current_tick_index = self.current_tick_index;
        let current_price_sqrt = self.current_price_sqrt;
        let cumulative_volume = self.cumulative_volume;
        let mut ticks = self.ticks;
        let mut at: i64 = lower_tick_index as i64;
        while at <= upper_tick_index as i64
            invariant
                lower_tick_index <= at <= upper_tick_index + 1 || (at == lower_tick_index && lower_tick_index
                    > upper_tick_index),
                goal == buckets_after_deposit(ticks@, at as int, upper_tick_index as int, provision.liquidity as nat),
            decreases upper_tick_index - at + 1,
        {
            let index = at as i32;
            let after = match deposit_into_bucket(ticks.get(index), provision.liquidity) {
                Some(after) => after,
                None => { return Err(ContractError::Overflow); },
            };
            ticks = ticks.set(index, after);
            at = at + 1;
        }
        Ok(
            (
                Pool { tick_space, fee_rate, current_tick_index, current_price_sqrt, cumulative_volume, ticks },
                provision,
            ),
        )
    }

    /// Withdraws from the position `lower_tick_index ..= upper_tick_index`,
    /// which holds `position_liquidity`: `amount` of its liquidity if given,
    /// else all of it.
    #[verifier::loop_isolation(false)]
    pub fn withdraw(
        self,
        upper_tick_index: i32,
        lower_tick_index: i32,
        position_liquidity: u128,
        amount: Option<u128>,
    ) -> (result: Result<(Pool, Withdrawal), ContractError>)
        ensures
            change_matches(
                result,
                withdrawn(
                    self@,
                    upper_tick_index as int,
                    lower_tick_index as int,
                    position_liquidity as nat,
                    amount,
                ),
            ),
    {
        let (liquidity, partial) = match amount {
            Some(part) => (part, true),
            None => (position_liquidity, false),
        };
        let (amount0, amount1) = match get_token_amount_from_liquidity(
            upper_tick_index,
            lower_tick_index,
            self.tick_space,
            self.current_price_sqrt,
            liquidity,
        ) {
            Some(amounts) => amounts,
            None => { return Err(ContractError::Overflow); },
        };
        let ghost goal = buckets_after_withdrawal(
            self.ticks@,
            lower_tick_index as int,
            upper_tick_index as int,
            liquidity as nat,
        );
        let tick_space = self.tick_space;
        let fee_rate = self.fee_rate;
        let current_tick_index = self.current_tick_index;
        let current_price_sqrt = self.current_price_sqrt;
        let cumulative_volume = self.cumulative_volume;
        let mut ticks = self.ticks;
        let mut at: i64 = lower_tick_index as i64;
        while at <= upper_tick_index as i64
            invariant
                lower_tick_index <= at <= upper_tick_index + 1 || (at == lower_tick_index && lower_tick_index
                    > upper_tick_index),
                goal == buckets_after_withdrawal(ticks@, at as int, upper_tick_index as int, liquidity as nat),
            decreases upper_tick_index - at + 1,
        {
            let index = at as i32;
            let after = withdraw_from_bucket(ticks.get(index), liquidity)?;
            ticks = ticks.set(index, after);
            at = at + 1;
        }
        Ok(
            (
                Pool { tick_space, fee_rate, current_tick_index, current_price_sqrt, cumulative_volume, ticks },
                Withdrawal { liquidity, amount0, amount1, partial },
            ),
        )
    }

    /// How much of the other token a deposit of `amount` of `token` into the
    /// position `lower_tick_index ..= upper_tick_index` calls for.
    pub fn provide_calculation(
        &self,
        token: TokenNumber,
        amount: u128,
        upper_tick_index: i32,
        lower_tick_index: i32,
    ) -> (result: Result<u128, ContractError>)
        ensures
            match other_amount(
                self@.tick_space,
                self@.price,
                token,
                amount as nat,
                upper_tick_index as int,
                lower_tick_index as int,
            ) {
                Ok(other) => result is Ok && result->Ok_0 == other,
                Err(e) => result is Err && result->Err_0 == e,
            },
    {
        let high_tick = match bucket_boundary(upper_tick_index, self.tick_space, true) {
            Some(tick) => tick,
            None => { return Err(ContractError::Overflow); },
        };
        let low_tick = match bucket_boundary(lower_tick_index, self.tick_space, false) {
            Some(tick) => tick,
            None => { return Err(ContractError::Overflow); },
        };
        let price_high = get_tick_price_sqrt(high_tick);
        let price_low = get_tick_price_sqrt(low_tick);
        let price = self.current_price_sqrt;
        let above = price_high.lt(&price);
        let below = price.lt(&price_low);
        let liquidity = match token {
            TokenNumber::Token0 => {
                if above {
                    return Err(ContractError::AssetMustBeZero);
                } else if below {
                    return Ok(0);
                }
                compute_token_liquidity(TokenNumber::Token0, amount, price_high, price)
            },
            TokenNumber::Token1 => {
                if above {
                    return Ok(0);
                } else if below {
                    return Err(ContractError::AssetMustBeZero);
                }
                compute_token_liquidity(TokenNumber::Token1, amount, price, price_low)
            },
        };
        let liquidity = match liquidity {
            Some(liquidity) => liquidity,
            None => { return Err(ContractError::Overflow); },
        };
        let amounts = get_token_amount_from_liquidity(
            upper_tick_index,
            lower_tick_index,
            self.tick_space,
            price,
            liquidity,
        );
        match (amounts, token) {
            (Some((_, amount1)), TokenNumber::Token0) => Ok(amount1),
            (Some((amount0, _)), TokenNumber::Token1) => Ok(amount0),
            (None, _) => Err(ContractError::Overflow),
        }
    }

    /// What all of a position's liquidity stands for at the pool's price.
    pub fn withdraw_calculation(
        &self,
        upper_tick_index: i32,
        lower_tick_index: i32,
        liquidity: u128,
    ) -> (result: Option<(u128, u128)>)
        ensures
            match token_amounts(
                upper_tick_index as int,
                lower_tick_index as int,
                self@.tick_space,
                self@.price,
                liquidity as nat,
            ) {
                Some((amount0, amount1)) => result == Some((amount0 as u128, amount1 as u128)),
                None => result is None,
            },
    {
        get_token_amount_from_liquidity(
            upper_tick_index,
            lower_tick_index,
            self.tick_space,
            self.current_price_sqrt,
            liquidity,
        )
    }
}

} // verus!
