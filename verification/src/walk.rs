//! The walk of a swap from bucket to bucket.
//!
//! Each step trades against one bucket, adds the fee it earned to that
//! bucket's fee growth and moves on, until all of the offer is consumed. A
//! bucket that is missing or empty, a step that cannot trade and a walk
//! longer than [`MAX_SWAP_STEPS`] each end the swap with an error. A step is
//! a function from the state before it and what is kept for its bucket to
//! the state after it and what has to be kept, so that the buckets can be
//! kept anywhere.

use vstd::prelude::*;
use crate::asset::TokenNumber;
use crate::decimal::{ratio_floor, Decimal, DECIMAL_FRACTIONAL};
use crate::error::ContractError;
use crate::swap::{
    compute_swap_tick, compute_swap_tick_reverse, idle_step, lemma_fee_within_return,
    lemma_price_moves_one_way, swap_tick, swap_tick_reverse, SwapStep,
};
use crate::tick_table::{TickInfo, TickTable};
use crate::u256::U256;

verus! {

/// The most steps that one swap may take.
pub const MAX_SWAP_STEPS: u32 = 1000u32;

/// Where a swap stands between two steps.
#[derive(Clone, Copy, Debug, PartialEq, Eq)]
pub struct SwapState {
    /// What is left of the offer.
    pub remain: u128,
    /// The bucket of the next step.
    pub tick_index: i32,
    /// The current square-root price.
    pub price_sqrt: U256,
    /// What the steps so far have returned, before fees.
    pub total_return: u128,
    /// The fees of the steps so far.
    pub total_commission: u128,
    /// How many steps have been taken.
    pub steps: u32,
}

/// A [`SwapState`] over mathematical integers.
pub struct SwapStateView {
    pub remain: nat,
    pub tick_index: int,
    pub price: nat,
    pub total_return: nat,
    pub total_commission: nat,
    pub steps: nat,
}

impl View for SwapState {
    type V = SwapStateView;

    open spec fn view(&self) -> SwapStateView {
        SwapStateView {
            remain: self.remain as nat,
            tick_index: self.tick_index as int,
            price: self.price_sqrt@,
            total_return: self.total_return as nat,
            total_commission: self.total_commission as nat,
            steps: self.steps as nat,
        }
    }
}

/// The state after one step against a bucket of liquidity `liquidity`, with
/// the step taken.
///
/// The step is that of [`swap_tick`] for all that remains of the offer. What
/// it consumes, never more than remains, leaves the remainder; its return and
/// fee join the totals, and the swap goes on at its price in its bucket. The
/// swap cannot go on (`CanNotSwap`) in a bucket without liquidity or one
/// whose step is idle, and not beyond [`MAX_SWAP_STEPS`] steps
/// (`StepLimit`).
pub open spec fn advance(
    tick_space: int,
    fee_atomics: nat,
    offer_token: TokenNumber,
    state: SwapStateView,
    liquidity: nat,
) -> Result<(SwapStateView, SwapStep), ContractError> {
    if state.steps >= MAX_SWAP_STEPS {
        Err(ContractError::StepLimit)
    } else if liquidity == 0 {
        Err(ContractError::CanNotSwap)
    } else {
        match swap_tick(
            state.tick_index,
            tick_space,
            state.price,
            liquidity,
            offer_token,
            state.remain,
            fee_atomics,
        ) {
            None => Err(ContractError::Overflow),
            Some(step) => if step == idle_step() {
                Err(ContractError::CanNotSwap)
            } else if state.total_return + step.gross_return > u128::MAX || state.total_commission
                + step.commission > u128::MAX {
                Err(ContractError::Overflow)
            } else {
                Ok(
                    (
                        SwapStateView {
                            remain: (state.remain - step.consumed) as nat,
                            tick_index: step.next_tick_index,
                            price: step.next_price,
                            total_return: state.total_return + step.gross_return,
                            total_commission: state.total_commission + step.commission,
                            steps: state.steps + 1,
                        },
                        step,
                    ),
                )
            },
        }
    }
}

/// The bucket after a step has earned `commission`: the fee growth of the
/// token that was not offered rises by `commission / total_liquidity`, as a
/// decimal rounded down.
pub open spec fn fee_growth_after(info: TickInfo, offer_token: TokenNumber, commission: nat) -> Option<TickInfo> {
    let growth = ratio_floor(commission, DECIMAL_FRACTIONAL as nat, info.total_liquidity as nat);
    match offer_token {
        TokenNumber::Token0 => if info.total_liquidity == 0 || info.last_fee_growth_1.atomics + growth
            > u128::MAX {
            None
        } else {
            Some(
                TickInfo {
                    last_fee_growth_0: info.last_fee_growth_0,
                    last_fee_growth_1: Decimal { atomics: (info.last_fee_growth_1.atomics + growth) as u128 },
                    total_liquidity: info.total_liquidity,
                },
            )
        },
        TokenNumber::Token1 => if info.total_liquidity == 0 || info.last_fee_growth_0.atomics + growth
            > u128::MAX {
            None
        } else {
            Some(
                TickInfo {
                    last_fee_growth_0: Decimal { atomics: (info.last_fee_growth_0.atomics + growth) as u128 },
                    last_fee_growth_1: info.last_fee_growth_1,
                    total_liquidity: info.total_liquidity,
                },
            )
        },
    }
}

/// The state after one step of a swap, with what the step's bucket keeps
/// afterwards and the step taken. `tick` is what the pool keeps for the
/// bucket `state.tick_index`; a missing bucket ends the swap (`CanNotSwap`).
pub open spec fn next_state(
    tick_space: int,
    fee_atomics: nat,
    offer_token: TokenNumber,
    state: SwapStateView,
    tick: Option<TickInfo>,
) -> Result<(SwapStateView, TickInfo, SwapStep), ContractError> {
    if state.steps >= MAX_SWAP_STEPS {
        Err(ContractError::StepLimit)
    } else {
        match tick {
            None => Err(ContractError::CanNotSwap),
            Some(info) => match advance(
                tick_space,
                fee_atomics,
                offer_token,
                state,
                info.total_liquidity as nat,
            ) {
                Err(e) => Err(e),
                Ok((next, step)) => match fee_growth_after(info, offer_token, step.commission) {
                    None => Err(ContractError::Overflow),
                    Some(kept) => Ok((next, kept, step)),
                },
            },
        }
    }
}

/// Whether an executed advance is the advance of the model.
pub open spec fn advance_matches(
    result: Result<(SwapState, u128, u128, u128), ContractError>,
    model: Result<(SwapStateView, SwapStep), ContractError>,
) -> bool {
    match (result, model) {
        (Ok((state, consumed, gross_return, commission)), Ok((next, step))) => {
            &&& state@ == next
            &&& consumed == step.consumed
            &&& gross_return == step.gross_return
            &&& commission == step.commission
        },
        (Err(e), Err(f)) => e == f,
        _ => false,
    }
}

/// Whether an executed step is the step of the model.
pub open spec fn next_matches(
    result: Result<(SwapState, TickInfo), ContractError>,
    model: Result<(SwapStateView, TickInfo, SwapStep), ContractError>,
) -> bool {
    match (result, model) {
        (Ok((state, kept)), Ok((next, info, _))) => state@ == next && kept == info,
        (Err(e), Err(f)) => e == f,
        _ => false,
    }
}

impl SwapState {
    /// The state of a swap of `offer_amount` that has not begun.
    pub fn start(offer_amount: u128, tick_index: i32, price_sqrt: U256) -> (state: SwapState)
        ensures
            state@ == (SwapStateView {
                remain: offer_amount as nat,
                tick_index: tick_index as int,
                price: price_sqrt@,
                total_return: 0,
                total_commission: 0,
                steps: 0,
            }),
    {
        SwapState { remain: offer_amount, tick_index, price_sqrt, total_return: 0, total_commission: 0, steps: 0 }
    }

    /// Whether all of the offer is consumed.
    pub fn is_done(&self) -> (done: bool)
        ensures
            done <==> self@.remain == 0,
    {
        self.remain == 0
    }
}

/// One step of a swap against a bucket of liquidity `liquidity`: the state
/// after it and what the step consumed, returned before the fee, and took as
/// its fee.
pub fn swap_advance(
    tick_space: u16,
    fee_rate: Decimal,
    offer_token: &TokenNumber,
    state: &SwapState,
    liquidity: u128,
) -> (result: Result<(SwapState, u128, u128, u128), ContractError>)
    ensures
        advance_matches(
            result,
            advance(tick_space as int, fee_rate.atomics as nat, *offer_token, state@, liquidity as nat),
        ),
{
    if state.steps >= MAX_SWAP_STEPS {
        return Err(ContractError::StepLimit);
    }
    if liquidity == 0 {
        return Err(ContractError::CanNotSwap);
    }
    let step = compute_swap_tick(
        state.tick_index,
        tick_space,
        state.price_sqrt,
        liquidity,
        offer_token,
        state.remain,
        fee_rate,
    );
    let (consumed, gross_return, commission, next_price, next_tick_index) = match step {
        Some(step) => step,
        None => { return Err(ContractError::Overflow); },
    };
    if consumed == 0 && gross_return == 0 && commission == 0 && next_price.is_zero() && next_tick_index == 0 {
        return Err(ContractError::CanNotSwap);
    }
    proof {
        lemma_price_moves_one_way(
            state.tick_index as int,
            tick_space as int,
            state.price_sqrt@,
            liquidity as nat,
            *offer_token,
            state.remain as nat,
            fee_rate.atomics as nat,
        );
    }
    let remain = state.remain - consumed;
    let total_return = match state.total_return.checked_add(gross_return) {
        Some(total) => total,
        None => { return Err(ContractError::Overflow); },
    };
    let total_commission = match state.total_commission.checked_add(commission) {
        Some(total) => total,
        None => { return Err(ContractError::Overflow); },
    };
    Ok(
        (
            SwapState {
                remain,
                tick_index: next_tick_index,
                price_sqrt: next_price,
                total_return,
                total_commission,
                steps: state.steps + 1,
            },
            consumed,
            gross_return,
            commission,
        ),
    )
}

/// What a bucket keeps after a step has earned `commission`.
pub fn add_fee_growth(
    info: TickInfo,
    offer_token: &TokenNumber,
    commission: u128,
) -> (kept: Option<TickInfo>)
    ensures
        kept == fee_growth_after(info, *offer_token, commission as nat),
{
    let growth = Decimal::from_ratio(commission, info.total_liquidity)?;
    match offer_token {
        TokenNumber::Token0 => {
            let grown = info.last_fee_growth_1.checked_add(growth)?;
            Some(
                TickInfo {
                    last_fee_growth_0: info.last_fee_growth_0,
                    last_fee_growth_1: grown,
                    total_liquidity: info.total_liquidity,
                },
            )
        },
        TokenNumber::Token1 => {
            let grown = info.last_fee_growth_0.checked_add(growth)?;
            Some(
                TickInfo {
                    last_fee_growth_0: grown,
                    last_fee_growth_1: info.last_fee_growth_1,
                    total_liquidity: info.total_liquidity,
                },
            )
        },
    }
}

/// One step of a swap: from the state before it and what the pool keeps for
/// the state's bucket to the state after it and what the pool has to keep
/// for that bucket from now on.
pub fn swap_step(
    tick_space: u16,
    fee_rate: Decimal,
    offer_token: &TokenNumber,
    state: &SwapState,
    tick: Option<TickInfo>,
) -> (result: Result<(SwapState, TickInfo), ContractError>)
    ensures
        next_matches(
            result,
            next_state(tick_space as int, fee_rate.atomics as nat, *offer_token, state@, tick),
        ),
{
    if state.steps >= MAX_SWAP_STEPS {
        return Err(ContractError::StepLimit);
    }
    let info = match tick {
        Some(info) => info,
        None => { return Err(ContractError::CanNotSwap); },
    };
    let (next, _, _, commission) = swap_advance(tick_space, fee_rate, offer_token, state, info.total_liquidity)?;
    match add_fee_growth(info, offer_token, commission) {
        Some(kept) => Ok((next, kept)),
        None => Err(ContractError::Overflow),
    }
}

/// The end of a swap that stands at `state`: step by step until nothing
/// remains of the offer, each step's bucket kept as the step leaves it. The
/// result is the last state with the buckets as they are then, or the error
/// of the step that failed.
pub open spec fn walk(
    tick_space: int,
    fee_atomics: nat,
    offer_token: TokenNumber,
    state: SwapStateView,
    ticks: Map<int, TickInfo>,
) -> Result<(SwapStateView, Map<int, TickInfo>), ContractError>
    decreases MAX_SWAP_STEPS - state.steps,
{
    if state.remain == 0 {
        Ok((state, ticks))
    } else {
        match next_state(tick_space, fee_atomics, offer_token, state, ticks.get(state.tick_index)) {
            Err(e) => Err(e),
            Ok((next, kept, _)) => walk(
                tick_space,
                fee_atomics,
                offer_token,
                next,
                ticks.insert(state.tick_index, kept),
            ),
        }
    }
}

/// The steps that [`walk`] takes, in their order.
pub open spec fn walk_steps(
    tick_space: int,
    fee_atomics: nat,
    offer_token: TokenNumber,
    state: SwapStateView,
    ticks: Map<int, TickInfo>,
) -> Seq<SwapStep>
    decreases MAX_SWAP_STEPS - state.steps,
{
    if state.remain == 0 {
        Seq::empty()
    } else {
        match next_state(tick_space, fee_atomics, offer_token, state, ticks.get(state.tick_index)) {
            Err(e) => Seq::empty(),
            Ok((next, kept, step)) => seq![step] + walk_steps(
                tick_space,
                fee_atomics,
                offer_token,
                next,
                ticks.insert(state.tick_index, kept),
            ),
        }
    }
}

/// What the steps consume in all.
pub open spec fn sum_consumed(steps: Seq<SwapStep>) -> nat
    decreases steps.len(),
{
    if steps.len() == 0 {
        0
    } else {
        steps[0].consumed + sum_consumed(steps.drop_first())
    }
}

/// What the steps return in all, before fees.
pub open spec fn sum_gross_return(steps: Seq<SwapStep>) -> nat
    decreases steps.len(),
{
    if steps.len() == 0 {
        0
    } else {
        steps[0].gross_return + sum_gross_return(steps.drop_first())
    }
}

/// The fees of the steps in all.
pub open spec fn sum_commission(steps: Seq<SwapStep>) -> nat
    decreases steps.len(),
{
    if steps.len() == 0 {
        0
    } else {
        steps[0].commission + sum_commission(steps.drop_first())
    }
}

/// A swap that comes to its end has consumed the whole offer, and its totals
/// are the sums over its steps: what was offered less what remains is what
/// the steps consumed, and the total return and the total fee grew by what
/// the steps returned and took.
pub proof fn lemma_walk_conserves(
    tick_space: int,
    fee_atomics: nat,
    offer_token: TokenNumber,
    state: SwapStateView,
    ticks: Map<int, TickInfo>,
)
    ensures
        walk(tick_space, fee_atomics, offer_token, state, ticks) matches Ok((end, _)) ==> {
            let steps = walk_steps(tick_space, fee_atomics, offer_token, state, ticks);
            &&& end.remain == 0
            &&& state.remain - end.remain == sum_consumed(steps)
            &&& end.total_return == state.total_return + sum_gross_return(steps)
            &&& end.total_commission == state.total_commission + sum_commission(steps)
        },
    decreases MAX_SWAP_STEPS - state.steps,
{
    if state.remain != 0 {
        match next_state(tick_space, fee_atomics, offer_token, state, ticks.get(state.tick_index)) {
            Err(e) => {},
            Ok((next, kept, step)) => {
                lemma_walk_conserves(
                    tick_space,
                    fee_atomics,
                    offer_token,
                    next,
                    ticks.insert(state.tick_index, kept),
                );
                let rest = walk_steps(
                    tick_space,
                    fee_atomics,
                    offer_token,
                    next,
                    ticks.insert(state.tick_index, kept),
                );
                let steps = seq![step] + rest;
                assert(steps.drop_first() =~= rest);
            },
        }
    }
}

/// During one swap the price moves one way only: a swap that offers token 0
/// ends at a price not above the one it began at, a swap that offers token 1
/// at a price not below it.
pub proof fn lemma_walk_moves_one_way(
    tick_space: int,
    fee_atomics: nat,
    offer_token: TokenNumber,
    state: SwapStateView,
    ticks: Map<int, TickInfo>,
)
    ensures
        walk(tick_space, fee_atomics, offer_token, state, ticks) matches Ok((end, _)) ==> match offer_token {
            TokenNumber::Token0 => end.price <= state.price,
            TokenNumber::Token1 => end.price >= state.price,
        },
    decreases MAX_SWAP_STEPS - state.steps,
{
    if state.remain != 0 {
        match next_state(tick_space, fee_atomics, offer_token, state, ticks.get(state.tick_index)) {
            Err(e) => {},
            Ok((next, kept, step)) => {
                lemma_price_moves_one_way(
                    state.tick_index,
                    tick_space,
                    state.price,
                    ticks[state.tick_index].total_liquidity as nat,
                    offer_token,
                    state.remain,
                    fee_atomics,
                );
                lemma_walk_moves_one_way(
                    tick_space,
                    fee_atomics,
                    offer_token,
                    next,
                    ticks.insert(state.tick_index, kept),
                );
            },
        }
    }
}

/// A swap that comes to its end has taken no more than [`MAX_SWAP_STEPS`]
/// steps.
pub proof fn lemma_walk_is_bounded(
    tick_space: int,
    fee_atomics: nat,
    offer_token: TokenNumber,
    state: SwapStateView,
    ticks: Map<int, TickInfo>,
)
    requires
        state.steps <= MAX_SWAP_STEPS,
    ensures
        walk(tick_space, fee_atomics, offer_token, state, ticks) matches Ok((end, _)) ==> {
            &&& end.steps <= MAX_SWAP_STEPS
            &&& walk_steps(tick_space, fee_atomics, offer_token, state, ticks).len() == end.steps - state.steps
        },
    decreases MAX_SWAP_STEPS - state.steps,
{
    if state.remain != 0 {
        match next_state(tick_space, fee_atomics, offer_token, state, ticks.get(state.tick_index)) {
            Err(e) => {},
            Ok((next, kept, step)) => {
                lemma_walk_is_bounded(
                    tick_space,
                    fee_atomics,
                    offer_token,
                    next,
                    ticks.insert(state.tick_index, kept),
                );
            },
        }
    }
}

/// At a fee rate of at most one the fees of a swap stay within its return,
/// so that what the trader receives is never negative.
pub proof fn lemma_walk_fee_within_return(
    tick_space: int,
    fee_atomics: nat,
    offer_token: TokenNumber,
    state: SwapStateView,
    ticks: Map<int, TickInfo>,
)
    requires
        fee_atomics <= DECIMAL_FRACTIONAL,
        state.total_commission <= state.total_return,
    ensures
        walk(tick_space, fee_atomics, offer_token, state, ticks) matches Ok((end, _))
            ==> end.total_commission <= end.total_return,
    decreases MAX_SWAP_STEPS - state.steps,
{
    if state.remain != 0 {
        match next_state(tick_space, fee_atomics, offer_token, state, ticks.get(state.tick_index)) {
            Err(e) => {},
            Ok((next, kept, step)) => {
                lemma_fee_within_return(
                    state.tick_index,
                    tick_space,
                    state.price,
                    ticks[state.tick_index].total_liquidity as nat,
                    offer_token,
                    state.remain,
                    fee_atomics,
                );
                lemma_walk_fee_within_return(
                    tick_space,
                    fee_atomics,
                    offer_token,
                    next,
                    ticks.insert(state.tick_index, kept),
                );
            },
        }
    }
}

/// A step leaves a bucket's liquidity as it was and lets neither of its fee
/// growths fall.
pub proof fn lemma_fee_growth_rises(info: TickInfo, offer_token: TokenNumber, commission: nat)
    ensures
        fee_growth_after(info, offer_token, commission) matches Some(kept) ==> {
            &&& kept.total_liquidity == info.total_liquidity
            &&& kept.last_fee_growth_0.atomics >= info.last_fee_growth_0.atomics
            &&& kept.last_fee_growth_1.atomics >= info.last_fee_growth_1.atomics
        },
{
}

/// Whether an executed walk is the walk of the model.
pub open spec fn walk_matches(
    result: Result<(SwapState, TickTable), ContractError>,
    model: Result<(SwapStateView, Map<int, TickInfo>), ContractError>,
) -> bool {
    match (result, model) {
        (Ok((state, table)), Ok((end, ticks))) => state@ == end && table@ == ticks,
        (Err(e), Err(f)) => e == f,
        _ => false,
    }
}

/// Carries a swap from `state` to its end over the buckets of `ticks`.
pub fn swap_walk(
    tick_space: u16,
    fee_rate: Decimal,
    offer_token: &TokenNumber,
    state: SwapState,
    ticks: TickTable,
) -> (result: Result<(SwapState, TickTable), ContractError>)
    ensures
        walk_matches(result, walk(tick_space as int, fee_rate.atomics as nat, *offer_token, state@, ticks@)),
{
    let ghost goal = walk(tick_space as int, fee_rate.atomics as nat, *offer_token, state@, ticks@);
    let mut current = state;
    let mut table = ticks;
    while current.remain > 0
        invariant
            goal == walk(tick_space as int, fee_rate.atomics as nat, *offer_token, state@, ticks@),
            goal == walk(tick_space as int, fee_rate.atomics as nat, *offer_token, current@, table@),
        decreases MAX_SWAP_STEPS - current.steps,
    {
        let index = current.tick_index;
        let (next, kept) = swap_step(tick_space, fee_rate, offer_token, &current, table.get(index))?;
        table = table.set(index, kept);
        current = next;
    }
    Ok((current, table))
}

/// The state after one step of a swap that leaves the buckets as they are:
/// [`advance`] against the liquidity of the state's bucket. A missing bucket
/// ends the swap (`CanNotSwap`).
pub open spec fn probe(
    tick_space: int,
    fee_atomics: nat,
    offer_token: TokenNumber,
    state: SwapStateView,
    tick: Option<TickInfo>,
) -> Result<SwapStateView, ContractError> {
    if state.steps >= MAX_SWAP_STEPS {
        Err(ContractError::StepLimit)
    } else {
        match tick {
            None => Err(ContractError::CanNotSwap),
            Some(info) => match advance(
                tick_space,
                fee_atomics,
                offer_token,
                state,
                info.total_liquidity as nat,
            ) {
                Err(e) => Err(e),
                Ok((next, _)) => Ok(next),
            },
        }
    }
}

/// The end of a swap that leaves the buckets as they are.
pub open spec fn dry_walk(
    tick_space: int,
    fee_atomics: nat,
    offer_token: TokenNumber,
    state: SwapStateView,
    ticks: Map<int, TickInfo>,
) -> Result<SwapStateView, ContractError>
    decreases MAX_SWAP_STEPS - state.steps,
{
    if state.remain == 0 {
        Ok(state)
    } else {
        match probe(tick_space, fee_atomics, offer_token, state, ticks.get(state.tick_index)) {
            Err(e) => Err(e),
            Ok(next) => dry_walk(tick_space, fee_atomics, offer_token, next, ticks),
        }
    }
}

/// Where a swap that asks for a return stands between two steps.
#[derive(Clone, Copy, Debug, PartialEq, Eq)]
pub struct ReverseState {
    /// What is left to return, after fees.
    pub remain: u128,
    /// The bucket of the next step.
    pub tick_index: i32,
    /// The current square-root price.
    pub price_sqrt: U256,
    /// What the steps so far ask to be offered.
    pub total_offer: u128,
    /// The fees of the steps so far.
    pub total_commission: u128,
    /// How many steps have been taken.
    pub steps: u32,
}

/// A [`ReverseState`] over mathematical integers.
pub struct ReverseStateView {
    pub remain: nat,
    pub tick_index: int,
    pub price: nat,
    pub total_offer: nat,
    pub total_commission: nat,
    pub steps: nat,
}

impl View for ReverseState {
    type V = ReverseStateView;

    open spec fn view(&self) -> ReverseStateView {
        ReverseStateView {
            remain: self.remain as nat,
            tick_index: self.tick_index as int,
            price: self.price_sqrt@,
            total_offer: self.total_offer as nat,
            total_commission: self.total_commission as nat,
            steps: self.steps as nat,
        }
    }
}

/// The state after one step of a swap that asks for a return. The step is
/// that of [`swap_tick_reverse`] for all that is left to return; what is
/// left falls by the step's return less its fee, and the step's offer and
/// fee join the totals.
pub open spec fn probe_reverse(
    tick_space: int,
    fee_atomics: nat,
    return_token: TokenNumber,
    state: ReverseStateView,
    tick: Option<TickInfo>,
) -> Result<ReverseStateView, ContractError> {
    if state.steps >= MAX_SWAP_STEPS {
        Err(ContractError::StepLimit)
    } else {
        match tick {
            None => Err(ContractError::CanNotSwap),
            Some(info) => match swap_tick_reverse(
                state.tick_index,
                tick_space,
                state.price,
                info.total_liquidity as nat,
                return_token,
                state.remain,
                fee_atomics,
            ) {
                None => Err(ContractError::Overflow),
                Some(step) => if step == idle_step() {
                    Err(ContractError::CanNotSwap)
                } else if state.remain + step.commission > u128::MAX || state.remain + step.commission
                    < step.gross_return || state.total_offer + step.consumed > u128::MAX
                    || state.total_commission + step.commission > u128::MAX {
                    Err(ContractError::Overflow)
                } else {
                    Ok(
                        ReverseStateView {
                            remain: (state.remain + step.commission - step.gross_return) as nat,
                            tick_index: step.next_tick_index,
                            price: step.next_price,
                            total_offer: state.total_offer + step.consumed,
                            total_commission: state.total_commission + step.commission,
                            steps: state.steps + 1,
                        },
                    )
                },
            },
        }
    }
}

/// The end of a swap that asks for a return.
pub open spec fn dry_walk_reverse(
    tick_space: int,
    fee_atomics: nat,
    return_token: TokenNumber,
    state: ReverseStateView,
    ticks: Map<int, TickInfo>,
) -> Result<ReverseStateView, ContractError>
    decreases MAX_SWAP_STEPS - state.steps,
{
    if state.remain == 0 {
        Ok(state)
    } else {
        match probe_reverse(tick_space, fee_atomics, return_token, state, ticks.get(state.tick_index)) {
            Err(e) => Err(e),
            Ok(next) => dry_walk_reverse(tick_space, fee_atomics, return_token, next, ticks),
        }
    }
}

/// One step of a swap that leaves the buckets as they are.
pub fn swap_probe(
    tick_space: u16,
    fee_rate: Decimal,
    offer_token: &TokenNumber,
    state: &SwapState,
    tick: Option<TickInfo>,
) -> (result: Result<SwapState, ContractError>)
    ensures
        match probe(tick_space as int, fee_rate.atomics as nat, *offer_token, state@, tick) {
            Ok(next) => result is Ok && result->Ok_0@ == next,
            Err(e) => result == Err::<SwapState, ContractError>(e),
        },
{
    if state.steps >= MAX_SWAP_STEPS {
        return Err(ContractError::StepLimit);
    }
    let info = match tick {
        Some(info) => info,
        None => { return Err(ContractError::CanNotSwap); },
    };
    let (next, _, _, _) = swap_advance(tick_space, fee_rate, offer_token, state, info.total_liquidity)?;
    Ok(next)
}

/// One step of a swap that asks for a return.
pub fn swap_probe_reverse(
    tick_space: u16,
    fee_rate: Decimal,
    return_token: &TokenNumber,
    state: &ReverseState,
    tick: Option<TickInfo>,
) -> (result: Result<ReverseState, ContractError>)
    ensures
        match probe_reverse(tick_space as int, fee_rate.atomics as nat, *return_token, state@, tick) {
            Ok(next) => result is Ok && result->Ok_0@ == next,
            Err(e) => result == Err::<ReverseState, ContractError>(e),
        },
{
    if state.steps >= MAX_SWAP_STEPS {
        return Err(ContractError::StepLimit);
    }
    let info = match tick {
        Some(info) => info,
        None => { return Err(ContractError::CanNotSwap); },
    };
    let step = compute_swap_tick_reverse(
        state.tick_index,
        tick_space,
        state.price_sqrt,
        info.total_liquidity,
        return_token,
        state.remain,
        fee_rate,
    );
    let (offer, gross_return, commission, next_price, next_tick_index) = match step {
        Some(step) => step,
        None => { return Err(ContractError::Overflow); },
    };
    if offer == 0 && gross_return == 0 && commission == 0 && next_price.is_zero() && next_tick_index == 0 {
        return Err(ContractError::CanNotSwap);
    }
    let with_fee = match state.remain.checked_add(commission) {
        Some(sum) => sum,
        None => { return Err(ContractError::Overflow); },
    };
    let remain = match with_fee.checked_sub(gross_return) {
        Some(remain) => remain,
        None => { return Err(ContractError::Overflow); },
    };
    let total_offer = match state.total_offer.checked_add(offer) {
        Some(total) => total,
        None => { return Err(ContractError::Overflow); },
    };
    let total_commission = match state.total_commission.checked_add(commission) {
        Some(total) => total,
        None => { return Err(ContractError::Overflow); },
    };
    Ok(
        ReverseState {
            remain,
            tick_index: next_tick_index,
            price_sqrt: next_price,
            total_offer,
            total_commission,
            steps: state.steps + 1,
        },
    )
}

} // verus!
