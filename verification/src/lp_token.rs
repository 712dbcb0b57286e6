//! What a position token answers and what a position has earned.
//!
//! A position remembers the fee growth of each bucket it spans as it was when
//! the position last claimed. What it has earned since is the growth since
//! then, summed over its buckets, times its liquidity.

use vstd::prelude::*;
use crate::decimal::{ratio_floor, Decimal, DECIMAL_FRACTIONAL};
use crate::tick_table::TickInfo;

verus! {

/// The owner of a position.
#[derive(Clone, Debug, PartialEq, Eq)]
pub struct OwnerOfResponse {
    pub owner: String,
}

/// The identifiers of some positions.
#[derive(Clone, Debug, PartialEq, Eq)]
pub struct TokensResponse {
    pub tokens: Vec<String>,
}

/// The account that may mint positions.
#[derive(Clone, Debug, PartialEq, Eq)]
pub struct MinterResponse {
    pub minter: String,
}

/// The fee growth of one bucket.
#[derive(Clone, Copy, Debug, PartialEq, Eq, Structural)]
pub struct FeeInfo {
    /// The bucket.
    pub tick_index: i32,
    /// Fees of token 0 earned by one unit of liquidity in the bucket.
    pub last_fee_growth_0: Decimal,
    /// Fees of token 1 earned by one unit of liquidity in the bucket.
    pub last_fee_growth_1: Decimal,
}

/// The most buckets that one page of a fee scan asks for.
pub const FEE_PAGE_LIMIT: u32 = 30u32;

/// The growth of `token` that a bucket records.
pub open spec fn growth_of(info: FeeInfo, first: bool) -> nat {
    if first {
        info.last_fee_growth_0.atomics as nat
    } else {
        info.last_fee_growth_1.atomics as nat
    }
}

/// What one unit of liquidity has earned over the first `n` buckets, in
/// units of `10^-18`: for each bucket in turn the running sum takes the
/// growth now and drops the growth remembered. `None` where the buckets
/// remembered are too few, a running sum exceeds 128 bits or a bucket's
/// growth remembered exceeds the running sum with its growth now.
pub open spec fn earned_per_liquidity(now: Seq<FeeInfo>, before: Seq<FeeInfo>, n: nat, first: bool) -> Option<
    nat,
>
    decreases n,
{
    if n == 0 {
        Some(0nat)
    } else {
        let i = (n - 1) as int;
        match earned_per_liquidity(now, before, (n - 1) as nat, first) {
            None => None,
            Some(sum) => if i >= before.len() || i >= now.len() || sum + growth_of(now[i], first) > u128::MAX
                || sum + growth_of(now[i], first) < growth_of(before[i], first) {
                None
            } else {
                Some((sum + growth_of(now[i], first) - growth_of(before[i], first)) as nat)
            },
        }
    }
}

/// What a position of `liquidity` has earned of one token: what a unit has
/// earned over all buckets, times the liquidity, rounded down.
pub open spec fn earned(now: Seq<FeeInfo>, before: Seq<FeeInfo>, liquidity: nat, first: bool) -> Option<nat> {
    match earned_per_liquidity(now, before, now.len(), first) {
        None => None,
        Some(per_unit) => if ratio_floor(liquidity, per_unit, DECIMAL_FRACTIONAL as nat) > u128::MAX {
            None
        } else {
            Some(ratio_floor(liquidity, per_unit, DECIMAL_FRACTIONAL as nat))
        },
    }
}

/// What a position has earned of token 0 and of token 1 since it last
/// claimed: `new_infos` is the fee growth of its buckets now,
/// `last_updated_fee_infos` what it remembers of them, bucket by bucket.
pub fn compute_reward(
    new_infos: &Vec<FeeInfo>,
    last_updated_fee_infos: &Vec<FeeInfo>,
    liquidity: u128,
) -> (rewards: Option<(u128, u128)>)
    ensures
        match (
            earned(new_infos@, last_updated_fee_infos@, liquidity as nat, true),
            earned(new_infos@, last_updated_fee_infos@, liquidity as nat, false),
            rewards,
        ) {
            (Some(reward0), Some(reward1), Some((earned0, earned1))) => earned0 == reward0 && earned1 == reward1,
            (Some(_), Some(_), None) => false,
            (_, _, given) => given is None,
        },
{
    let mut per_liquidity_0 = Decimal::zero();
    let mut per_liquidity_1 = Decimal::zero();
    let mut i: usize = 0;
    while i < new_infos.len()
        invariant
            i <= new_infos@.len(),
            earned_per_liquidity(new_infos@, last_updated_fee_infos@, i as nat, true) == Some(
                per_liquidity_0.atomics as nat,
            ),
            earned_per_liquidity(new_infos@, last_updated_fee_infos@, i as nat, false) == Some(
                per_liquidity_1.atomics as nat,
            ),
        decreases new_infos@.len() - i,
    {
        proof {
            lemma_earned_fails_on(new_infos@, last_updated_fee_infos@, (i + 1) as nat, new_infos@.len(), true);
            lemma_earned_fails_on(new_infos@, last_updated_fee_infos@, (i + 1) as nat, new_infos@.len(), false);
        }
        if i >= last_updated_fee_infos.len() {
            return None;
        }
        let now = new_infos[i];
        let before = last_updated_fee_infos[i];
        per_liquidity_0 = per_liquidity_0.checked_add(now.last_fee_growth_0)?.checked_sub(before.last_fee_growth_0)?;
        per_liquidity_1 = per_liquidity_1.checked_add(now.last_fee_growth_1)?.checked_sub(before.last_fee_growth_1)?;
        i += 1;
    }
    let reward0 = per_liquidity_0.mul_floor(liquidity)?;
    let reward1 = per_liquidity_1.mul_floor(liquidity)?;
    Some((reward0, reward1))
}

/// Once the running sum fails it has failed for every longer run of
/// buckets.
pub proof fn lemma_earned_fails_on(
    now: Seq<FeeInfo>,
    before: Seq<FeeInfo>,
    n: nat,
    m: nat,
    first: bool,
)
    requires
        n <= m,
    ensures
        earned_per_liquidity(now, before, n, first) is None ==> earned_per_liquidity(now, before, m, first)
            is None,
    decreases m,
{
    if n < m {
        lemma_earned_fails_on(now, before, n, (m - 1) as nat, first);
    }
}

/// Where a scan of a pool's buckets for the fee growth of a position
/// stands: what it has gathered, the bucket after which the next page
/// begins, and whether it has come to its end.
#[derive(Debug)]
pub struct FeeScan {
    /// The fee growth gathered so far, in the order of the buckets.
    pub fee_infos: Vec<FeeInfo>,
    /// The bucket after which the next page begins.
    pub start_after_tick: i32,
    /// Whether the scan is over.
    pub done: bool,
}

/// A [`FeeScan`] over mathematical values.
pub struct FeeScanView {
    pub fee_infos: Seq<FeeInfo>,
    pub start_after_tick: int,
    pub done: bool,
}

impl View for FeeScan {
    type V = FeeScanView;

    open spec fn view(&self) -> FeeScanView {
        FeeScanView { fee_infos: self.fee_infos@, start_after_tick: self.start_after_tick as int, done: self.done }
    }
}

/// The scan after the first `n` buckets of a page: each bucket up to `upper`
/// is gathered and becomes the one after which the next page begins; a
/// bucket beyond `upper` ends the scan.
pub open spec fn scan_after(scan: FeeScanView, page: Seq<(i32, TickInfo)>, n: nat, upper: int) -> FeeScanView
    decreases n,
{
    if n == 0 || n > page.len() {
        scan
    } else {
        let prior = scan_after(scan, page, (n - 1) as nat, upper);
        let (tick_index, info) = page[n - 1];
        if tick_index > upper {
            FeeScanView { fee_infos: prior.fee_infos, start_after_tick: prior.start_after_tick, done: true }
        } else {
            FeeScanView {
                fee_infos: prior.fee_infos.push(
                    FeeInfo {
                        tick_index,
                        last_fee_growth_0: info.last_fee_growth_0,
                        last_fee_growth_1: info.last_fee_growth_1,
                    },
                ),
                start_after_tick: tick_index as int,
                done: prior.done,
            }
        }
    }
}

/// The scan after a whole page. A page shorter or longer than
/// [`FEE_PAGE_LIMIT`] is the last.
pub open spec fn scan_after_page(scan: FeeScanView, page: Seq<(i32, TickInfo)>, upper: int) -> FeeScanView {
    scan_after(
        FeeScanView {
            fee_infos: scan.fee_infos,
            start_after_tick: scan.start_after_tick,
            done: scan.done || page.len() != FEE_PAGE_LIMIT,
        },
        page,
        page.len(),
        upper,
    )
}

impl FeeScan {
    /// The scan of the position that begins at the bucket
    /// `lower_tick_index`, before its first page; `None` where no bucket lies
    /// below that one.
    pub fn start(lower_tick_index: i32) -> (scan: Option<FeeScan>)
        ensures
            scan is Some <==> lower_tick_index > i32::MIN,
            scan is Some ==> scan->0@ == (FeeScanView {
                fee_infos: Seq::empty(),
                start_after_tick: lower_tick_index - 1,
                done: false,
            }),
    {
        let start_after_tick = lower_tick_index.checked_sub(1)?;
        Some(FeeScan { fee_infos: Vec::new(), start_after_tick, done: false })
    }

    /// How many buckets the next page asks for: as many as lie between the
    /// bucket after which it begins and `upper_tick_index`, at most
    /// [`FEE_PAGE_LIMIT`]. Where `upper_tick_index` lies below, the answer is
    /// [`FEE_PAGE_LIMIT`].
    pub fn page_limit(&self, upper_tick_index: i32) -> (limit: u32)
        ensures
            limit == (if 0 <= upper_tick_index - self.start_after_tick < FEE_PAGE_LIMIT {
                (upper_tick_index - self.start_after_tick) as u32
            } else {
                FEE_PAGE_LIMIT
            }),
    {
        let left: i64 = upper_tick_index as i64 - self.start_after_tick as i64;
        if 0 <= left && left < FEE_PAGE_LIMIT as i64 {
            left as u32
        } else {
            FEE_PAGE_LIMIT
        }
    }

    /// The scan after the page `page` of buckets has come in.
    pub fn absorb(self, page: &Vec<(i32, TickInfo)>, upper_tick_index: i32) -> (scan: FeeScan)
        ensures
            scan@ == scan_after_page(self@, page@, upper_tick_index as int),
    {
        let ghost begun = FeeScanView {
            fee_infos: self.fee_infos@,
            start_after_tick: self.start_after_tick as int,
            done: self.done || page@.len() != FEE_PAGE_LIMIT,
        };
        let mut fee_infos = self.fee_infos;
        let mut start_after_tick = self.start_after_tick;
        let mut done = self.done || page.len() != FEE_PAGE_LIMIT as usize;
        let mut i: usize = 0;
        while i < page.len()
            invariant
                i <= page@.len(),
                scan_after(begun, page@, i as nat, upper_tick_index as int) == (FeeScanView {
                    fee_infos: fee_infos@,
                    start_after_tick: start_after_tick as int,
                    done,
                }),
            decreases page@.len() - i,
        {
            let (tick_index, info) = page[i];
            if tick_index > upper_tick_index {
                done = true;
            } else {
                fee_infos.push(
                    FeeInfo {
                        tick_index,
                        last_fee_growth_0: info.last_fee_growth_0,
                        last_fee_growth_1: info.last_fee_growth_1,
                    },
                );
                start_after_tick = tick_index;
            }
            i += 1;
        }
        FeeScan { fee_infos, start_after_tick, done }
    }
}

/// The liquidity of a position after `amount` is added to it (`add` set) or
/// taken from it; `None` where it would leave the range.
pub fn update_liquidity(liquidity: u128, amount: u128, add: bool) -> (updated: Option<u128>)
    ensures
        updated is Some <==> (if add {
            liquidity + amount <= u128::MAX
        } else {
            liquidity >= amount
        }),
        updated is Some ==> updated->0 == (if add {
            liquidity + amount
        } else {
            liquidity - amount
        }),
{
    if add {
        liquidity.checked_add(amount)
    } else {
        liquidity.checked_sub(amount)
    }
}

} // verus!
