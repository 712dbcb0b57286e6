//! The price after a trade inside one tick, and prices made readable.

use vstd::prelude::*;
use crate::asset::TokenNumber;
use crate::decimal::{ratio_floor, Decimal256, DECIMAL_FRACTIONAL};
use crate::limbs::lemma_pow2_wide;
use crate::u256::{checked_div, div_rounded, lemma_div_rounded, q128, u256_limit, U256};

verus! {

/// The square-root price after `amount` of the offered token has been traded
/// against `liquidity` at the square-root price `price`.
///
/// Offering token 1 raises the price by `amount * 2^128 / liquidity`, rounded
/// down. Offering token 0 lowers it to
/// `liquidity * 2^128 / (liquidity * 2^128 / price + amount)`, the inner
/// quotient rounded down and the outer one rounded half up. `None` where a
/// divisor is zero or the result exceeds 256 bits.
pub open spec fn price_after(price: nat, liquidity: nat, amount: nat, offer_token: TokenNumber) -> Option<nat> {
    match offer_token {
        TokenNumber::Token1 => {
            if liquidity == 0 || price + amount * q128() / liquidity >= u256_limit() {
                None
            } else {
                Some(price + amount * q128() / liquidity)
            }
        },
        TokenNumber::Token0 => {
            if price == 0 || liquidity * q128() / price + amount == 0 {
                None
            } else {
                Some(div_rounded(liquidity * q128(), liquidity * q128() / price + amount, true))
            }
        },
    }
}

/// The square-root price after `amount` of `offer_token` has been traded
/// against `liquidity` at `price_sqrt`.
pub fn compute_price(
    price_sqrt: U256,
    liquidity: u128,
    amount: u128,
    offer_token: &TokenNumber,
) -> (next: Option<U256>)
    ensures
        match price_after(price_sqrt@, liquidity as nat, amount as nat, *offer_token) {
            Some(p) => next is Some && next->0@ == p,
            None => next is None,
        },
{
    match offer_token {
        TokenNumber::Token1 => {
            proof {
                if liquidity != 0 {
                    lemma_div_rounded(amount as nat * q128(), liquidity as nat, false);
                }
            }
            let rise = checked_div(U256::from_words(amount, 0), U256::from_u128(liquidity), false)?;
            price_sqrt.checked_add(&rise)
        },
        TokenNumber::Token0 => {
            let scaled = U256::from_words(liquidity, 0);
            proof {
                if price_sqrt@ != 0 {
                    lemma_div_rounded(scaled@, price_sqrt@, false);
                    scaled.lemma_bound();
                }
            }
            let held = checked_div(scaled, price_sqrt, false)?;
            let after = match held.checked_add(&U256::from_u128(amount)) {
                Some(after) => after,
                None => {
                    proof {
                        held.lemma_bound();
                        assert(false);
                    }
                    return None;
                },
            };
            checked_div(scaled, after, true)
        },
    }
}

/// The price that a Q128.128 square-root price stands for, as a decimal:
/// its square over `2^128`, rounded down, taken as a ratio over `2^128`,
/// rounded down again.
pub open spec fn price_of_sqrt(price_sqrt: nat) -> Option<nat> {
    if price_sqrt * price_sqrt / q128() >= u256_limit() {
        None
    } else {
        Some(ratio_floor(price_sqrt * price_sqrt / q128(), DECIMAL_FRACTIONAL as nat, q128()))
    }
}

/// The price that `price_sqrt` stands for, as a decimal with 18 digits;
/// `None` where the squared price exceeds 256 bits.
pub fn price_sqrt_to_price(price_sqrt: U256) -> (price: Option<Decimal256>)
    ensures
        match price_of_sqrt(price_sqrt@) {
            Some(p) => price is Some && price->0.atomics@ == p,
            None => price is None,
        },
{
    proof {
        lemma_pow2_wide();
    }
    let squared = U256::checked_mul_shr(price_sqrt, price_sqrt, 128)?;
    proof {
        squared.lemma_bound();
        let s = squared@;
        assert(s * (DECIMAL_FRACTIONAL as nat) / q128() < u256_limit()) by (nonlinear_arith)
            requires
                s < u256_limit(),
                DECIMAL_FRACTIONAL < q128(),
                q128() > 0,
        ;
    }
    Decimal256::from_ratio(squared, U256::from_words(1, 0))
}

} // verus!
