//! Fixed-point decimals with 18 fractional digits.
//!
//! A [`Decimal`] is a count of atomic units of `10^-18`. Fee rates, fee growth
//! and belief prices are decimals. Ratios of 128-bit integers are taken by
//! `cosmwasm_std`, which panics when a ratio does not fit: here each call is
//! made only after the ratio has been shown to fit.

use cosmwasm_std::Fraction;
use vstd::prelude::*;
use crate::u256::{checked_mul_div, lemma_div_rounded, q128, u256_limit, U256};

verus! {

/// The number of atomic units in one: `10^18`.
pub const DECIMAL_FRACTIONAL: u128 = 1_000_000_000_000_000_000u128;

/// `base * numerator / denominator`, rounded down, as a mathematical integer.
pub open spec fn ratio_floor(base: nat, numerator: nat, denominator: nat) -> nat {
    base * numerator / denominator
}

/// `base * numerator / denominator` rounded down, where the denominator is
/// not zero and the quotient fits 128 bits.
pub open spec fn checked_ratio(base: u128, numerator: u128, denominator: u128) -> Option<u128> {
    if denominator != 0 && ratio_floor(base as nat, numerator as nat, denominator as nat) <= u128::MAX {
        Some(ratio_floor(base as nat, numerator as nat, denominator as nat) as u128)
    } else {
        None
    }
}

/// A non-negative decimal with 18 fractional digits, at most
/// `(2^128 - 1) / 10^18`.
#[derive(Clone, Copy, Debug, PartialEq, Eq, Structural)]
pub struct Decimal {
    /// The value in units of `10^-18`.
    pub atomics: u128,
}

/// A non-negative decimal with 18 fractional digits over 256 bits.
#[derive(Clone, Copy, Debug, PartialEq, Eq)]
pub struct Decimal256 {
    /// The value in units of `10^-18`.
    pub atomics: U256,
}

/// `cosmwasm_std::Uint128::multiply_ratio`. It multiplies in 256 bits and
/// divides rounding down. It panics on a zero denominator and on a quotient
/// that exceeds 128 bits: the `requires` leaves both out.
#[verifier::external_body]
fn uint128_multiply_ratio(base: u128, numerator: u128, denominator: u128) -> (ratio: u128)
    requires
        denominator != 0,
        ratio_floor(base as nat, numerator as nat, denominator as nat) <= u128::MAX,
    ensures
        ratio == ratio_floor(base as nat, numerator as nat, denominator as nat),
{
    cosmwasm_std::Uint128::new(base).multiply_ratio(numerator, denominator).u128()
}

/// The result of `cosmwasm_std::Decimal::sqrt` on the decimal of `atomics`
/// units, in units of `10^-18`: an approximate square root.
pub uninterp spec fn decimal_sqrt(atomics: u128) -> u128;

/// `cosmwasm_std::Decimal::sqrt`, which neither overflows nor panics. The
/// decimal is made of its units as their ratio to the units in one, and the
/// root is read as its numerator. The contract only names the result.
#[verifier::external_body]
fn sqrt_atomics(atomics: u128) -> (root: u128)
    ensures
        root == decimal_sqrt(atomics),
{
    let one = cosmwasm_std::Decimal::one();
    cosmwasm_std::Decimal::from_ratio(atomics, one.denominator()).sqrt().numerator()
}

/// `base * numerator / denominator` rounded down; `None` on a zero
/// denominator or when the quotient exceeds 128 bits.
pub fn multiply_ratio(base: u128, numerator: u128, denominator: u128) -> (ratio: Option<u128>)
    ensures
        ratio == checked_ratio(base, numerator, denominator),
{
    if denominator == 0 {
        return None;
    }
    proof {
        let product = (base as nat) * (numerator as nat);
        lemma_div_rounded(product, denominator as nat, false);
        assert(product < u256_limit()) by (nonlinear_arith)
            requires
                product == (base as nat) * (numerator as nat),
                base < q128(),
                numerator < q128(),
                u256_limit() == q128() * q128(),
        ;
    }
    let wide = checked_mul_div(
        U256::from_u128(base),
        U256::from_u128(numerator),
        U256::from_u128(denominator),
        false,
    )?;
    match wide.to_u128() {
        Some(_) => Some(uint128_multiply_ratio(base, numerator, denominator)),
        None => None,
    }
}

impl Decimal {
    /// The decimal of `atomics` units of `10^-18`.
    pub fn raw(atomics: u128) -> (d: Decimal)
        ensures
            d.atomics == atomics,
    {
        Decimal { atomics }
    }

    /// Zero.
    pub fn zero() -> (d: Decimal)
        ensures
            d.atomics == 0,
    {
        Decimal { atomics: 0 }
    }

    /// One.
    pub fn one() -> (d: Decimal)
        ensures
            d.atomics == DECIMAL_FRACTIONAL,
    {
        Decimal { atomics: DECIMAL_FRACTIONAL }
    }

    /// The approximate square root.
    pub fn sqrt(self) -> (root: Decimal)
        ensures
            root.atomics == decimal_sqrt(self.atomics),
    {
        Decimal { atomics: sqrt_atomics(self.atomics) }
    }

    /// The sum, unless it exceeds the range.
    pub fn checked_add(self, other: Decimal) -> (sum: Option<Decimal>)
        ensures
            sum is Some <==> self.atomics + other.atomics <= u128::MAX,
            sum is Some ==> sum->0.atomics == self.atomics + other.atomics,
    {
        match self.atomics.checked_add(other.atomics) {
            Some(atomics) => Some(Decimal { atomics }),
            None => None,
        }
    }

    /// The difference, unless it would be negative.
    pub fn checked_sub(self, other: Decimal) -> (difference: Option<Decimal>)
        ensures
            difference is Some <==> self.atomics >= other.atomics,
            difference is Some ==> difference->0.atomics == self.atomics - other.atomics,
    {
        match self.atomics.checked_sub(other.atomics) {
            Some(atomics) => Some(Decimal { atomics }),
            None => None,
        }
    }

    /// The ratio `numerator / denominator` as a decimal, rounded down; `None`
    /// on a zero denominator or when the ratio exceeds the range.
    pub fn from_ratio(numerator: u128, denominator: u128) -> (d: Option<Decimal>)
        ensures
            d is Some <==> denominator != 0 && ratio_floor(
                numerator as nat,
                DECIMAL_FRACTIONAL as nat,
                denominator as nat,
            ) <= u128::MAX,
            d is Some ==> d->0.atomics == ratio_floor(
                numerator as nat,
                DECIMAL_FRACTIONAL as nat,
                denominator as nat,
            ),
    {
        match multiply_ratio(numerator, DECIMAL_FRACTIONAL, denominator) {
            Some(atomics) => Some(Decimal { atomics }),
            None => None,
        }
    }

    /// `amount` times this decimal, rounded down to a whole number; `None`
    /// when the product exceeds 128 bits.
    pub fn mul_floor(self, amount: u128) -> (product: Option<u128>)
        ensures
            product is Some <==> ratio_floor(amount as nat, self.atomics as nat, DECIMAL_FRACTIONAL as nat)
                <= u128::MAX,
            product is Some ==> product->0 == ratio_floor(
                amount as nat,
                self.atomics as nat,
                DECIMAL_FRACTIONAL as nat,
            ),
    {
        multiply_ratio(amount, self.atomics, DECIMAL_FRACTIONAL)
    }
}

impl Decimal256 {
    /// The ratio `numerator / denominator` as a decimal, rounded down; `None`
    /// on a zero denominator or when the ratio exceeds the range.
    pub fn from_ratio(numerator: U256, denominator: U256) -> (d: Option<Decimal256>)
        ensures
            d is Some <==> denominator@ != 0 && ratio_floor(numerator@, DECIMAL_FRACTIONAL as nat, denominator@)
                < u256_limit(),
            d is Some ==> d->0.atomics@ == ratio_floor(numerator@, DECIMAL_FRACTIONAL as nat, denominator@),
    {
        proof {
            if denominator@ != 0 {
                lemma_div_rounded(numerator@ * (DECIMAL_FRACTIONAL as nat), denominator@, false);
            }
        }
        match checked_mul_div(numerator, U256::from_u128(DECIMAL_FRACTIONAL), denominator, false) {
            Some(atomics) => Some(Decimal256 { atomics }),
            None => None,
        }
    }
}

} // verus!
