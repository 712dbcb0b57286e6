//! The two assets of a pool and how they are named.

use vstd::prelude::*;
use vstd::utf8::encode_utf8;
use crate::decimal::{multiply_ratio, ratio_floor, Decimal, DECIMAL_FRACTIONAL};
use crate::error::ContractError;

verus! {

/// Which of a pool's two tokens is meant.
#[derive(Clone, Copy, Debug, PartialEq, Eq, Structural)]
pub enum TokenNumber {
    Token0,
    Token1,
}

/// What an asset is: a token kept by a contract, or a native coin.
#[derive(Clone, Debug, PartialEq, Eq)]
pub enum AssetInfo {
    /// A token, named by the address of its contract.
    Token { contract_addr: String },
    /// A native coin, named by its denomination.
    NativeToken { denom: String },
}

/// An amount of an asset.
#[derive(Clone, Debug, PartialEq, Eq)]
pub struct Asset {
    /// Which asset.
    pub info: AssetInfo,
    /// How much of it.
    pub amount: u128,
}

/// An amount of a native coin.
#[derive(Clone, Debug, PartialEq, Eq)]
pub struct Coin {
    /// The coin's denomination.
    pub denom: String,
    /// How much of it.
    pub amount: u128,
}

/// The amount of the first coin of the denomination `denom` among `funds`.
pub open spec fn sent_amount(funds: Seq<Coin>, denom: Seq<char>) -> Option<u128>
    decreases funds.len(),
{
    if funds.len() == 0 {
        None
    } else if funds[0].denom@ == denom {
        Some(funds[0].amount)
    } else {
        sent_amount(funds.drop_first(), denom)
    }
}

/// The tax on a transfer of `amount`: what the amount exceeds its part
/// before tax, `amount / (1 + rate)` rounded down, but no more than `cap`.
/// `None` where one plus the rate exceeds the range of a decimal.
pub open spec fn tax_on(amount: nat, rate_atomics: nat, cap: nat) -> Option<nat> {
    let one = DECIMAL_FRACTIONAL as nat;
    if rate_atomics + one > u128::MAX {
        None
    } else {
        let tax = (amount - ratio_floor(amount, one, rate_atomics + one)) as nat;
        Some(if tax < cap { tax } else { cap })
    }
}

impl AssetInfo {
    /// The address or the denomination that names the asset.
    pub open spec fn name(&self) -> Seq<char> {
        match self {
            AssetInfo::Token { contract_addr } => contract_addr@,
            AssetInfo::NativeToken { denom } => denom@,
        }
    }

    /// The bytes of the asset's name.
    pub open spec fn bytes(&self) -> Seq<u8> {
        encode_utf8(self.name())
    }

    /// Whether the asset is a native coin.
    pub fn is_native_token(&self) -> (native: bool)
        ensures
            native <==> self is NativeToken,
    {
        match self {
            AssetInfo::NativeToken { .. } => true,
            AssetInfo::Token { .. } => false,
        }
    }

    /// The bytes of the asset's name.
    pub fn as_bytes(&self) -> (bytes: &[u8])
        ensures
            bytes@ == self.bytes(),
    {
        match self {
            AssetInfo::NativeToken { denom } => denom.as_str().as_bytes(),
            AssetInfo::Token { contract_addr } => contract_addr.as_str().as_bytes(),
        }
    }

    /// Whether both are the same asset: of the same kind and with the same
    /// name.
    pub fn equal(&self, asset: &AssetInfo) -> (same: bool)
        ensures
            same <==> (self is Token <==> asset is Token) && self.name() == asset.name(),
    {
        match self {
            AssetInfo::Token { contract_addr } => {
                let self_contract_addr = contract_addr;
                match asset {
                    AssetInfo::Token { contract_addr } => *self_contract_addr == *contract_addr,
                    AssetInfo::NativeToken { .. } => false,
                }
            },
            AssetInfo::NativeToken { denom } => {
                let self_denom = denom;
                match asset {
                    AssetInfo::Token { .. } => false,
                    AssetInfo::NativeToken { denom } => *self_denom == *denom,
                }
            },
        }
    }
}

impl Asset {
    /// Whether the asset is a native coin.
    pub fn is_native_token(&self) -> (native: bool)
        ensures
            native <==> self.info is NativeToken,
    {
        self.info.is_native_token()
    }

    /// Whether a transfer of the asset is taxed: it is a native coin other
    /// than `uluna`.
    pub fn is_taxed(&self) -> (taxed: bool)
        ensures
            taxed <==> self.info is NativeToken && self.info.name() != "uluna"@,
    {
        match &self.info {
            AssetInfo::NativeToken { denom } => {
                let untaxed = "uluna".to_owned();
                !(*denom == untaxed)
            },
            AssetInfo::Token { .. } => false,
        }
    }

    /// The tax on a transfer of the asset at the rate `tax_rate`, capped at
    /// `tax_cap`: that of [`tax_on`] where the asset is taxed, and zero where
    /// it is not.
    pub fn compute_tax(&self, tax_rate: Decimal, tax_cap: u128) -> (tax: Option<u128>)
        ensures
            match self.tax(tax_rate.atomics as nat, tax_cap as nat) {
                Some(t) => tax is Some && tax->0 == t,
                None => tax is None,
            },
    {
        if !self.is_taxed() {
            return Some(0);
        }
        let amount = self.amount;
        proof {
            let one = DECIMAL_FRACTIONAL as nat;
            let r = tax_rate.atomics as nat;
            vstd::arithmetic::div_mod::lemma_div_multiples_vanish(r as int, one as int);
            assert(one * r == r * one) by (nonlinear_arith);
        }
        let rate = tax_rate.mul_floor(DECIMAL_FRACTIONAL)?;
        let with_tax = rate.checked_add(DECIMAL_FRACTIONAL)?;
        proof {
            let one = DECIMAL_FRACTIONAL as nat;
            let a = amount as nat;
            let w = with_tax as nat;
            assert(a * one / w <= a) by (nonlinear_arith)
                requires
                    one <= w,
                    one > 0,
            ;
        }
        let before_tax = multiply_ratio(amount, DECIMAL_FRACTIONAL, with_tax)?;
        let tax = amount.checked_sub(before_tax)?;
        if tax < tax_cap {
            Some(tax)
        } else {
            Some(tax_cap)
        }
    }

    /// The tax on a transfer of the asset.
    pub open spec fn tax(&self, rate_atomics: nat, cap: nat) -> Option<nat> {
        if self.info is NativeToken && self.info.name() != "uluna"@ {
            tax_on(self.amount as nat, rate_atomics, cap)
        } else {
            Some(0nat)
        }
    }

    /// The coin that is left of a native asset after the tax on its
    /// transfer. A token is not taxed this way (`TaxOnToken`); a tax that
    /// cannot be computed or exceeds the amount is an `Overflow`.
    pub open spec fn after_tax(&self, rate_atomics: nat, cap: nat) -> Result<u128, ContractError> {
        if self.info is Token {
            Err(ContractError::TaxOnToken)
        } else {
            match self.tax(rate_atomics, cap) {
                None => Err(ContractError::Overflow),
                Some(tax) => if tax > self.amount {
                    Err(ContractError::Overflow)
                } else {
                    Ok((self.amount - tax) as u128)
                },
            }
        }
    }

    /// The amount that is left of a native asset after the tax on its
    /// transfer.
    pub fn deduct_tax(
        &self,
        tax_rate: Decimal,
        tax_cap: u128,
    ) -> (left: Result<u128, ContractError>)
        ensures
            left == self.after_tax(tax_rate.atomics as nat, tax_cap as nat),
    {
        if !self.info.is_native_token() {
            return Err(ContractError::TaxOnToken);
        }
        let tax = match self.compute_tax(tax_rate, tax_cap) {
            Some(tax) => tax,
            None => { return Err(ContractError::Overflow); },
        };
        match self.amount.checked_sub(tax) {
            Some(left) => Ok(left),
            None => Err(ContractError::Overflow),
        }
    }

    /// Whether the coins sent with a message are what the asset says: for a
    /// native asset the first coin of its denomination has to be of its
    /// amount, and without such a coin the amount has to be zero. A token is
    /// not sent as coins and passes.
    pub open spec fn balance_sent(&self, funds: Seq<Coin>) -> bool {
        match self.info {
            AssetInfo::NativeToken { denom } => match sent_amount(funds, denom@) {
                Some(amount) => self.amount == amount,
                None => self.amount == 0,
            },
            AssetInfo::Token { .. } => true,
        }
    }

    /// Checks that the coins sent with a message are what the asset says
    /// (`BalanceMismatch` if not).
    pub fn assert_sent_native_token_balance(
        &self,
        funds: &Vec<Coin>,
    ) -> (result: Result<(), ContractError>)
        ensures
            result == (if self.balance_sent(funds@) {
                Ok::<(), ContractError>(())
            } else {
                Err::<(), ContractError>(ContractError::BalanceMismatch)
            }),
    {
        match &self.info {
            AssetInfo::NativeToken { denom } => {
                let mut i: usize = 0;
                proof {
                    assert(funds@.skip(0) =~= funds@);
                }
                while i < funds.len()
                    invariant
                        i <= funds@.len(),
                        self.info == (AssetInfo::NativeToken { denom: *denom }),
                        sent_amount(funds@, denom@) == sent_amount(funds@.skip(i as int), denom@),
                    decreases funds@.len() - i,
                {
                    proof {
                        assert(funds@.skip(i as int).drop_first() =~= funds@.skip(i + 1));
                    }
                    if funds[i].denom == *denom {
                        return if self.amount == funds[i].amount {
                            Ok(())
                        } else {
                            Err(ContractError::BalanceMismatch)
                        };
                    }
                    i += 1;
                }
                if self.amount == 0 {
                    Ok(())
                } else {
                    Err(ContractError::BalanceMismatch)
                }
            },
            AssetInfo::Token { .. } => Ok(()),
        }
    }
}

/// Which of the pool's two assets `info` is, if either: the first of the two
/// that equals it.
pub open spec fn token_of(info: AssetInfo, asset_infos: Seq<AssetInfo>) -> Option<TokenNumber> {
    if same_asset(info, asset_infos[0]) {
        Some(TokenNumber::Token0)
    } else if same_asset(info, asset_infos[1]) {
        Some(TokenNumber::Token1)
    } else {
        None
    }
}

/// Whether two assets are of the same kind and name.
pub open spec fn same_asset(a: AssetInfo, b: AssetInfo) -> bool {
    (a is Token <==> b is Token) && a.name() == b.name()
}

/// Which of the pool's two assets `info` is (`AssetMismatch` if neither).
pub fn token_number_of(
    info: &AssetInfo,
    asset_infos: &[AssetInfo; 2],
) -> (result: Result<TokenNumber, ContractError>)
    ensures
        match token_of(*info, asset_infos@) {
            Some(token) => result == Ok::<TokenNumber, ContractError>(token),
            None => result == Err::<TokenNumber, ContractError>(ContractError::AssetMismatch),
        },
{
    if info.equal(&asset_infos[0]) {
        Ok(TokenNumber::Token0)
    } else if info.equal(&asset_infos[1]) {
        Ok(TokenNumber::Token1)
    } else {
        Err(ContractError::AssetMismatch)
    }
}

/// The amount of the first of two assets that is the pool's asset `wanted`.
pub open spec fn amount_of(assets: Seq<Asset>, wanted: AssetInfo) -> Option<u128> {
    if same_asset(assets[0].info, wanted) {
        Some(assets[0].amount)
    } else if same_asset(assets[1].info, wanted) {
        Some(assets[1].amount)
    } else {
        None
    }
}

/// The amounts of the pool's token 0 and token 1 among the two assets of a
/// deposit, whatever their order; `None` where one of the pool's assets is
/// not among them.
pub fn token_amounts_of(
    assets: &[Asset; 2],
    asset_infos: &[AssetInfo; 2],
) -> (amounts: Option<(u128, u128)>)
    ensures
        match (amount_of(assets@, asset_infos[0]), amount_of(assets@, asset_infos[1]), amounts) {
            (Some(amount0), Some(amount1), Some((given0, given1))) => given0 == amount0 && given1 == amount1,
            (Some(_), Some(_), None) => false,
            (_, _, given) => given is None,
        },
{
    let amount0 = if assets[0].info.equal(&asset_infos[0]) {
        assets[0].amount
    } else if assets[1].info.equal(&asset_infos[0]) {
        assets[1].amount
    } else {
        return None;
    };
    let amount1 = if assets[0].info.equal(&asset_infos[1]) {
        assets[0].amount
    } else if assets[1].info.equal(&asset_infos[1]) {
        assets[1].amount
    } else {
        return None;
    };
    Some((amount0, amount1))
}

} // verus!
