//! Keys under which a factory files its pairs.

use vstd::prelude::*;
use vstd::utf8::encode_utf8;
use crate::asset::AssetInfo;
use crate::decimal::{Decimal, DECIMAL_FRACTIONAL};
use crate::error::ContractError;
use crate::new_int_key::bytes_before;

verus! {

/// The two assets of a pair with the name of the pair's type.
#[derive(Clone, Debug, PartialEq, Eq)]
pub struct AssetInfosWithType {
    /// The two assets.
    pub asset_infos: [AssetInfo; 2],
    /// The name of the pair type.
    pub pair_type: String,
}

/// The names of two assets, the one that comes first byte by byte in front.
/// Equal names keep their order.
pub open spec fn ordered_names(first: Seq<u8>, second: Seq<u8>) -> Seq<u8> {
    if bytes_before(second, first) {
        second + first
    } else {
        first + second
    }
}

/// Checks a new type of pair: its fee rate must not exceed one
/// (`InvalidFeeRate`) and its bucket width must not be zero
/// (`InvalidTickSpace`).
pub fn check_pair_type(tick_space: u16, fee_rate: Decimal) -> (result: Result<(), ContractError>)
    ensures
        result == (if fee_rate.atomics > DECIMAL_FRACTIONAL {
            Err::<(), ContractError>(ContractError::InvalidFeeRate)
        } else if tick_space == 0 {
            Err::<(), ContractError>(ContractError::InvalidTickSpace)
        } else {
            Ok::<(), ContractError>(())
        }),
{
    if fee_rate.atomics > DECIMAL_FRACTIONAL {
        return Err(ContractError::InvalidFeeRate);
    }
    if tick_space == 0 {
        return Err(ContractError::InvalidTickSpace);
    }
    Ok(())
}

/// Whether `a` comes before `b` byte by byte.
fn comes_before(a: &[u8], b: &[u8]) -> (before: bool)
    ensures
        before == bytes_before(a@, b@),
{
    let mut i: usize = 0;
    proof {
        assert(a@.skip(0) =~= a@);
        assert(b@.skip(0) =~= b@);
    }
    while i < a.len() && i < b.len()
        invariant
            i <= a@.len(),
            i <= b@.len(),
            bytes_before(a@, b@) == bytes_before(a@.skip(i as int), b@.skip(i as int)),
        decreases a@.len() - i,
    {
        proof {
            assert(a@.skip(i as int).drop_first() =~= a@.skip(i + 1));
            assert(b@.skip(i as int).drop_first() =~= b@.skip(i + 1));
        }
        if a[i] != b[i] {
            return a[i] < b[i];
        }
        i += 1;
    }
    i < b.len()
}

/// The bytes of two byte strings, one after the other.
fn joined(first: &[u8], second: &[u8]) -> (bytes: Vec<u8>)
    ensures
        bytes@ == first@ + second@,
{
    let mut bytes: Vec<u8> = Vec::new();
    bytes.extend_from_slice(first);
    bytes.extend_from_slice(second);
    proof {
        assert(bytes@ =~= first@ + second@);
    }
    bytes
}

/// The key of two assets whatever their order: their names, the one that
/// comes first byte by byte in front.
pub fn asset_infos_key(asset_infos: &[AssetInfo; 2]) -> (key: Vec<u8>)
    ensures
        key@ == ordered_names(asset_infos[0].bytes(), asset_infos[1].bytes()),
{
    let first = asset_infos[0].as_bytes();
    let second = asset_infos[1].as_bytes();
    if comes_before(second, first) {
        joined(second, first)
    } else {
        joined(first, second)
    }
}

/// The key of a pair: the key of its two assets, then the name of its type.
pub fn pair_key(asset_infos: &[AssetInfo; 2], pair_type: String) -> (key: Vec<u8>)
    ensures
        key@ == ordered_names(asset_infos[0].bytes(), asset_infos[1].bytes()) + encode_utf8(pair_type@),
{
    let mut key = asset_infos_key(asset_infos);
    key.extend_from_slice(pair_type.as_str().as_bytes());
    key
}

/// The key of two assets does not depend on their order, unless their names
/// are equal, when it holds the same name twice either way.
pub proof fn lemma_ordered_names_symmetric(first: Seq<u8>, second: Seq<u8>)
    ensures
        ordered_names(first, second) == ordered_names(second, first),
{
    lemma_bytes_before_total(first, second);
}

/// Of two different byte strings exactly one comes before the other, and no
/// byte string comes before itself.
pub proof fn lemma_bytes_before_total(a: Seq<u8>, b: Seq<u8>)
    ensures
        a == b ==> !bytes_before(a, b),
        a != b ==> (bytes_before(a, b) <==> !bytes_before(b, a)),
    decreases a.len(),
{
    if a.len() > 0 && b.len() > 0 {
        lemma_bytes_before_total(a.drop_first(), b.drop_first());
        if a[0] == b[0] && a.drop_first() == b.drop_first() {
            assert(a =~= seq![a[0]] + a.drop_first());
            assert(b =~= seq![b[0]] + b.drop_first());
        }
    } else if a.len() == 0 && b.len() == 0 {
        assert(a =~= b);
    }
}

} // verus!
