//! Storage keys for signed tick indexes.
//!
//! A key is the four bytes, most significant first, of the index moved up by
//! `2^31`. Moved so, the keys of two indexes compare byte by byte as the
//! indexes compare as numbers, negative ones included.

use vstd::prelude::*;

verus! {

/// The offset that moves every `i32` into the unsigned range: `2^31`.
pub open spec fn key_bias() -> int {
    0x8000_0000
}

/// The four key bytes of `val`.
pub open spec fn key_bytes(val: int) -> Seq<u8> {
    let moved = val + key_bias();
    seq![
        ((moved / 0x100_0000) % 0x100) as u8,
        ((moved / 0x1_0000) % 0x100) as u8,
        ((moved / 0x100) % 0x100) as u8,
        (moved % 0x100) as u8,
    ]
}

/// The index that four key bytes stand for.
pub open spec fn key_value(bytes: Seq<u8>) -> int {
    bytes[0] * 0x100_0000 + bytes[1] * 0x1_0000 + bytes[2] * 0x100 + bytes[3] - key_bias()
}

/// Whether `a` comes before `b` when both are compared byte by byte.
pub open spec fn bytes_before(a: Seq<u8>, b: Seq<u8>) -> bool
    decreases a.len(),
{
    if b.len() == 0 {
        false
    } else if a.len() == 0 {
        true
    } else if a[0] != b[0] {
        a[0] < b[0]
    } else {
        bytes_before(a.drop_first(), b.drop_first())
    }
}

/// A storage key for an `i32`.
#[derive(Clone, Debug, PartialEq, Eq)]
pub struct NewInt32Key {
    /// The key bytes.
    pub wrapped: Vec<u8>,
}

/// The key bytes of `n`.
fn wrap_i32(n: i32) -> (bytes: Vec<u8>)
    ensures
        bytes@ == key_bytes(n as int),
{
    let moved: u32 = (n as i64 + 0x8000_0000) as u32;
    let mut bytes: Vec<u8> = Vec::new();
    bytes.push(((moved / 0x100_0000) % 0x100) as u8);
    bytes.push(((moved / 0x1_0000) % 0x100) as u8);
    bytes.push(((moved / 0x100) % 0x100) as u8);
    bytes.push((moved % 0x100) as u8);
    proof {
        assert(bytes@ =~= key_bytes(n as int));
    }
    bytes
}

/// The four bytes of a key as an array; `None` for any other length.
fn vec_to_array(v: &Vec<u8>) -> (array: Option<[u8; 4]>)
    ensures
        array is Some <==> v@.len() == 4,
        array is Some ==> array->0@ == v@,
{
    if v.len() == 4 {
        let array = [v[0], v[1], v[2], v[3]];
        proof {
            assert(array@ =~= v@);
        }
        Some(array)
    } else {
        None
    }
}

impl NewInt32Key {
    /// The key of `val`.
    pub fn new(val: i32) -> (key: NewInt32Key)
        ensures
            key.wrapped@ == key_bytes(val as int),
    {
        NewInt32Key { wrapped: wrap_i32(val) }
    }

    /// The key with the given bytes.
    pub fn from_bytes(wrapped: Vec<u8>) -> (key: NewInt32Key)
        ensures
            key.wrapped == wrapped,
    {
        NewInt32Key { wrapped }
    }

    /// The index that the key stands for; `None` unless the key has four
    /// bytes.
    pub fn to_i32(&self) -> (val: Option<i32>)
        ensures
            val is Some <==> self.wrapped@.len() == 4,
            val is Some ==> val->0 == key_value(self.wrapped@),
    {
        let array = vec_to_array(&self.wrapped)?;
        let moved: i64 = (array[0] as i64) * 0x100_0000 + (array[1] as i64) * 0x1_0000 + (array[2] as i64)
            * 0x100 + array[3] as i64;
        Some((moved - 0x8000_0000) as i32)
    }
}

/// A key stands for the index it was made of.
pub proof fn lemma_key_round_trip(val: int)
    requires
        i32::MIN <= val <= i32::MAX,
    ensures
        key_value(key_bytes(val)) == val,
{
}

/// Keys compare byte by byte as their indexes compare as numbers.
pub proof fn lemma_key_order(a: int, b: int)
    requires
        i32::MIN <= a <= i32::MAX,
        i32::MIN <= b <= i32::MAX,
    ensures
        bytes_before(key_bytes(a), key_bytes(b)) <==> a < b,
{
    let x = key_bytes(a);
    let y = key_bytes(b);
    lemma_key_round_trip(a);
    lemma_key_round_trip(b);
    reveal_with_fuel(bytes_before, 5);
    assert(x.drop_first() =~= seq![x[1], x[2], x[3]]);
    assert(y.drop_first() =~= seq![y[1], y[2], y[3]]);
    assert(x.drop_first().drop_first() =~= seq![x[2], x[3]]);
    assert(y.drop_first().drop_first() =~= seq![y[2], y[3]]);
    assert(x.drop_first().drop_first().drop_first() =~= seq![x[3]]);
    assert(y.drop_first().drop_first().drop_first() =~= seq![y[3]]);
    assert(x.drop_first().drop_first().drop_first().drop_first() =~= Seq::<u8>::empty());
    assert(y.drop_first().drop_first().drop_first().drop_first() =~= Seq::<u8>::empty());
}

} // verus!
