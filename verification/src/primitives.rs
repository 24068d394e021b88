//! Fixed-size Ethereum values as plain data, and the few operations of
//! `ethereum-types` and `hex` that the tracer needs on them.

use vstd::prelude::*;

verus! {

/// A 160-bit account address, big-endian bytes.
#[derive(Clone, Copy, Debug, PartialEq, Eq)]
pub struct H160(pub [u8; 20]);

/// A 256-bit hash, big-endian bytes, ordered as its bytes.
#[derive(Clone, Copy, Debug, PartialEq, Eq, PartialOrd, Ord)]
pub struct H256(pub [u8; 32]);

/// A 256-bit unsigned integer as four little-endian 64-bit limbs.
#[derive(Clone, Copy, Debug, PartialEq, Eq)]
pub struct U256(pub [u64; 4]);

/// The lowercase hexadecimal digit for a nibble.
pub open spec fn hex_digit(n: int) -> char {
    seq!['0', '1', '2', '3', '4', '5', '6', '7', '8', '9', 'a', 'b', 'c', 'd', 'e', 'f'][n]
}

/// Two lowercase hexadecimal digits per byte, most significant nibble first.
pub open spec fn hex_lower(bytes: Seq<u8>) -> Seq<char>
    decreases bytes.len(),
{
    if bytes.len() == 0 {
        Seq::empty()
    } else {
        seq![hex_digit(bytes[0] as int / 16), hex_digit(bytes[0] as int % 16)] + hex_lower(bytes.drop_first())
    }
}

/// The characters `0x`.
pub open spec fn hex_prefix() -> Seq<char> {
    seq!['0', 'x']
}

/// `hex::encode`: the lowercase hexadecimal text of `bytes`, two digits per
/// byte, most significant nibble first, as the crate's `BytesToHexChars`
/// iterator produces it.
#[verifier::external_body]
pub(crate) fn encode_hex(bytes: &[u8]) -> (text: String)
    ensures
        text@ == hex_lower(bytes@),
{
    hex::encode(bytes)
}

/// `LowerHex` of `ethereum_types::H256` (`format!("{:x}", ..)`): without the
/// alternate flag `fixed-hash` writes each byte as `{:02x}`, with no prefix.
#[verifier::external_body]
pub(crate) fn h256_lower_hex(hash: H256) -> (text: String)
    ensures
        text@ == hex_lower(hash.0@),
{
    format!("{:x}", ethereum_types::H256(hash.0))
}

/// `ethereum_types::U256::low_u64`: `uint` returns the first (least
/// significant) limb.
#[verifier::external_body]
pub(crate) fn u256_low_u64(value: U256) -> (low: u64)
    ensures
        low == value.0[0],
{
    ethereum_types::U256(value.0).low_u64()
}

/// `From<u64> for ethereum_types::U256`: `uint` puts the value in the first
/// limb and zeroes the others.
#[verifier::external_body]
pub(crate) fn u256_from_u64(value: u64) -> (wide: U256)
    ensures
        wide.0@ == seq![value, 0u64, 0u64, 0u64],
{
    U256(ethereum_types::U256::from(value).0)
}

} // verus!
