//! The text forms in which trace fields are serialized: bytes as `0x`-prefixed
//! hexadecimal, opcodes and revert reasons as UTF-8 text, 256-bit words as
//! hexadecimal or as their low 64 bits.

use vstd::prelude::*;
use vstd::string::{StringExecFns, StringSliceAdditionalSpecFns};
use vstd::utf8::{decode_utf8, encode_utf8_decode_utf8, valid_utf8};

use crate::primitives::{
    encode_hex, h256_lower_hex, hex_lower, hex_prefix, u256_low_u64, H256, U256,
};

verus! {

/// Why a field could not be serialized.
#[derive(Clone, Copy, Debug, PartialEq, Eq, Structural)]
pub enum SerializeError {
    /// The opcode bytes are not UTF-8.
    Opcode,
    /// The bytes are missing or are not UTF-8.
    String,
}

impl SerializeError {
    /// The message reported to the serializer.
    pub fn message(&self) -> (m: &'static str)
        ensures
            *self == SerializeError::Opcode ==> m@ == "Opcode serialize error."@,
            *self == SerializeError::String ==> m@ == "String serialize error."@,
    {
        match self {
            SerializeError::Opcode => "Opcode serialize error.",
            SerializeError::String => "String serialize error.",
        }
    }
}

/// The text of the uppercase form of `text`, as `str::to_uppercase`
/// computes it (Unicode case mapping).
pub uninterp spec fn spec_to_uppercase(text: Seq<char>) -> Seq<char>;

/// `std::str::from_utf8`: succeeds exactly on valid UTF-8 and then returns
/// the text whose encoding is the input.
#[verifier::external_body]
fn utf8_text(bytes: &[u8]) -> (text: Option<&str>)
    ensures
        text is Some <==> valid_utf8(bytes@),
        text matches Some(t) ==> t.spec_bytes() == bytes@,
{
    std::str::from_utf8(bytes).ok()
}

/// `str::to_uppercase`; its result depends on the text alone.
#[verifier::external_body]
fn to_uppercase(text: &str) -> (upper: String)
    ensures
        upper@ == spec_to_uppercase(text@),
{
    text.to_uppercase()
}

/// The text that valid UTF-8 bytes encode.
fn decode_text(bytes: &[u8]) -> (text: Option<&str>)
    ensures
        text is Some <==> valid_utf8(bytes@),
        text matches Some(t) ==> t@ == decode_utf8(bytes@),
{
    let text = utf8_text(bytes);
    proof {
        if let Some(t) = text {
            encode_utf8_decode_utf8(t@);
        }
    }
    text
}

/// `0x` followed by the lowercase hexadecimal digits of the bytes.
fn hex_0x(bytes: &[u8]) -> (text: String)
    ensures
        text@ == hex_prefix() + hex_lower(bytes@),
{
    let digits = encode_hex(bytes);
    let mut text = "0x".to_owned();
    proof {
        reveal_strlit("0x");
    }
    text.append(digits.as_str());
    text
}

/// A sequence of hashes as lowercase hexadecimal strings without prefix; an
/// absent sequence as an empty one.
pub fn serialize_seq_h256(data: &Option<Vec<H256>>) -> (texts: Vec<String>)
    ensures
        data is None ==> texts@.len() == 0,
        data matches Some(v) ==> texts@.len() == v@.len() && forall|i: int|
            0 <= i < v@.len() ==> (#[trigger] texts@[i])@ == hex_lower(v@[i].0@),
{
    let mut texts: Vec<String> = Vec::new();
    match data {
        Some(vec) => {
            let mut i: usize = 0;
            while i < vec.len()
                invariant
                    i <= vec@.len(),
                    texts@.len() == i,
                    forall|j: int| 0 <= j < i ==> (#[trigger] texts@[j])@ == hex_lower(vec@[j].0@),
                decreases vec@.len() - i,
            {
                texts.push(h256_lower_hex(vec[i]));
                i = i + 1;
            }
        },
        None => {},
    }
    texts
}

/// Bytes as a `0x`-prefixed lowercase hexadecimal string.
pub fn serialize_bytes_0x(bytes: &[u8]) -> (text: String)
    ensures
        text@ == hex_prefix() + hex_lower(bytes@),
{
    hex_0x(bytes)
}

/// Present bytes as a `0x`-prefixed lowercase hexadecimal string; absent
/// bytes are an error.
pub fn serialize_option_bytes_0x(bytes: &Option<Vec<u8>>) -> (r: Result<String, SerializeError>)
    ensures
        bytes is None ==> r == Err::<String, SerializeError>(SerializeError::String),
        bytes matches Some(b) ==> (r matches Ok(text) && text@ == hex_prefix() + hex_lower(b@)),
{
    match bytes {
        Some(bytes) => Ok(hex_0x(bytes.as_slice())),
        None => Err(SerializeError::String),
    }
}

/// An opcode's bytes as uppercase text; bytes that are not UTF-8 are an
/// error.
pub fn serialize_opcode(opcode: &[u8]) -> (r: Result<String, SerializeError>)
    ensures
        !valid_utf8(opcode@) ==> r == Err::<String, SerializeError>(SerializeError::Opcode),
        valid_utf8(opcode@) ==> (r matches Ok(text) && text@ == spec_to_uppercase(
            decode_utf8(opcode@),
        )),
{
    match decode_text(opcode) {
        Some(text) => Ok(to_uppercase(text)),
        None => Err(SerializeError::Opcode),
    }
}

/// Bytes as UTF-8 text; bytes that are not UTF-8 are an error.
pub fn serialize_string(value: &[u8]) -> (r: Result<String, SerializeError>)
    ensures
        !valid_utf8(value@) ==> r == Err::<String, SerializeError>(SerializeError::String),
        valid_utf8(value@) ==> (r matches Ok(text) && text@ == decode_utf8(value@)),
{
    match decode_text(value) {
        Some(text) => Ok(text.to_owned()),
        None => Err(SerializeError::String),
    }
}

/// Present bytes as UTF-8 text; absent bytes, or bytes that are not UTF-8,
/// are an error.
pub fn serialize_option_string(value: &Option<Vec<u8>>) -> (r: Result<String, SerializeError>)
    ensures
        value is None ==> r == Err::<String, SerializeError>(SerializeError::String),
        value matches Some(v) ==> (!valid_utf8(v@) ==> r == Err::<String, SerializeError>(
            SerializeError::String,
        )),
        value matches Some(v) ==> (valid_utf8(v@) ==> (r matches Ok(text) && text@ == decode_utf8(
            v@,
        ))),
{
    match value {
        Some(value) => serialize_string(value.as_slice()),
        None => Err(SerializeError::String),
    }
}

/// A 256-bit word as its low 64 bits.
pub fn serialize_u256(data: &U256) -> (low: u64)
    ensures
        low == data.0[0],
{
    u256_low_u64(*data)
}

/// A hash as a lowercase hexadecimal string without prefix.
pub fn serialize_h256(data: &H256) -> (text: String)
    ensures
        text@ == hex_lower(data.0@),
{
    h256_lower_hex(*data)
}

/// A hash as a `0x`-prefixed lowercase hexadecimal string.
pub fn serialize_h256_0x(data: &H256) -> (text: String)
    ensures
        text@ == hex_prefix() + hex_lower(data.0@),
{
    let digits = h256_lower_hex(*data);
    let mut text = "0x".to_owned();
    proof {
        reveal_strlit("0x");
    }
    text.append(digits.as_str());
    text
}

} // verus!
