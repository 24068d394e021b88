use evm_tracing::primitives::{H256, U256};
use evm_tracing::serializers::{
    serialize_bytes_0x, serialize_h256, serialize_h256_0x, serialize_opcode,
    serialize_option_bytes_0x, serialize_option_string, serialize_seq_h256, serialize_string,
    serialize_u256, SerializeError,
};

fn hash(last: u8) -> H256 {
    let mut bytes = [0u8; 32];
    bytes[0] = 0xab;
    bytes[31] = last;
    H256(bytes)
}

#[test]
fn bytes_are_0x_prefixed_lowercase_hex() {
    assert_eq!(serialize_bytes_0x(&[0xde, 0xad, 0x0b, 0xEF]), "0xdead0bef");
    assert_eq!(serialize_bytes_0x(&[]), "0x");
}

#[test]
fn optional_bytes_need_a_value() {
    assert_eq!(serialize_option_bytes_0x(&Some(vec![1, 0xff])), Ok("0x01ff".to_string()));
    assert_eq!(serialize_option_bytes_0x(&None), Err(SerializeError::String));
}

#[test]
fn opcodes_are_uppercased() {
    assert_eq!(serialize_opcode(b"call"), Ok("CALL".to_string()));
    assert_eq!(serialize_opcode(b"SELFDESTRUCT"), Ok("SELFDESTRUCT".to_string()));
    assert_eq!(serialize_opcode(&[0xff, 0xfe]), Err(SerializeError::Opcode));
}

#[test]
fn strings_must_be_utf8() {
    assert_eq!(serialize_string(b"out of gas"), Ok("out of gas".to_string()));
    assert_eq!(serialize_string(&[0xc3, 0xa9]), Ok("\u{e9}".to_string()));
    assert_eq!(serialize_string(&[0x80]), Err(SerializeError::String));
}

#[test]
fn optional_strings_need_a_utf8_value() {
    assert_eq!(serialize_option_string(&Some(b"revert".to_vec())), Ok("revert".to_string()));
    assert_eq!(serialize_option_string(&Some(vec![0xff])), Err(SerializeError::String));
    assert_eq!(serialize_option_string(&None), Err(SerializeError::String));
}

#[test]
fn error_messages() {
    assert_eq!(SerializeError::Opcode.message(), "Opcode serialize error.");
    assert_eq!(SerializeError::String.message(), "String serialize error.");
}

#[test]
fn words_keep_their_low_64_bits() {
    assert_eq!(serialize_u256(&U256([42, 7, 0, 9])), 42);
    assert_eq!(serialize_u256(&U256([u64::MAX, 0, 0, 0])), u64::MAX);
}

#[test]
fn hashes_are_lowercase_hex() {
    let h = hash(0x0c);
    let digits = format!("ab{}0c", "0".repeat(60));
    assert_eq!(serialize_h256(&h), digits);
    assert_eq!(serialize_h256_0x(&h), format!("0x{}", digits));
}

#[test]
fn hash_sequences_are_lists_of_hex() {
    let texts = serialize_seq_h256(&Some(vec![hash(1), hash(2)]));
    assert_eq!(texts.len(), 2);
    assert!(texts[0].ends_with("01") && texts[1].ends_with("02"));
    assert!(serialize_seq_h256(&None).is_empty());
}
