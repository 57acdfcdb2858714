use hex_utils::{convert_big_endian_hex_to_little_endian, decode_hex, encode_hex, Error};

#[test]
fn decode_odd_length_is_padded() {
    assert_eq!(decode_hex("d473a59"), Ok(vec![0x0d, 0x47, 0x3a, 0x59]));
    assert_eq!(decode_hex("d473a59"), decode_hex("0d473a59"));
    assert_eq!(decode_hex("abc"), decode_hex("0abc"));
    assert_eq!(decode_hex("f"), Ok(vec![0x0f]));
}

#[test]
fn decode_accepts_both_cases_and_empty() {
    assert_eq!(decode_hex("DeAdBeEf"), Ok(vec![0xde, 0xad, 0xbe, 0xef]));
    assert_eq!(decode_hex(""), Ok(vec![]));
}

#[test]
fn decode_rejects_non_hex_characters() {
    assert_eq!(decode_hex("zz"), Err(Error::InvalidDigit));
    assert_eq!(decode_hex("+f"), Err(Error::InvalidDigit));
    assert_eq!(decode_hex("0g1"), Err(Error::InvalidDigit));
    assert_eq!(decode_hex("é0"), Err(Error::InvalidDigit));
}

#[test]
fn encode_writes_two_lower_case_digits_per_byte() {
    assert_eq!(encode_hex(&[0x0d, 0xff, 0x00, 0xa5]), "0dff00a5");
    assert_eq!(encode_hex(&[]), "");
}

#[test]
fn decode_of_encode_round_trips() {
    let bytes: Vec<u8> = (0..=255).collect();
    let hex = encode_hex(&bytes);
    assert_eq!(hex.len(), 512);
    assert_eq!(decode_hex(&hex), Ok(bytes));
}

#[test]
fn reverse_byte_order_scenario() {
    let reversed = convert_big_endian_hex_to_little_endian(&"0011ff".to_string());
    assert_eq!(reversed, Ok("ff1100".to_string()));
}

#[test]
fn reverse_byte_order_twice_is_identity() {
    let h = "0a1b2c3d4e5f".to_string();
    let once = convert_big_endian_hex_to_little_endian(&h).unwrap();
    assert_eq!(once, "5f4e3d2c1b0a");
    let twice = convert_big_endian_hex_to_little_endian(&once).unwrap();
    assert_eq!(twice, h);
}

#[test]
fn reverse_byte_order_normalizes_and_rejects() {
    assert_eq!(
        convert_big_endian_hex_to_little_endian(&"ABC".to_string()),
        Ok("bc0a".to_string())
    );
    assert_eq!(
        convert_big_endian_hex_to_little_endian(&"00x1".to_string()),
        Err(Error::InvalidDigit)
    );
}
