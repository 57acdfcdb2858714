use hex_utils::{
    convert_decimal_to_32_byte_hex, convert_decimal_to_8_byte_hex,
    convert_decimal_to_hexadecimal, convert_hex_to_decimal, Error,
};

#[test]
fn width_formatting() {
    assert_eq!(convert_decimal_to_hexadecimal(255, false, Some(2)), Ok("00ff".to_string()));
    assert_eq!(convert_decimal_to_hexadecimal(255, false, None), Ok("ff".to_string()));
    assert_eq!(convert_decimal_to_hexadecimal(255, true, Some(1)), Ok("0xff".to_string()));
}

#[test]
fn width_is_a_minimum() {
    assert_eq!(convert_decimal_to_hexadecimal(0x1234, false, Some(1)), Ok("1234".to_string()));
    assert_eq!(
        convert_decimal_to_hexadecimal(u64::MAX, true, Some(8)),
        Ok("0xffffffffffffffff".to_string())
    );
    assert_eq!(convert_decimal_to_hexadecimal(0, false, None), Ok("0".to_string()));
    assert_eq!(
        convert_decimal_to_hexadecimal(1, false, Some(8)),
        Ok("0000000000000001".to_string())
    );
}

#[test]
fn width_outside_range_is_refused() {
    assert_eq!(convert_decimal_to_hexadecimal(1, false, Some(0)), Err(Error::InvalidWidth));
    assert_eq!(convert_decimal_to_hexadecimal(1, true, Some(9)), Err(Error::InvalidWidth));
}

#[test]
fn fixed_width_helpers() {
    assert_eq!(convert_decimal_to_32_byte_hex(255), "000000ff");
    assert_eq!(convert_decimal_to_32_byte_hex(u32::MAX), "ffffffff");
    assert_eq!(convert_decimal_to_8_byte_hex(10), "0a");
    assert_eq!(convert_decimal_to_8_byte_hex(171), "ab");
}

#[test]
fn hex_to_decimal_values() {
    assert_eq!(convert_hex_to_decimal("ff"), Ok(255));
    assert_eq!(convert_hex_to_decimal("FF"), Ok(255));
    assert_eq!(convert_hex_to_decimal("-ff"), Ok(-255));
    assert_eq!(convert_hex_to_decimal("+10"), Ok(16));
    assert_eq!(convert_hex_to_decimal("7fffffffffffffff"), Ok(i64::MAX));
    assert_eq!(convert_hex_to_decimal("-8000000000000000"), Ok(i64::MIN));
}

#[test]
fn hex_to_decimal_errors() {
    assert_eq!(convert_hex_to_decimal("8000000000000000"), Err(Error::OutOfRange));
    assert_eq!(convert_hex_to_decimal("-8000000000000001"), Err(Error::OutOfRange));
    assert_eq!(convert_hex_to_decimal(""), Err(Error::InvalidDigit));
    assert_eq!(convert_hex_to_decimal("-"), Err(Error::InvalidDigit));
    assert_eq!(convert_hex_to_decimal("12g"), Err(Error::InvalidDigit));
}
