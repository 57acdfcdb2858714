use hex_utils::{byte_to_char, convert_hex_to_ascii, convert_hex_utf8, get_text_for_hex, Error};

#[test]
fn utf8_path_is_taken_when_valid() {
    let hex = "c3a9".to_string();
    assert_eq!(convert_hex_utf8(&hex), Ok("é".to_string()));
    assert_eq!(get_text_for_hex(&hex), Ok("é".to_string()));
    assert_eq!(convert_hex_to_ascii(&hex), Ok("\u{c3}\u{a9}".to_string()));
}

#[test]
fn fallback_reads_one_character_per_byte() {
    let hex = "41ff".to_string();
    assert_eq!(convert_hex_utf8(&hex), Err(Error::Utf8Invalid));
    assert_eq!(get_text_for_hex(&hex), Ok("A\u{ff}".to_string()));
}

#[test]
fn text_of_malformed_hex_is_invalid_digit() {
    let hex = "4q".to_string();
    assert_eq!(convert_hex_utf8(&hex), Err(Error::InvalidDigit));
    assert_eq!(convert_hex_to_ascii(&hex), Err(Error::InvalidDigit));
    assert_eq!(get_text_for_hex(&hex), Err(Error::InvalidDigit));
}

#[test]
fn empty_hex_is_empty_text() {
    assert_eq!(get_text_for_hex(&String::new()), Ok(String::new()));
}

#[test]
fn every_byte_maps_to_its_own_scalar_value() {
    for v in 0..=255u8 {
        assert_eq!(byte_to_char(v), Ok(char::from_u32(v as u32).unwrap()));
    }
}
