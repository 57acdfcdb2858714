use hex_utils::{binary_to_hex, convert_string_to_hex, get_hex_string_from_byte_array};

#[test]
fn binary_nibbles_to_hex_digits() {
    assert_eq!(binary_to_hex("0000"), Some("0"));
    assert_eq!(binary_to_hex("1010"), Some("A"));
    assert_eq!(binary_to_hex("0111"), Some("7"));
    assert_eq!(binary_to_hex("1111"), Some("F"));
}

#[test]
fn binary_to_hex_rejects_other_text() {
    assert_eq!(binary_to_hex("102"), None);
    assert_eq!(binary_to_hex("10101"), None);
    assert_eq!(binary_to_hex("1021"), None);
    assert_eq!(binary_to_hex(""), None);
}

#[test]
fn string_to_hex_uses_upper_case_digits() {
    assert_eq!(convert_string_to_hex(&"Hi".to_string()), "4869");
    assert_eq!(convert_string_to_hex(&"é?".to_string()), "C3A93F");
    assert_eq!(convert_string_to_hex(&String::new()), "");
}

#[test]
fn low_nibble_of_each_byte() {
    assert_eq!(get_hex_string_from_byte_array(&[0x1f, 0x20, 0xff, 0x0a]), "f0fa");
}
