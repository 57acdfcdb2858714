use hex_utils::{decode_hex, get_text_for_hex};

#[test]
fn it_works() {
    let hex = "30784e6f6e63652077617320666f756e646564".to_string();
    let expected_text = "0xNonce was founded".to_string();
    let maybe_text = get_text_for_hex(&hex);
    let text = match maybe_text {
        Ok(text) => text.to_string(),
        Err(_) => "wrong".to_string(),
    };
    assert_eq!(text, expected_text);
}

#[test]
fn decode_hex_test() {
    let hex = "d473a59";
    let _decoded = decode_hex(hex);
}
