//! Conversions between hexadecimal strings, bytes, integers and text.
pub mod binary;
pub mod error;
pub mod format;
pub mod hex;
pub mod text;

pub use error::Error;
pub use hex::{convert_big_endian_hex_to_little_endian, decode_hex, encode_hex};
pub use text::{byte_to_char, convert_hex_to_ascii, convert_hex_utf8, get_text_for_hex};
pub use format::{
    convert_decimal_to_32_byte_hex, convert_decimal_to_8_byte_hex, convert_decimal_to_hexadecimal,
    convert_hex_to_decimal,
};
pub use binary::{binary_to_hex, convert_string_to_hex, get_hex_string_from_byte_array};
