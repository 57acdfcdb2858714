use vstd::prelude::*;

use crate::error::Error;
use crate::hex::{decode_hex, decoded, hex_digit, is_hex, push_char};
use vstd::utf8::{
    char_u32_cast, decode_utf8, encode_utf8, encode_utf8_decode_utf8, is_scalar, valid_utf8,
};

verus! {

/// Bytes read as text one character per byte, the character's scalar value
/// being the byte's value.
pub open spec fn byte_chars(b: Seq<u8>) -> Seq<char> {
    Seq::new(b.len(), |i: int| (b[i] as u32) as char)
}

/// The text that a hex string stands for: its bytes read as UTF-8 where they
/// are valid UTF-8, else one character per byte.
pub open spec fn text_of(b: Seq<u8>) -> Seq<char> {
    if valid_utf8(b) {
        decode_utf8(b)
    } else {
        byte_chars(b)
    }
}

/// The upper-case hex digit of a value in `0..16`.
pub open spec fn upper_digit(d: int) -> char {
    if d < 10 {
        if d == 0 { '0' } else if d == 1 { '1' } else if d == 2 { '2' } else if d == 3 { '3' }
        else if d == 4 { '4' } else if d == 5 { '5' } else if d == 6 { '6' } else if d == 7 { '7' }
        else if d == 8 { '8' } else { '9' }
    } else {
        if d == 10 { 'A' } else if d == 11 { 'B' } else if d == 12 { 'C' } else if d == 13 { 'D' }
        else if d == 14 { 'E' } else { 'F' }
    }
}

/// Relies on `String::from_utf8`: it succeeds exactly on valid UTF-8, and the
/// string it gives holds those bytes.
#[verifier::external_body]
fn utf8_string(bytes: Vec<u8>) -> (r: Option<String>)
    ensures
        r is Some <==> valid_utf8(bytes@),
        r is Some ==> encode_utf8(r->0@) == bytes@,
{
    String::from_utf8(bytes).ok()
}

/// Relies on `char::from_u32`: it gives the character of a Unicode scalar
/// value, and nothing for any other number.
#[verifier::external_body]
fn char_from_u32(v: u32) -> (r: Option<char>)
    ensures
        r is Some <==> is_scalar(v),
        r is Some ==> r->0 as u32 == v,
{
    char::from_u32(v)
}

/// The upper-case hex digit of `d`.
pub(crate) fn upper_digit_char(d: u8) -> (c: char)
    requires
        d < 16,
    ensures
        c == upper_digit(d as int),
{
    if d < 10 {
        if d == 0 { '0' } else if d == 1 { '1' } else if d == 2 { '2' } else if d == 3 { '3' }
        else if d == 4 { '4' } else if d == 5 { '5' } else if d == 6 { '6' } else if d == 7 { '7' }
        else if d == 8 { '8' } else { '9' }
    } else {
        if d == 10 { 'A' } else if d == 11 { 'B' } else if d == 12 { 'C' } else if d == 13 { 'D' }
        else if d == 14 { 'E' } else { 'F' }
    }
}

/// The ASCII byte of an upper-case hex digit.
fn upper_digit_byte(d: u8) -> (b: u8)
    requires
        d < 16,
    ensures
        b == upper_digit(d as int) as u8,
        upper_digit(d as int) <= '\u{7f}',
{
    if d < 10 {
        d + 48
    } else {
        d + 55
    }
}

/// Reads a byte back as a character by way of its two upper-case hex digits:
/// the digits are written out, read again as a number, and that number is
/// taken as a Unicode scalar value. The character is always the one whose
/// scalar value equals the byte.
pub fn byte_to_char(byte: u8) -> (r: Result<char, Error>)
    ensures
        r is Ok,
        r->Ok_0 as u32 == byte as u32,
        r->Ok_0 == (byte as u32) as char,
{
    let hi_digit = upper_digit_char(byte / 16);
    let lo_digit = upper_digit_char(byte % 16);
    let hi = match hex_digit(upper_digit_byte(byte / 16), Ghost(hi_digit)) {
        Some(v) => v,
        None => return Err(Error::InvalidDigit),
    };
    let lo = match hex_digit(upper_digit_byte(byte % 16), Ghost(lo_digit)) {
        Some(v) => v,
        None => return Err(Error::InvalidDigit),
    };
    let value: u32 = hi as u32 * 16 + lo as u32;
    assert(value == byte as u32);
    match char_from_u32(value) {
        Some(c) => {
            proof {
                char_u32_cast(c, value);
            }
            Ok(c)
        },
        None => Err(Error::Unrepresentable),
    }
}

/// Decodes a hex string and reads its bytes as UTF-8.
pub fn convert_hex_utf8(hex: &String) -> (r: Result<String, Error>)
    ensures
        match r {
            Ok(t) => is_hex(hex@) && valid_utf8(decoded(hex@)) && t@ == decode_utf8(decoded(hex@)),
            Err(e) => if is_hex(hex@) {
                !valid_utf8(decoded(hex@)) && e == Error::Utf8Invalid
            } else {
                e == Error::InvalidDigit
            },
        },
{
    let bytes = decode_hex(hex.as_str())?;
    match utf8_string(bytes) {
        Some(t) => {
            proof {
                encode_utf8_decode_utf8(t@);
            }
            Ok(t)
        },
        None => Err(Error::Utf8Invalid),
    }
}

/// Decodes a hex string and reads each byte as the character whose scalar
/// value is that byte, by way of [`byte_to_char`].
pub fn convert_hex_to_ascii(hex: &String) -> (r: Result<String, Error>)
    ensures
        match r {
            Ok(t) => is_hex(hex@) && t@ == byte_chars(decoded(hex@)),
            Err(e) => !is_hex(hex@) && e == Error::InvalidDigit,
        },
{
    let bytes = decode_hex(hex.as_str())?;
    let mut text = String::new();
    let mut i: usize = 0;
    while i < bytes.len()
        invariant
            i <= bytes@.len(),
            bytes@ == decoded(hex@),
            text@ =~= byte_chars(bytes@).subrange(0, i as int),
        decreases bytes@.len() - i,
    {
        let c = match byte_to_char(bytes[i]) {
            Ok(c) => c,
            Err(e) => return Err(e),
        };
        push_char(&mut text, c);
        i = i + 1;
    }
    assert(text@ =~= byte_chars(bytes@));
    Ok(text)
}

/// Reads a hex string as text: as UTF-8 where its bytes are valid UTF-8,
/// and otherwise one character per byte.
pub fn get_text_for_hex(hex: &String) -> (r: Result<String, Error>)
    ensures
        match r {
            Ok(t) => is_hex(hex@) && t@ == text_of(decoded(hex@)),
            Err(e) => !is_hex(hex@) && e == Error::InvalidDigit,
        },
{
    match convert_hex_utf8(hex) {
        Ok(text) => Ok(text),
        Err(_) => convert_hex_to_ascii(hex),
    }
}

} // verus!
