use vstd::prelude::*;

use crate::error::Error;
use crate::hex::{
    hex_digit, hex_digit_value, is_hex, is_hex_digit, lower_digit, lower_digit_char, push_char,
};
use vstd::utf8::is_ascii_chars;

verus! {

/// The hex digits of `n` in lower case, without leading zeros (`"0"` for zero).
pub open spec fn hex_digits(n: nat) -> Seq<char>
    decreases n,
{
    if n < 16 {
        seq![lower_digit(n as int)]
    } else {
        hex_digits(n / 16).push(lower_digit((n % 16) as int))
    }
}

/// `s` with as many leading `'0'`s as bring it to `width` characters; a longer
/// `s` is left as it is.
pub open spec fn zero_padded(s: Seq<char>, width: nat) -> Seq<char> {
    if s.len() >= width {
        s
    } else {
        Seq::new((width - s.len()) as nat, |i: int| '0') + s
    }
}

/// The lower-case hex digits of `n`, zero-padded to at least `width` characters.
pub open spec fn hex_of(n: nat, width: nat) -> Seq<char> {
    zero_padded(hex_digits(n), width)
}

/// A byte width that integers can be formatted to: none, or one in `1..=8`.
pub open spec fn is_valid_width(bytes: Option<u8>) -> bool {
    match bytes {
        Some(b) => 1 <= b <= 8,
        None => true,
    }
}

/// An integer written in hex, at least two digits for each byte of `bytes`
/// where a width is given, after `"0x"` where `include_prefix` holds.
pub open spec fn formatted(n: u64, include_prefix: bool, bytes: Option<u8>) -> Seq<char> {
    let width: nat = match bytes {
        Some(b) => 2 * b as nat,
        None => 0,
    };
    if include_prefix {
        seq!['0', 'x'] + hex_of(n as nat, width)
    } else {
        hex_of(n as nat, width)
    }
}

/// The number that hex digits stand for, the first digit the most significant.
pub open spec fn hex_value(s: Seq<char>) -> nat
    decreases s.len(),
{
    if s.len() == 0 {
        0
    } else {
        (hex_value(s.drop_last()) * 16 + hex_digit_value(s.last())) as nat
    }
}

/// The number of sign characters (`'+'` or `'-'`) that a number's text starts with.
pub open spec fn sign_len(s: Seq<char>) -> int {
    if s.len() > 0 && (s[0] == '+' || s[0] == '-') {
        1
    } else {
        0
    }
}

/// The text of a number without its sign.
pub open spec fn unsigned_part(s: Seq<char>) -> Seq<char> {
    s.subrange(sign_len(s), s.len() as int)
}

/// The text of a number starts with `'-'`.
pub open spec fn is_negative(s: Seq<char>) -> bool {
    s.len() > 0 && s[0] == '-'
}

/// The largest magnitude that an `i64` holds with the given sign.
pub open spec fn magnitude_limit(negative: bool) -> nat {
    if negative {
        0x8000_0000_0000_0000
    } else {
        0x7fff_ffff_ffff_ffff
    }
}

/// Appends the lower-case hex digits of `value`, zero-padded to at least
/// `width` characters.
fn push_hex(s: &mut String, value: u64, width: usize)
    ensures
        final(s)@ == old(s)@ + hex_of(value as nat, width as nat),
{
    let mut v = value;
    let mut rev: Vec<char> = Vec::new();
    while v >= 16
        invariant
            hex_digits(value as nat) == hex_digits(v as nat) + rev@.reverse(),
        decreases v,
    {
        let ghost before = rev@;
        rev.push(lower_digit_char((v % 16) as u8));
        assert(rev@.reverse() =~= seq![lower_digit((v % 16) as int)] + before.reverse());
        v = v / 16;
    }
    let ghost before = rev@;
    rev.push(lower_digit_char(v as u8));
    assert(rev@.reverse() =~= seq![lower_digit(v as int)] + before.reverse());
    let ghost digits = rev@.reverse();
    assert(digits == hex_digits(value as nat));
    let ghost start = s@;
    let mut pad: usize = 0;
    if rev.len() < width {
        pad = width - rev.len();
    }
    let mut i: usize = 0;
    while i < pad
        invariant
            i <= pad,
            s@ =~= start + Seq::new(i as nat, |j: int| '0'),
        decreases pad - i,
    {
        push_char(s, '0');
        i = i + 1;
    }
    let ghost padded_start = s@;
    let mut k: usize = rev.len();
    while k > 0
        invariant
            k <= rev@.len(),
            digits == rev@.reverse(),
            s@ =~= padded_start + digits.subrange(0, rev@.len() - k),
        decreases k,
    {
        k = k - 1;
        push_char(s, rev[k]);
    }
    assert(digits.subrange(0, rev@.len() as int) =~= digits);
}

/// Writes an integer in hex: at least two digits for each byte of `bytes`
/// where a width is given, after `"0x"` where `include_prefix` holds. The
/// width is a minimum: a value with more digits is written out in full. A
/// width outside `1..=8` is refused.
pub fn convert_decimal_to_hexadecimal(
    decimal_num: u64,
    include_prefix: bool,
    bytes: Option<u8>,
) -> (r: Result<String, Error>)
    ensures
        match r {
            Ok(t) => is_valid_width(bytes) && t@ == formatted(decimal_num, include_prefix, bytes),
            Err(e) => !is_valid_width(bytes) && e == Error::InvalidWidth,
        },
{
    let width: usize = match bytes {
        Some(b) => {
            if b < 1 || b > 8 {
                return Err(Error::InvalidWidth);
            }
            2 * b as usize
        },
        None => 0,
    };
    let mut s = String::new();
    if include_prefix {
        push_char(&mut s, '0');
        push_char(&mut s, 'x');
    }
    push_hex(&mut s, decimal_num, width);
    Ok(s)
}

/// Writes a 32-bit integer as eight lower-case hex digits.
pub fn convert_decimal_to_32_byte_hex(num: u32) -> (r: String)
    ensures
        r@ == hex_of(num as nat, 8),
{
    let mut s = String::new();
    push_hex(&mut s, num as u64, 8);
    s
}

/// Writes a byte as two lower-case hex digits.
pub fn convert_decimal_to_8_byte_hex(num: u8) -> (r: String)
    ensures
        r@ == hex_of(num as nat, 2),
{
    let mut s = String::new();
    push_hex(&mut s, num as u64, 2);
    s
}

proof fn lemma_hex_value_grows(s: Seq<char>, c: char)
    requires
        is_hex_digit(c),
    ensures
        hex_value(s.push(c)) == hex_value(s) * 16 + hex_digit_value(c),
        hex_value(s.push(c)) >= hex_value(s),
{
    assert(s.push(c).drop_last() =~= s);
}

/// Reads a hex number into an `i64`: an optional `'+'` or `'-'`, then at least
/// one hex digit of either case. Text with no digit or a character outside the
/// hex alphabet is refused as `InvalidDigit`; a number beyond the range of
/// `i64` as `OutOfRange`.
pub fn convert_hex_to_decimal(hex: &str) -> (r: Result<i64, Error>)
    ensures
        match r {
            Ok(v) => unsigned_part(hex@).len() > 0 && is_hex(unsigned_part(hex@))
                && hex_value(unsigned_part(hex@)) <= magnitude_limit(is_negative(hex@))
                && v as int == if is_negative(hex@) {
                    -hex_value(unsigned_part(hex@))
                } else {
                    hex_value(unsigned_part(hex@)) as int
                },
            Err(e) => if unsigned_part(hex@).len() > 0 && is_hex(unsigned_part(hex@)) {
                hex_value(unsigned_part(hex@)) > magnitude_limit(is_negative(hex@))
                    && e == Error::OutOfRange
            } else {
                e == Error::InvalidDigit
            },
        },
{
    broadcast use vstd::string::group_string_axioms;

    let ghost digits = unsigned_part(hex@);
    if !hex.is_ascii() {
        proof {
            let i = choose|i: int| 0 <= i < hex@.len() && !('\0' <= #[trigger] hex@[i] <= '\u{7f}');
            assert(i >= sign_len(hex@));
            assert(digits[i - sign_len(hex@)] == hex@[i]);
        }
        return Err(Error::InvalidDigit);
    }
    let bytes = hex.as_bytes();
    let n = bytes.len();
    assert(bytes@ =~= Seq::new(hex@.len(), |i: int| hex@[i] as u8));
    let mut start: usize = 0;
    let mut negative = false;
    if n > 0 && (bytes[0] == 43 || bytes[0] == 45) {
        start = 1;
        negative = bytes[0] == 45;
    }
    assert(start == sign_len(hex@) && negative == is_negative(hex@));
    if start == n {
        return Err(Error::InvalidDigit);
    }
    let limit: u64 = if negative { 0x8000_0000_0000_0000 } else { 0x7fff_ffff_ffff_ffff };
    let mut magnitude: u64 = 0;
    let mut overflow = false;
    let mut i: usize = start;
    while i < n
        invariant
            n == hex@.len(),
            bytes@ == Seq::new(hex@.len(), |j: int| hex@[j] as u8),
            is_ascii_chars(hex@),
            start == sign_len(hex@),
            digits == unsigned_part(hex@),
            limit as nat == magnitude_limit(negative),
            start <= i <= n,
            is_hex(digits.subrange(0, i - start)),
            !overflow ==> magnitude as nat == hex_value(digits.subrange(0, i - start)),
            !overflow ==> magnitude <= limit,
            overflow ==> hex_value(digits.subrange(0, i - start)) > limit,
        decreases n - i,
    {
        let ghost prefix = digits.subrange(0, i - start);
        let ghost c = hex@[i as int];
        assert(digits[i - start] == c);
        assert(digits.subrange(0, i + 1 - start) =~= prefix.push(c));
        let d = match hex_digit(bytes[i], Ghost(c)) {
            Some(d) => d,
            None => {
                assert(!is_hex(digits));
                return Err(Error::InvalidDigit);
            },
        };
        proof {
            lemma_hex_value_grows(prefix, c);
        }
        if !overflow {
            if magnitude > (limit - d as u64) / 16 {
                overflow = true;
            } else {
                assert(magnitude * 16 + d as u64 <= limit) by (nonlinear_arith)
                    requires
                        magnitude <= (limit - d as u64) / 16,
                        d < 16,
                        limit >= 16,
                ;
                magnitude = magnitude * 16 + d as u64;
            }
        }
        i = i + 1;
    }
    assert(digits.subrange(0, n - start) =~= digits);
    if overflow {
        return Err(Error::OutOfRange);
    }
    if negative {
        if magnitude == 0x8000_0000_0000_0000 {
            Ok(i64::MIN)
        } else {
            Ok(-(magnitude as i64))
        }
    } else {
        Ok(magnitude as i64)
    }
}

} // verus!
