use vstd::prelude::*;

use crate::error::Error;
use vstd::utf8::is_ascii_chars;

verus! {

/// A character of the hex alphabet `[0-9a-fA-F]`.
pub open spec fn is_hex_digit(c: char) -> bool {
    ('0' <= c && c <= '9') || ('a' <= c && c <= 'f') || ('A' <= c && c <= 'F')
}

/// The value, in `0..16`, of a hex digit.
pub open spec fn hex_digit_value(c: char) -> int {
    if '0' <= c && c <= '9' {
        c as int - '0' as int
    } else if 'a' <= c && c <= 'f' {
        c as int - 'a' as int + 10
    } else {
        c as int - 'A' as int + 10
    }
}

/// Every character of `s` is a hex digit.
pub open spec fn is_hex(s: Seq<char>) -> bool {
    forall|i: int| 0 <= i < s.len() ==> is_hex_digit(#[trigger] s[i])
}

/// Every character of `s` is a hex digit, and none is an upper-case letter.
pub open spec fn is_lower_hex(s: Seq<char>) -> bool {
    forall|i: int| 0 <= i < s.len() ==> ('0' <= #[trigger] s[i] <= '9' || 'a' <= s[i] <= 'f')
}

/// A hex string brought to even length: an odd one gets a leading `'0'`.
pub open spec fn padded(s: Seq<char>) -> Seq<char> {
    if s.len() % 2 == 1 {
        seq!['0'] + s
    } else {
        s
    }
}

/// The byte written by the two digits at `2 * k` and `2 * k + 1` of `p`.
pub open spec fn pair_value(p: Seq<char>, k: int) -> u8 {
    (hex_digit_value(p[2 * k]) * 16 + hex_digit_value(p[2 * k + 1])) as u8
}

/// The bytes that a hex string stands for, two digits to a byte, after padding.
pub open spec fn decoded(s: Seq<char>) -> Seq<u8> {
    let p = padded(s);
    Seq::new((p.len() / 2) as nat, |k: int| pair_value(p, k))
}

/// The lower-case hex digit of a value in `0..16`.
pub open spec fn lower_digit(d: int) -> char {
    if d < 10 {
        if d == 0 { '0' } else if d == 1 { '1' } else if d == 2 { '2' } else if d == 3 { '3' }
        else if d == 4 { '4' } else if d == 5 { '5' } else if d == 6 { '6' } else if d == 7 { '7' }
        else if d == 8 { '8' } else { '9' }
    } else {
        if d == 10 { 'a' } else if d == 11 { 'b' } else if d == 12 { 'c' } else if d == 13 { 'd' }
        else if d == 14 { 'e' } else { 'f' }
    }
}

/// The canonical hex form of bytes: two lower-case digits for each, in order.
pub open spec fn encoded(b: Seq<u8>) -> Seq<char> {
    Seq::new(
        2 * b.len(),
        |i: int|
            if i % 2 == 0 {
                lower_digit(b[i / 2] as int / 16)
            } else {
                lower_digit(b[i / 2] as int % 16)
            },
    )
}

/// The hex string of the same bytes in the opposite order.
pub open spec fn byte_order_reversed(s: Seq<char>) -> Seq<char> {
    encoded(decoded(s).reverse())
}

/// The value of the ASCII byte `b`, which is the character `c`, as a hex digit.
pub(crate) fn hex_digit(b: u8, Ghost(c): Ghost<char>) -> (r: Option<u8>)
    requires
        c <= '\u{7f}',
        b == c as u8,
    ensures
        r is Some <==> is_hex_digit(c),
        r is Some ==> r->0 as int == hex_digit_value(c) && r->0 < 16,
{
    if 48 <= b && b <= 57 {
        Some(b - 48)
    } else if 97 <= b && b <= 102 {
        Some(b - 87)
    } else if 65 <= b && b <= 70 {
        Some(b - 55)
    } else {
        None
    }
}

/// Decodes a hex string into bytes, two digits to a byte; a string of odd
/// length is read as if it had a leading `'0'`. Upper- and lower-case digits
/// are both accepted, and the empty string gives no bytes.
pub fn decode_hex(s: &str) -> (r: Result<Vec<u8>, Error>)
    ensures
        match r {
            Ok(v) => is_hex(s@) && v@ == decoded(s@),
            Err(e) => !is_hex(s@) && e == Error::InvalidDigit,
        },
{
    broadcast use vstd::string::group_string_axioms;

    if !s.is_ascii() {
        proof {
            let i = choose|i: int| 0 <= i < s@.len() && !('\0' <= #[trigger] s@[i] <= '\u{7f}');
            assert(!is_hex_digit(s@[i]));
        }
        return Err(Error::InvalidDigit);
    }
    let bytes = s.as_bytes();
    let n = bytes.len();
    assert(bytes@ =~= Seq::new(s@.len(), |i: int| s@[i] as u8));
    let ghost p = padded(s@);
    let odd: usize = n % 2;
    let mut out: Vec<u8> = Vec::new();
    let mut i: usize = 0;
    if odd == 1 {
        match hex_digit(bytes[0], Ghost(s@[0])) {
            Some(d) => {
                out.push(d);
                assert(p[0] == '0' && p[1] == s@[0]);
            },
            None => return Err(Error::InvalidDigit),
        }
        i = 1;
    }
    while i < n
        invariant
            n == s@.len(),
            bytes@ == Seq::new(s@.len(), |j: int| s@[j] as u8),
            is_ascii_chars(s@),
            p == padded(s@),
            odd == n % 2,
            i <= n,
            (i + odd) % 2 == 0,
            out@.len() == (i + odd) / 2,
            forall|j: int| 0 <= j < i ==> is_hex_digit(#[trigger] s@[j]),
            forall|k: int| 0 <= k < out@.len() ==> #[trigger] out@[k] == pair_value(p, k),
        decreases n - i,
    {
        let hi = match hex_digit(bytes[i], Ghost(s@[i as int])) {
            Some(d) => d,
            None => return Err(Error::InvalidDigit),
        };
        let lo = match hex_digit(bytes[i + 1], Ghost(s@[i + 1])) {
            Some(d) => d,
            None => return Err(Error::InvalidDigit),
        };
        let ghost k = out@.len() as int;
        assert(p[2 * k] == s@[i as int] && p[2 * k + 1] == s@[i + 1]);
        out.push(hi * 16 + lo);
        i = i + 2;
    }
    assert(out@ =~= decoded(s@));
    Ok(out)
}

/// Relies on `String::push`: appends one character at the end.
#[verifier::external_body]
pub(crate) fn push_char(s: &mut String, c: char)
    ensures
        final(s)@ == old(s)@.push(c),
{
    s.push(c)
}

/// The lower-case hex digit of `d`.
pub(crate) fn lower_digit_char(d: u8) -> (c: char)
    requires
        d < 16,
    ensures
        c == lower_digit(d as int),
{
    if d < 10 {
        if d == 0 { '0' } else if d == 1 { '1' } else if d == 2 { '2' } else if d == 3 { '3' }
        else if d == 4 { '4' } else if d == 5 { '5' } else if d == 6 { '6' } else if d == 7 { '7' }
        else if d == 8 { '8' } else { '9' }
    } else {
        if d == 10 { 'a' } else if d == 11 { 'b' } else if d == 12 { 'c' } else if d == 13 { 'd' }
        else if d == 14 { 'e' } else { 'f' }
    }
}

/// Encodes bytes as hex: two lower-case digits for each byte, in order.
pub fn encode_hex(bytes: &[u8]) -> (r: String)
    ensures
        r@ == encoded(bytes@),
{
    let mut s = String::new();
    let mut i: usize = 0;
    while i < bytes.len()
        invariant
            i <= bytes@.len(),
            s@.len() == 2 * i,
            forall|j: int| 0 <= j < 2 * i ==> #[trigger] s@[j] == encoded(bytes@)[j],
        decreases bytes@.len() - i,
    {
        let b = bytes[i];
        push_char(&mut s, lower_digit_char(b / 16));
        push_char(&mut s, lower_digit_char(b % 16));
        i = i + 1;
    }
    assert(s@ =~= encoded(bytes@));
    s
}

/// Reverses the order of the bytes that a hex string stands for, and encodes
/// them again in the canonical form: this turns a big-endian number into its
/// little-endian form and back.
pub fn convert_big_endian_hex_to_little_endian(hex: &String) -> (r: Result<String, Error>)
    ensures
        match r {
            Ok(t) => is_hex(hex@) && t@ == byte_order_reversed(hex@),
            Err(e) => !is_hex(hex@) && e == Error::InvalidDigit,
        },
{
    let bytes = decode_hex(hex.as_str())?;
    let mut reversed: Vec<u8> = Vec::new();
    let mut i: usize = bytes.len();
    while i > 0
        invariant
            i <= bytes@.len(),
            reversed@ =~= bytes@.subrange(i as int, bytes@.len() as int).reverse(),
        decreases i,
    {
        i = i - 1;
        reversed.push(bytes[i]);
    }
    assert(reversed@ =~= bytes@.reverse());
    Ok(encode_hex(reversed.as_slice()))
}

proof fn lemma_lower_digit(d: int)
    requires
        0 <= d < 16,
    ensures
        is_hex_digit(lower_digit(d)),
        hex_digit_value(lower_digit(d)) == d,
        '0' <= lower_digit(d) <= '9' || 'a' <= lower_digit(d) <= 'f',
{
}

proof fn lemma_digit_round_trip(c: char)
    requires
        '0' <= c <= '9' || 'a' <= c <= 'f',
    ensures
        0 <= hex_digit_value(c) < 16,
        lower_digit(hex_digit_value(c)) == c,
{
}

/// Decoding the encoding of any bytes gives back those bytes, and the encoding
/// is always a valid hex string.
pub proof fn lemma_decode_encode(b: Seq<u8>)
    ensures
        is_hex(encoded(b)),
        decoded(encoded(b)) == b,
{
    let e = encoded(b);
    assert forall|i: int| 0 <= i < e.len() implies is_hex_digit(#[trigger] e[i]) by {
        lemma_lower_digit(b[i / 2] as int / 16);
        lemma_lower_digit(b[i / 2] as int % 16);
    }
    assert forall|k: int| 0 <= k < b.len() implies #[trigger] pair_value(e, k) == b[k] by {
        lemma_lower_digit(b[k] as int / 16);
        lemma_lower_digit(b[k] as int % 16);
        assert((2 * k) % 2 == 0 && (2 * k + 1) % 2 == 1);
        assert((2 * k) / 2 == k && (2 * k + 1) / 2 == k);
    }
    assert(decoded(e) =~= b);
}

/// Encoding the decoding of an even-length, lower-case hex string gives back
/// that string.
pub proof fn lemma_encode_decode(s: Seq<char>)
    requires
        is_lower_hex(s),
        s.len() % 2 == 0,
    ensures
        encoded(decoded(s)) == s,
{
    let b = decoded(s);
    assert forall|i: int| 0 <= i < s.len() implies #[trigger] encoded(b)[i] == s[i] by {
        let k = i / 2;
        assert(0 <= 2 * k && 2 * k + 1 < s.len());
        let hi = hex_digit_value(s[2 * k]);
        let lo = hex_digit_value(s[2 * k + 1]);
        lemma_digit_round_trip(s[2 * k]);
        lemma_digit_round_trip(s[2 * k + 1]);
        assert(b[k] as int == hi * 16 + lo);
        assert((hi * 16 + lo) / 16 == hi && (hi * 16 + lo) % 16 == lo);
    }
    assert(encoded(b) =~= s);
}

/// A hex string of odd length decodes, or fails, exactly as the same string
/// with a leading `'0'` does.
pub proof fn lemma_odd_length_padding(s: Seq<char>)
    requires
        s.len() % 2 == 1,
    ensures
        is_hex(s) <==> is_hex(seq!['0'] + s),
        decoded(s) == decoded(seq!['0'] + s),
{
    let z = seq!['0'] + s;
    assert(padded(z) == z);
    if is_hex(s) {
        assert forall|i: int| 0 <= i < z.len() implies is_hex_digit(#[trigger] z[i]) by {
            if i > 0 {
                assert(z[i] == s[i - 1]);
            }
        }
    }
    if is_hex(z) {
        assert forall|i: int| 0 <= i < s.len() implies is_hex_digit(#[trigger] s[i]) by {
            assert(z[i + 1] == s[i]);
        }
    }
}

/// Reversing the byte order of an even-length, lower-case hex string twice
/// gives back the string; the first reversal yields a valid hex string.
pub proof fn lemma_byte_order_involution(s: Seq<char>)
    requires
        is_lower_hex(s),
        s.len() % 2 == 0,
    ensures
        is_hex(byte_order_reversed(s)),
        byte_order_reversed(byte_order_reversed(s)) == s,
{
    let b = decoded(s);
    lemma_decode_encode(b.reverse());
    assert(b.reverse().reverse() =~= b);
    lemma_encode_decode(s);
}

} // verus!
