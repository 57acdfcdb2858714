use vstd::prelude::*;

use crate::hex::{lower_digit, lower_digit_char, push_char};
use crate::text::upper_digit;
use vstd::string::StringExecFns;
use vstd::utf8::{encode_utf8, is_ascii_chars};

verus! {

/// The `k` lowest binary digits of `n`, the most significant first.
pub open spec fn binary_digits(n: nat, k: nat) -> Seq<char>
    decreases k,
{
    if k == 0 {
        Seq::empty()
    } else {
        binary_digits(n / 2, (k - 1) as nat).push(if n % 2 == 1 { '1' } else { '0' })
    }
}

/// Every character of `s` is a binary digit.
pub open spec fn is_binary(s: Seq<char>) -> bool {
    forall|i: int| 0 <= i < s.len() ==> (#[trigger] s[i] == '0' || s[i] == '1')
}

/// The number that binary digits stand for, the first digit the most significant.
pub open spec fn binary_value(s: Seq<char>) -> nat
    decreases s.len(),
{
    if s.len() == 0 {
        0
    } else {
        binary_value(s.drop_last()) * 2 + if s.last() == '1' { 1nat } else { 0nat }
    }
}

/// Bytes in hex with two upper-case digits for each, in order.
pub open spec fn upper_encoded(b: Seq<u8>) -> Seq<char> {
    Seq::new(
        2 * b.len(),
        |i: int|
            if i % 2 == 0 {
                upper_digit(b[i / 2] as int / 16)
            } else {
                upper_digit(b[i / 2] as int % 16)
            },
    )
}

/// The last hex digit of each byte, in lower case.
pub open spec fn low_nibble_digits(b: Seq<u8>) -> Seq<char> {
    Seq::new(b.len(), |i: int| lower_digit(b[i] as int % 16))
}

/// Relies on `binary_utils::convert_to_binary_string` with eight bits to
/// show: the byte's eight binary digits, most significant first, leading
/// zeros included.
#[verifier::external_body]
fn byte_binary_string(num: u8) -> (r: String)
    ensures
        r@ == binary_digits(num as nat, 8),
{
    binary_utils::convert_to_binary_string(num, 8)
}

/// The string of the upper-case hex digit of a value in `0..16`.
fn digit_str(v: u8) -> (r: &'static str)
    requires
        v < 16,
    ensures
        r@ == seq![upper_digit(v as int)],
{
    proof {
        reveal_strlit("0");
        reveal_strlit("1");
        reveal_strlit("2");
        reveal_strlit("3");
        reveal_strlit("4");
        reveal_strlit("5");
        reveal_strlit("6");
        reveal_strlit("7");
        reveal_strlit("8");
        reveal_strlit("9");
        reveal_strlit("A");
        reveal_strlit("B");
        reveal_strlit("C");
        reveal_strlit("D");
        reveal_strlit("E");
        reveal_strlit("F");
    }
    let r = if v < 8 {
        if v == 0 { "0" } else if v == 1 { "1" } else if v == 2 { "2" } else if v == 3 { "3" }
        else if v == 4 { "4" } else if v == 5 { "5" } else if v == 6 { "6" } else { "7" }
    } else {
        if v == 8 { "8" } else if v == 9 { "9" } else if v == 10 { "A" } else if v == 11 { "B" }
        else if v == 12 { "C" } else if v == 13 { "D" } else if v == 14 { "E" } else { "F" }
    };
    assert(r@ =~= seq![upper_digit(v as int)]);
    r
}

/// The upper-case hex digit of four binary digits, most significant first;
/// nothing for text that is not exactly four binary digits.
pub fn binary_to_hex(b: &str) -> (r: Option<&str>)
    ensures
        r is Some <==> b@.len() == 4 && is_binary(b@),
        r is Some ==> r->0@ == seq![upper_digit(binary_value(b@) as int)],
{
    broadcast use vstd::string::group_string_axioms;

    if !b.is_ascii() {
        proof {
            let i = choose|i: int| 0 <= i < b@.len() && !('\0' <= #[trigger] b@[i] <= '\u{7f}');
        }
        return None;
    }
    let bytes = b.as_bytes();
    assert(bytes@ =~= Seq::new(b@.len(), |i: int| b@[i] as u8));
    if bytes.len() != 4 {
        return None;
    }
    let mut value: u8 = 0;
    let mut i: usize = 0;
    while i < 4
        invariant
            bytes@ == Seq::new(b@.len(), |j: int| b@[j] as u8),
            b@.len() == 4,
            is_ascii_chars(b@),
            i <= 4,
            is_binary(b@.subrange(0, i as int)),
            value as nat == binary_value(b@.subrange(0, i as int)),
            i == 0 ==> value == 0,
            i == 1 ==> value < 2,
            i == 2 ==> value < 4,
            i == 3 ==> value < 8,
            i == 4 ==> value < 16,
        decreases 4 - i,
    {
        let ghost prefix = b@.subrange(0, i as int);
        assert(b@.subrange(0, i + 1).drop_last() =~= prefix);
        let bit: u8 = if bytes[i] == 48 {
            0
        } else if bytes[i] == 49 {
            1
        } else {
            assert(!is_binary(b@));
            return None;
        };
        value = value * 2 + bit;
        i = i + 1;
    }
    assert(b@.subrange(0, 4) =~= b@);
    Some(digit_str(value))
}

proof fn lemma_binary_digits(n: nat, k: nat)
    ensures
        #[trigger] binary_digits(n, k).len() == k,
        is_binary(binary_digits(n, k)),
    decreases k,
{
    if k > 0 {
        lemma_binary_digits(n / 2, (k - 1) as nat);
    }
}

proof fn lemma_nibble_value(m: nat)
    requires
        m < 16,
    ensures
        binary_value(binary_digits(m, 4)) == m,
{
    reveal_with_fuel(binary_digits, 5);
    reveal_with_fuel(binary_value, 5);
    let s = binary_digits(m, 4);
    assert(s.drop_last() =~= binary_digits(m / 2, 3));
    assert(s.drop_last().drop_last() =~= binary_digits(m / 4, 2)) by {
        assert(m / 2 / 2 == m / 4);
    }
    assert(s.drop_last().drop_last().drop_last() =~= binary_digits(m / 8, 1)) by {
        assert(m / 2 / 2 / 2 == m / 8);
    }
    assert(s.drop_last().drop_last().drop_last().drop_last() =~= Seq::<char>::empty());
}

proof fn lemma_byte_halves(n: nat)
    requires
        n < 256,
    ensures
        binary_digits(n, 8).subrange(0, 4) == binary_digits(n / 16, 4),
        binary_digits(n, 8).subrange(4, 8) == binary_digits(n % 16, 4),
{
    reveal_with_fuel(binary_digits, 9);
    let s = binary_digits(n, 8);
    assert(n / 2 / 2 == n / 4 && n / 4 / 2 == n / 8 && n / 8 / 2 == n / 16);
    assert(n / 16 / 2 == n / 32 && n / 32 / 2 == n / 64 && n / 64 / 2 == n / 128);
    assert(n % 16 / 2 == n / 2 % 8 && n % 16 / 4 == n / 4 % 4 && n % 16 / 8 == n / 8 % 2);
    assert(n % 16 % 2 == n % 2);
    assert(n / 2 % 8 % 2 == n / 2 % 2 && n / 4 % 4 % 2 == n / 4 % 2);
    assert(n / 2 % 8 / 2 == n / 4 % 4 && n / 2 % 8 / 4 == n / 8 % 2 && n / 4 % 4 / 2 == n / 8 % 2);
    assert(s.subrange(0, 4) =~= binary_digits(n / 16, 4));
    assert(s.subrange(4, 8) =~= binary_digits(n % 16, 4));
}

/// Writes the UTF-8 bytes of a string in hex, two upper-case digits for each,
/// by way of each byte's eight binary digits read in two groups of four.
pub fn convert_string_to_hex(s: &String) -> (r: String)
    ensures
        r@ == upper_encoded(encode_utf8(s@)),
{
    let bytes = s.as_str().as_bytes();
    let ghost b = encode_utf8(s@);
    let mut out = String::new();
    let mut i: usize = 0;
    while i < bytes.len()
        invariant
            bytes@ == b,
            i <= b.len(),
            out@.len() == 2 * i,
            forall|j: int| 0 <= j < 2 * i ==> #[trigger] out@[j] == upper_encoded(b)[j],
        decreases b.len() - i,
    {
        let byte = bytes[i];
        let binary_string = byte_binary_string(byte);
        proof {
            lemma_binary_digits(byte as nat, 8);
            lemma_byte_halves(byte as nat);
            lemma_binary_digits(byte as nat / 16, 4);
            lemma_binary_digits(byte as nat % 16, 4);
            lemma_nibble_value(byte as nat / 16);
            lemma_nibble_value(byte as nat % 16);
            assert(is_ascii_chars(binary_string@));
        }
        let first_4_binary = binary_string.as_str().substring_ascii(0, 4);
        let first_4_hex = binary_to_hex(first_4_binary).unwrap();
        let last_4_binary = binary_string.as_str().substring_ascii(4, 8);
        let last_4_hex = binary_to_hex(last_4_binary).unwrap();
        out.append(first_4_hex);
        out.append(last_4_hex);
        i = i + 1;
    }
    assert(out@ =~= upper_encoded(b));
    out
}

/// Writes the last hex digit of each byte (its value modulo 16), in lower
/// case: one digit for each byte.
pub fn get_hex_string_from_byte_array(byte_array: &[u8]) -> (r: String)
    ensures
        r@ == low_nibble_digits(byte_array@),
{
    let mut out = String::new();
    let mut i: usize = 0;
    while i < byte_array.len()
        invariant
            i <= byte_array@.len(),
            out@ =~= low_nibble_digits(byte_array@).subrange(0, i as int),
        decreases byte_array@.len() - i,
    {
        push_char(&mut out, lower_digit_char(byte_array[i] % 16));
        i = i + 1;
    }
    assert(out@ =~= low_nibble_digits(byte_array@));
    out
}

} // verus!
