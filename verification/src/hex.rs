//! Hexadecimal text: two lowercase digits per byte, high half first.

use vstd::prelude::*;
use vstd::string::StrSliceExecFns;
use vstd::string::StringExecFns;

verus! {

/// The lowercase digit that stands for `n`, for `n` below sixteen.
pub open spec fn hex_digit(n: int) -> char {
    if n < 10 {
        ('0' as int + n) as char
    } else {
        ('a' as int + (n - 10)) as char
    }
}

/// The text of `bytes`: digit `2 * i` stands for the high half of byte `i`,
/// digit `2 * i + 1` for its low half.
pub open spec fn hex_text(bytes: Seq<u8>) -> Seq<char> {
    Seq::new(
        2 * bytes.len(),
        |i: int|
            if i % 2 == 0 {
                hex_digit(bytes[i / 2] as int / 16)
            } else {
                hex_digit(bytes[i / 2] as int % 16)
            },
    )
}

/// The value of an ASCII hexadecimal digit, of either case; `None` for any
/// other byte.
pub open spec fn hex_value(c: u8) -> Option<u8> {
    if 0x30 <= c <= 0x39 {
        Some((c - 0x30) as u8)
    } else if 0x61 <= c <= 0x66 {
        Some((c - 0x61 + 10) as u8)
    } else if 0x41 <= c <= 0x46 {
        Some((c - 0x41 + 10) as u8)
    } else {
        None
    }
}

/// The byte that a group of two digits stands for; `None` unless both are
/// hexadecimal digits.
pub open spec fn hex_pair_value(high: u8, low: u8) -> Option<u8> {
    match (hex_value(high), hex_value(low)) {
        (Some(h), Some(l)) => Some((h * 16 + l) as u8),
        _ => None,
    }
}

/// Appending one byte appends its two digits.
pub proof fn lemma_hex_text_push(bytes: Seq<u8>, b: u8)
    ensures
        hex_text(bytes.push(b)) == hex_text(bytes).push(hex_digit(b as int / 16)).push(
            hex_digit(b as int % 16),
        ),
{
    let whole = hex_text(bytes.push(b));
    let built = hex_text(bytes).push(hex_digit(b as int / 16)).push(hex_digit(b as int % 16));
    assert forall|i: int| 0 <= i < whole.len() implies whole[i] == built[i] by {}
    assert(whole =~= built);
}

/// The digit that stands for `n` is an ASCII digit or a letter from `a` to
/// `f`, and its value is `n`.
pub proof fn lemma_hex_digit_value(n: int)
    requires
        0 <= n < 16,
    ensures
        hex_digit(n) as int == (if n < 10 { 0x30 + n } else { 0x61 + n - 10 }),
        hex_value(hex_digit(n) as u8) == Some(n as u8),
{
}

fn digit_text(n: u8) -> (s: &'static str)
    requires
        n < 16,
    ensures
        s@ == seq![hex_digit(n as int)],
{
    let digits = "0123456789abcdef";
    proof {
        reveal_strlit("0123456789abcdef");
    }
    digits.substring_ascii(n as usize, n as usize + 1)
}

/// Writes `bytes` as hexadecimal text.
pub fn to_hex(bytes: &[u8]) -> (text: String)
    ensures
        text@ == hex_text(bytes@),
{
    let mut text = String::new();
    let mut i: usize = 0;
    while i < bytes.len()
        invariant
            i <= bytes.len(),
            text@ == hex_text(bytes@.take(i as int)),
        decreases bytes.len() - i,
    {
        let b: u8 = bytes[i];
        proof {
            lemma_hex_text_push(bytes@.take(i as int), b);
        }
        text.append(digit_text(b / 16));
        text.append(digit_text(b % 16));
        i = i + 1;
    }
    text
}

/// Reads one ASCII hexadecimal digit.
pub fn digit_value(c: u8) -> (v: Option<u8>)
    ensures
        v == hex_value(c),
{
    if 0x30 <= c && c <= 0x39 {
        Some(c - 0x30)
    } else if 0x61 <= c && c <= 0x66 {
        Some(c - 0x61 + 10)
    } else if 0x41 <= c && c <= 0x46 {
        Some(c - 0x41 + 10)
    } else {
        None
    }
}

/// Reads a group of two digits as one byte.
pub fn pair_value(high: u8, low: u8) -> (v: Option<u8>)
    ensures
        v == hex_pair_value(high, low),
{
    match digit_value(high) {
        Some(h) => match digit_value(low) {
            Some(l) => Some(h * 16 + l),
            None => None,
        },
        None => None,
    }
}

} // verus!
