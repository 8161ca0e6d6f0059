//! The mathematical model of hexadecimal text.

use vstd::prelude::*;

use crate::decode::FromHexError;

verus! {

/// ASCII `0`.
pub const DIGIT_ZERO: u8 = 0x30;

/// ASCII `9`.
pub const DIGIT_NINE: u8 = 0x39;

/// ASCII `a`.
pub const LOWER_A: u8 = 0x61;

/// ASCII `f`.
pub const LOWER_F: u8 = 0x66;

/// ASCII `A`.
pub const UPPER_A: u8 = 0x41;

/// ASCII `F`.
pub const UPPER_F: u8 = 0x46;

/// Whether `c` is one of `0`-`9`, `a`-`f`, `A`-`F`.
pub open spec fn is_hex_digit(c: u8) -> bool {
    (DIGIT_ZERO <= c && c <= DIGIT_NINE) || (LOWER_A <= c && c <= LOWER_F) || (UPPER_A <= c && c <= UPPER_F)
}

/// The value (0 to 15) of a hex digit, either case.
pub open spec fn nibble_value(c: u8) -> u8 {
    if LOWER_A <= c && c <= LOWER_F {
        (c - LOWER_A + 10) as u8
    } else if UPPER_A <= c && c <= UPPER_F {
        (c - UPPER_A + 10) as u8
    } else {
        (c - DIGIT_ZERO) as u8
    }
}

/// The lowercase digit that stands for a nibble `n < 16`.
pub open spec fn hex_digit(n: u8) -> u8 {
    if n < 10 {
        (DIGIT_ZERO + n) as u8
    } else {
        (LOWER_A + n - 10) as u8
    }
}

/// Whether every character of `s` is a hex digit.
pub open spec fn all_hex(s: Seq<u8>) -> bool {
    forall|i: int| 0 <= i < s.len() ==> is_hex_digit(#[trigger] s[i])
}

/// Whether `k` is the position of the first character of `s` that is no hex digit.
pub open spec fn is_first_invalid(s: Seq<u8>, k: int) -> bool {
    &&& 0 <= k < s.len()
    &&& !is_hex_digit(s[k])
    &&& forall|j: int| 0 <= j < k ==> is_hex_digit(#[trigger] s[j])
}

/// The position of the first character of `s` that is no hex digit.
pub open spec fn first_invalid(s: Seq<u8>) -> int {
    choose|k: int| is_first_invalid(s, k)
}

/// The bytes that the pairs of digits of `s` stand for, high nibble first.
pub open spec fn decoded(s: Seq<u8>) -> Seq<u8> {
    Seq::new(
        s.len() / 2,
        |i: int| (nibble_value(s[2 * i]) * 16 + nibble_value(s[2 * i + 1])) as u8,
    )
}

/// What decoding `s` gives: the bytes, or the first reason to refuse it.
pub open spec fn decode_spec(s: Seq<u8>) -> Result<Seq<u8>, FromHexError> {
    if s.len() % 2 != 0 {
        Err(FromHexError::OddLength)
    } else if !all_hex(s) {
        Err(FromHexError::InvalidCharacter(s[first_invalid(s)]))
    } else {
        Ok(decoded(s))
    }
}

/// The lowercase hex text of `b`: two digits per byte, high nibble first.
pub open spec fn encoded(b: Seq<u8>) -> Seq<u8> {
    Seq::new(
        2 * b.len(),
        |i: int|
            if i % 2 == 0 {
                hex_digit(b[i / 2] / 16)
            } else {
                hex_digit(b[i / 2] % 16)
            },
    )
}

/// ASCII bytes read as characters.
pub open spec fn ascii_chars(b: Seq<u8>) -> Seq<char> {
    b.map_values(|c: u8| c as char)
}

/// A result that carries bytes, seen through its view.
pub open spec fn bytes_result(r: Result<Vec<u8>, FromHexError>) -> Result<Seq<u8>, FromHexError> {
    match r {
        Ok(v) => Ok(v@),
        Err(e) => Err(e),
    }
}

/// Two positions that are each the first invalid one are the same.
pub proof fn lemma_first_invalid_unique(s: Seq<u8>, k: int)
    requires
        is_first_invalid(s, k),
    ensures
        first_invalid(s) == k,
{
    let j = first_invalid(s);
    assert(is_first_invalid(s, j));
    if j < k {
        assert(is_hex_digit(s[j]));
    } else if k < j {
        assert(is_hex_digit(s[k]));
    }
}

} // verus!
