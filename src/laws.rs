//! Laws that relate encoding and decoding.

use vstd::prelude::*;

use crate::digits::{
    all_hex, ascii_chars, decode_spec, decoded, encoded, hex_digit, is_hex_digit, nibble_value,
};

verus! {

/// Each lowercase digit is a hex digit and reads back as the nibble it stands for.
pub proof fn lemma_digit_round_trip(n: u8)
    requires
        n < 16,
    ensures
        is_hex_digit(hex_digit(n)),
        nibble_value(hex_digit(n)) == n,
{
}

/// Decoding the hex text of any bytes gives those bytes back. The text is
/// ASCII, so the characters that `encode` returns carry exactly these digits.
pub proof fn lemma_round_trip(b: Seq<u8>)
    ensures
        decode_spec(encoded(b)) == Ok::<Seq<u8>, crate::decode::FromHexError>(b),
        ascii_chars(encoded(b)).map_values(|c: char| c as u8) == encoded(b),
{
    let s = encoded(b);
    assert forall|i: int| 0 <= i < s.len() implies is_hex_digit(#[trigger] s[i]) by {
        if i % 2 == 0 {
            lemma_digit_round_trip(b[i / 2] / 16);
        } else {
            lemma_digit_round_trip(b[i / 2] % 16);
        }
    }
    assert(all_hex(s));
    assert forall|k: int| 0 <= k < b.len() implies #[trigger] decoded(s)[k] == b[k] by {
        lemma_digit_round_trip(b[k] / 16);
        lemma_digit_round_trip(b[k] % 16);
        assert((2 * k) / 2 == k);
        assert((2 * k + 1) / 2 == k);
        assert((2 * k) % 2 == 0);
        assert((2 * k + 1) % 2 == 1);
    }
    assert(decoded(s) =~= b);
    assert(ascii_chars(s).map_values(|c: char| c as u8) =~= s);
}

/// Re-encoding what some text decodes to changes at most the case of its
/// digits: the new text decodes to the same bytes.
pub proof fn lemma_reencode_keeps_value(s: Seq<u8>, v: Seq<u8>)
    requires
        decode_spec(s) == Ok::<Seq<u8>, crate::decode::FromHexError>(v),
    ensures
        decode_spec(encoded(v)) == decode_spec(s),
{
    lemma_round_trip(v);
}

} // verus!
