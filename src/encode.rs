//! Bytes to lowercase hexadecimal text.

use vstd::prelude::*;

use crate::decode::FromHexError;
use crate::digits::{ascii_chars, encoded, hex_digit};

verus! {

/// The lowercase digits, indexed by the nibble they stand for.
const HEX_TABLE: [u8; 16] = [
    0x30, 0x31, 0x32, 0x33, 0x34, 0x35, 0x36, 0x37,
    0x38, 0x39, 0x61, 0x62, 0x63, 0x64, 0x65, 0x66,
];

/// The two digits of a byte, high nibble first.
fn byte_to_hex(byte: u8) -> (r: (u8, u8))
    ensures
        r.0 == hex_digit(byte / 16),
        r.1 == hex_digit(byte % 16),
{
    assert((byte >> 4u8) & 0x0fu8 == byte / 16) by (bit_vector);
    assert(byte & 0x0fu8 == byte % 16) by (bit_vector);
    let table = HEX_TABLE;
    assert(table@ =~= seq![
        0x30u8, 0x31, 0x32, 0x33, 0x34, 0x35, 0x36, 0x37,
        0x38, 0x39, 0x61, 0x62, 0x63, 0x64, 0x65, 0x66,
    ]);
    let n1 = table[((byte >> 4u8) & 0x0fu8) as usize];
    let n2 = table[(byte & 0x0fu8) as usize];
    (n1, n2)
}

/// Writes the lowercase hex text of `input` into `output`, which must be
/// exactly twice as long as `input`.
pub fn encode_to_slice(input: &[u8], output: &mut [u8]) -> (r: Result<(), FromHexError>)
    ensures
        old(output)@.len() != 2 * input@.len() ==> r == Err::<(), FromHexError>(
            FromHexError::InvalidStringLength,
        ) && final(output)@ == old(output)@,
        old(output)@.len() == 2 * input@.len() ==> r == Ok::<(), FromHexError>(())
            && final(output)@ == encoded(input@),
{
    if output.len() % 2 != 0 || output.len() / 2 != input.len() {
        return Err(FromHexError::InvalidStringLength);
    }
    let n: usize = input.len();
    let mut i: usize = 0;
    while i < n
        invariant
            n == input@.len(),
            output@.len() == 2 * n,
            output@.len() <= usize::MAX,
            i <= n,
            forall|j: int| 0 <= j < 2 * i ==> #[trigger] output@[j] == encoded(input@)[j],
        decreases n - i,
    {
        let nibbles = byte_to_hex(input[i]);
        output[2 * i] = nibbles.0;
        output[2 * i + 1] = nibbles.1;
        i = i + 1;
    }
    assert(output@ =~= encoded(input@));
    Ok(())
}

/// Relies on std's `String::from_utf8`: ASCII bytes are valid UTF-8, so it
/// succeeds, and each byte becomes the character of the same code.
#[verifier::external_body]
fn ascii_to_string(bytes: Vec<u8>) -> (r: String)
    requires
        forall|i: int| 0 <= i < bytes@.len() ==> #[trigger] bytes@[i] < 128,
    ensures
        r@ == ascii_chars(bytes@),
{
    String::from_utf8(bytes).unwrap()
}

/// The lowercase hex text of `input`, two digits per byte.
pub fn encode(input: &[u8]) -> (r: String)
    requires
        2 * input@.len() <= usize::MAX,
    ensures
        r@ == ascii_chars(encoded(input@)),
{
    let mut output: Vec<u8> = vec![0u8; input.len() * 2];
    let res = encode_to_slice(input, output.as_mut_slice());
    assert(res is Ok);
    assert forall|i: int| 0 <= i < output@.len() implies #[trigger] output@[i] < 128 by {
        assert(output@[i] == encoded(input@)[i]);
    }
    ascii_to_string(output)
}

} // verus!
