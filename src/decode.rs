//! Hexadecimal text to bytes.

use vstd::prelude::*;

use crate::digits::{
    all_hex, bytes_result, decode_spec, decoded, is_first_invalid, is_hex_digit,
    lemma_first_invalid_unique, nibble_value, DIGIT_NINE, DIGIT_ZERO, LOWER_A, LOWER_F, UPPER_A,
    UPPER_F,
};

verus! {

/// Why a conversion was refused.
#[derive(Debug, PartialEq, Eq, Structural)]
pub enum FromHexError {
    /// The text has an odd number of characters.
    OddLength,
    /// The text holds this byte, which is no hex digit.
    InvalidCharacter(u8),
    /// An output buffer has the wrong length.
    InvalidStringLength,
}

/// The value of one hex digit, or the error that names it.
pub fn val(nibble: u8) -> (r: Result<u8, FromHexError>)
    ensures
        is_hex_digit(nibble) ==> r == Ok::<u8, FromHexError>(nibble_value(nibble)),
        !is_hex_digit(nibble) ==> r == Err::<u8, FromHexError>(FromHexError::InvalidCharacter(nibble)),
        r is Ok ==> r->Ok_0 < 16,
{
    if LOWER_A <= nibble && nibble <= LOWER_F {
        Ok(nibble - LOWER_A + 10)
    } else if UPPER_A <= nibble && nibble <= UPPER_F {
        Ok(nibble - UPPER_A + 10)
    } else if DIGIT_ZERO <= nibble && nibble <= DIGIT_NINE {
        Ok(nibble - DIGIT_ZERO)
    } else {
        Err(FromHexError::InvalidCharacter(nibble))
    }
}

/// A type that can be read from hexadecimal text.
pub trait FromHex: Sized {
    type Error;

    /// Reads a value from the hex digits `hex`.
    fn from_hex(hex: &[u8]) -> Result<Self, Self::Error>;
}

/// The byte that a high and a low nibble make.
fn pack(n1: u8, n2: u8) -> (r: u8)
    requires
        n1 < 16,
        n2 < 16,
    ensures
        r == n1 * 16 + n2,
{
    assert(n1 < 16 && n2 < 16 ==> ((n1 << 4u8) | n2) == n1 * 16 + n2) by (bit_vector);
    (n1 << 4u8) | n2
}

impl FromHex for Vec<u8> {
    type Error = FromHexError;

    /// Decodes `hex` pair by pair; the first character that is no hex digit,
    /// high digit of a pair before low, is the error.
    fn from_hex(hex: &[u8]) -> (r: Result<Vec<u8>, FromHexError>)
        ensures
            bytes_result(r) == decode_spec(hex@),
    {
        if hex.len() % 2 != 0 {
            return Err(FromHexError::OddLength);
        }
        let n: usize = hex.len() / 2;
        let mut out: Vec<u8> = Vec::with_capacity(n);
        let mut i: usize = 0;
        while i < n
            invariant
                n == hex@.len() / 2,
                hex@.len() % 2 == 0,
                i <= n,
                out@.len() == i,
                forall|j: int| 0 <= j < 2 * i ==> is_hex_digit(#[trigger] hex@[j]),
                forall|j: int|
                    0 <= j < i ==> #[trigger] out@[j] == (nibble_value(hex@[2 * j]) * 16
                        + nibble_value(hex@[2 * j + 1])) as u8,
            decreases n - i,
        {
            let n1 = match val(hex[2 * i]) {
                Ok(v) => v,
                Err(e) => {
                    proof {
                        assert(is_first_invalid(hex@, 2 * i as int));
                        lemma_first_invalid_unique(hex@, 2 * i as int);
                    }
                    return Err(e);
                },
            };
            let n2 = match val(hex[2 * i + 1]) {
                Ok(v) => v,
                Err(e) => {
                    proof {
                        assert forall|j: int| 0 <= j < 2 * i + 1 implies is_hex_digit(
                            #[trigger] hex@[j],
                        ) by {
                            if j == 2 * i {
                            }
                        }
                        assert(is_first_invalid(hex@, 2 * i + 1));
                        lemma_first_invalid_unique(hex@, 2 * i + 1);
                    }
                    return Err(e);
                },
            };
            out.push(pack(n1, n2));
            proof {
                assert forall|j: int| 0 <= j < 2 * i + 2 implies is_hex_digit(
                    #[trigger] hex@[j],
                ) by {
                    if j >= 2 * i {
                    }
                }
            }
            i = i + 1;
        }
        assert(all_hex(hex@));
        assert(out@ =~= decoded(hex@));
        Ok(out)
    }
}

/// Decodes hexadecimal text into a new vector of bytes.
pub fn decode(data: &[u8]) -> (r: Result<Vec<u8>, FromHexError>)
    ensures
        bytes_result(r) == decode_spec(data@),
{
    <Vec<u8> as FromHex>::from_hex(data)
}

/// Decodes hexadecimal text into `out`, which must hold exactly one byte per
/// pair of digits. The length checks come before any digit is read; on a bad
/// digit the bytes before its pair may already be written.
pub fn decode_to_slice(data: &[u8], out: &mut [u8]) -> (r: Result<(), FromHexError>)
    ensures
        data@.len() % 2 != 0 ==> r == Err::<(), FromHexError>(FromHexError::OddLength)
            && final(out)@ == old(out)@,
        data@.len() % 2 == 0 && old(out)@.len() != data@.len() / 2 ==> r == Err::<
            (),
            FromHexError,
        >(FromHexError::InvalidStringLength) && final(out)@ == old(out)@,
        data@.len() % 2 == 0 && old(out)@.len() == data@.len() / 2 ==> match decode_spec(data@) {
            Ok(v) => r == Ok::<(), FromHexError>(()) && final(out)@ == v,
            Err(e) => r == Err::<(), FromHexError>(e) && final(out)@.len() == old(out)@.len(),
        },
{
    if data.len() % 2 != 0 {
        return Err(FromHexError::OddLength);
    }
    if out.len() != data.len() / 2 {
        return Err(FromHexError::InvalidStringLength);
    }
    let n: usize = out.len();
    let mut i: usize = 0;
    while i < n
        invariant
            n == data@.len() / 2,
            data@.len() % 2 == 0,
            i <= n,
            out@.len() == n,
            old(out)@.len() == n,
            data@.len() <= usize::MAX,
            forall|j: int| 0 <= j < 2 * i ==> is_hex_digit(#[trigger] data@[j]),
            forall|j: int|
                0 <= j < i ==> #[trigger] out@[j] == (nibble_value(data@[2 * j]) * 16
                    + nibble_value(data@[2 * j + 1])) as u8,
        decreases n - i,
    {
        let n1 = match val(data[2 * i]) {
            Ok(v) => v,
            Err(e) => {
                proof {
                    assert(is_first_invalid(data@, 2 * i as int));
                    lemma_first_invalid_unique(data@, 2 * i as int);
                }
                return Err(e);
            },
        };
        let n2 = match val(data[2 * i + 1]) {
            Ok(v) => v,
            Err(e) => {
                proof {
                    assert forall|j: int| 0 <= j < 2 * i + 1 implies is_hex_digit(
                        #[trigger] data@[j],
                    ) by {
                        if j == 2 * i {
                        }
                    }
                    assert(is_first_invalid(data@, 2 * i + 1));
                    lemma_first_invalid_unique(data@, 2 * i + 1);
                }
                return Err(e);
            },
        };
        out[i] = pack(n1, n2);
        proof {
            assert forall|j: int| 0 <= j < 2 * i + 2 implies is_hex_digit(
                #[trigger] data@[j],
            ) by {
                if j >= 2 * i {
                }
            }
        }
        i = i + 1;
    }
    assert(all_hex(data@));
    assert(out@ =~= decoded(data@));
    Ok(())
}

} // verus!
