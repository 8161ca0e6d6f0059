use hex_codec::{decode, decode_to_slice, encode, encode_to_slice, val, FromHexError};

#[test]
fn round_trip_every_byte_value() {
    let bytes: Vec<u8> = (0..=255u8).collect();
    let text = encode(&bytes);
    assert_eq!(text.len(), 512);
    assert_eq!(decode(text.as_bytes()), Ok(bytes));
}

#[test]
fn round_trip_sample() {
    let bytes = vec![0x00, 0x01, 0x7f, 0x80, 0xfe, 0xff];
    let text = encode(&bytes);
    assert_eq!(text, "00017f80feff");
    assert_eq!(decode(text.as_bytes()), Ok(bytes));
}

#[test]
fn case_insensitive_pairs() {
    for text in ["fF", "Ff", "ff", "FF"] {
        assert_eq!(decode(text.as_bytes()), Ok(vec![0xff]));
    }
}

#[test]
fn odd_length_rejected() {
    assert_eq!(decode(b"abc"), Err(FromHexError::OddLength));
}

#[test]
fn invalid_character_reported() {
    assert_eq!(decode(b"zz"), Err(FromHexError::InvalidCharacter(b'z')));
    assert_eq!(decode(b"a#"), Err(FromHexError::InvalidCharacter(b'#')));
}

#[test]
fn first_invalid_character_wins() {
    assert_eq!(decode(b"00g1x2"), Err(FromHexError::InvalidCharacter(b'g')));
    assert_eq!(decode(b"0ag"), Err(FromHexError::OddLength));
    assert_eq!(decode(b"1xy0"), Err(FromHexError::InvalidCharacter(b'x')));
}

#[test]
fn decode_buffer_size_enforced() {
    let mut out = [0u8; 4];
    assert_eq!(
        decode_to_slice(b"abcdef", &mut out),
        Err(FromHexError::InvalidStringLength)
    );
    assert_eq!(out, [0u8; 4]);

    let mut out = [0u8; 3];
    assert_eq!(decode_to_slice(b"abcdef", &mut out), Ok(()));
    assert_eq!(out, [0xab, 0xcd, 0xef]);
}

#[test]
fn decode_to_slice_checks_length_before_digits() {
    let mut out = [0u8; 1];
    assert_eq!(
        decode_to_slice(b"zzzz", &mut out),
        Err(FromHexError::InvalidStringLength)
    );
    let mut out = [0u8; 2];
    assert_eq!(decode_to_slice(b"zzz", &mut out), Err(FromHexError::OddLength));
    let mut out = [0u8; 2];
    assert_eq!(
        decode_to_slice(b"12z4", &mut out),
        Err(FromHexError::InvalidCharacter(b'z'))
    );
}

#[test]
fn encode_lowercase() {
    let input = [0x12, 0x34, 0x56, 0x78, 0x90, 0xab, 0xcd, 0xef];
    assert_eq!(encode(&input), "1234567890abcdef");
    assert_eq!(encode(&[0xAB, 0xCD]), "abcd");
}

#[test]
fn empty_input() {
    assert_eq!(decode(b""), Ok(vec![]));
    assert_eq!(encode(&[]), "");
    let mut out: [u8; 0] = [];
    assert_eq!(decode_to_slice(b"", &mut out), Ok(()));
    assert_eq!(encode_to_slice(&[], &mut out), Ok(()));
}

#[test]
fn encode_buffer_mismatch() {
    let mut out = [0u8; 3];
    assert_eq!(
        encode_to_slice(&[0x12, 0xdf], &mut out),
        Err(FromHexError::InvalidStringLength)
    );
    assert_eq!(out, [0u8; 3]);

    let mut out = [0u8; 4];
    assert_eq!(encode_to_slice(&[0x12, 0xdf], &mut out), Ok(()));
    assert_eq!(&out, b"12df");
}

#[test]
fn nibble_values() {
    assert_eq!(val(b'0'), Ok(0));
    assert_eq!(val(b'9'), Ok(9));
    assert_eq!(val(b'f'), Ok(15));
    assert_eq!(val(b'F'), Ok(15));
    assert_eq!(val(b'A'), Ok(10));
    assert_eq!(val(b'g'), Err(FromHexError::InvalidCharacter(b'g')));
    assert_eq!(val(b'/'), Err(FromHexError::InvalidCharacter(b'/')));
}
