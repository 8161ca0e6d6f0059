//! Conversion between bytes and their hexadecimal text.
//!
//! Decoding accepts digits of either case; encoding always writes lowercase.
//! Every function states its result over the model in [`digits`].

pub mod decode;
pub mod digits;
pub mod encode;
pub mod laws;

pub use decode::{decode, decode_to_slice, val, FromHex, FromHexError};
pub use encode::{encode, encode_to_slice};
