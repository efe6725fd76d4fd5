//! Short names for numbers, and back.
//!
//! A number is written in bijective base-N over a character set of N symbols:
//! every non-empty string of symbols stands for exactly one natural number,
//! and every natural number has exactly one such string. Signed numbers are
//! first folded onto the unsigned ones.

pub mod arguments;
pub mod builtin;
pub mod charset;
pub mod decode;
pub mod encode;
pub mod numeral;
pub mod roundtrip;
pub mod signs;
pub mod typ;
pub mod util;

pub use crate::arguments::Name2NrArgs;
pub use crate::arguments::Nr2NameArgs;
pub use crate::builtin::base32;
pub use crate::builtin::base32crockford;
pub use crate::builtin::base32hex;
pub use crate::builtin::base32human;
pub use crate::builtin::base32lowercase;
pub use crate::builtin::base32scny;
pub use crate::builtin::base64;
pub use crate::builtin::base64url;
pub use crate::builtin::charset_by_identifier;
pub use crate::builtin::hex;
pub use crate::builtin::hexlowercase;
pub use crate::charset::Case;
pub use crate::charset::Charset;
pub use crate::decode::name2number;
pub use crate::decode::name2number_i128;
pub use crate::decode::name2number_i16;
pub use crate::decode::name2number_i32;
pub use crate::decode::name2number_i64;
pub use crate::decode::name2number_u128;
pub use crate::decode::name2number_u16;
pub use crate::decode::name2number_u32;
pub use crate::decode::name2number_u64;
pub use crate::encode::number2name;
pub use crate::encode::number2name_i128;
pub use crate::encode::number2name_i16;
pub use crate::encode::number2name_i32;
pub use crate::encode::number2name_i64;
pub use crate::encode::number2name_u128;
pub use crate::encode::number2name_u16;
pub use crate::encode::number2name_u32;
pub use crate::encode::number2name_u64;
pub use crate::signs::signed2unsigned;
pub use crate::signs::signed2unsigned_128;
pub use crate::signs::signed2unsigned_16;
pub use crate::signs::signed2unsigned_32;
pub use crate::signs::signed2unsigned_64;
pub use crate::signs::unsigned2signed;
pub use crate::signs::unsigned2signed_128;
pub use crate::signs::unsigned2signed_16;
pub use crate::signs::unsigned2signed_32;
pub use crate::signs::unsigned2signed_64;
pub use crate::typ::N2NErr;
pub use crate::util::lower;
