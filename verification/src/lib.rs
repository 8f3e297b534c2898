//! A verified codec for the DNS message wire format: a fixed 512-byte
//! bounds-checked packet buffer, the bit-packed 12-byte header, the
//! length-prefixed domain-name encoding with compression-pointer
//! decompression, and the question/record/message section codecs.

pub mod conversions;
pub mod dns_message;
pub mod tabulation;
pub mod udp_packet;

use vstd::prelude::*;

verus! {

/// Error type for conversions between wire integers or variant names and
/// the closed enumerations of the message module.
#[derive(Debug, PartialEq)]
pub enum BuildEnumError {
    /// Encountered a u16 that names no variant.
    InvalidU16 { uint_16: u16 },
    /// Encountered a string that names no variant.
    InvalidStrVariant { variant_str: String },
}

} // verus!
