//! Validated read-only views over link-layer and internet-layer headers.

pub mod arp;
pub mod ethernet;
pub mod ipv4;
pub mod ipv6;

use vstd::prelude::*;
use vstd::string::StringExecFns;
use crate::address::ipv4::IPv4AddressError;
use crate::address::ipv6::Ipv6AddressError;

verus! {

/// Why a buffer cannot be read as a packet.
#[derive(Debug, Clone, Copy, PartialEq, Eq, Structural)]
pub enum ParsingError {
    BufferUnderflow,
    UnsupportedEthertype,
    InvalidPacketLength,
    IPv4AddressError(IPv4AddressError),
    Ipv6AddressError(Ipv6AddressError),
    ValidationError(ValidationError),
    Default,
}

/// Why the lengths that a header states do not fit its buffer.
#[derive(Debug, Clone, Copy, PartialEq, Eq, Structural)]
pub enum ValidationError {
    BufferTooShort,
    InvalidHeaderLength,
    HeaderLengthExceedsTotalLength,
    TotalLengthExceedsBufferLength,
    InvalidPacketLength,
    Default,
}

impl ParsingError {
    /// A sentence that describes the error.
    pub fn to_string(&self) -> (r: String)
        ensures
            r@ == match self {
                ParsingError::BufferUnderflow =>
                    "The data buffer is too short to contain a valid packet"@,
                ParsingError::UnsupportedEthertype => "The ethertype is not supported"@,
                ParsingError::InvalidPacketLength => "The packet length is invalid"@,
                ParsingError::IPv4AddressError(e) => e.to_string_spec(),
                ParsingError::Ipv6AddressError(e) => e.to_string_spec(),
                ParsingError::ValidationError(e) => e.to_string_spec(),
                ParsingError::Default => "An unspecified parsing error occurred"@,
            },
    {
        match self {
            ParsingError::BufferUnderflow => String::from_str(
                "The data buffer is too short to contain a valid packet",
            ),
            ParsingError::UnsupportedEthertype => String::from_str(
                "The ethertype is not supported",
            ),
            ParsingError::InvalidPacketLength => String::from_str("The packet length is invalid"),
            ParsingError::IPv4AddressError(e) => e.to_string(),
            ParsingError::Ipv6AddressError(e) => e.to_string(),
            ParsingError::ValidationError(e) => e.to_string(),
            ParsingError::Default => String::from_str("An unspecified parsing error occurred"),
        }
    }
}

impl ValidationError {
    /// A sentence that describes the error.
    pub fn to_string(&self) -> (r: String)
        ensures
            r@ == self.to_string_spec(),
    {
        match self {
            ValidationError::BufferTooShort => String::from_str("Buffer too short"),
            ValidationError::InvalidHeaderLength => String::from_str("Invalid header length"),
            ValidationError::HeaderLengthExceedsTotalLength => String::from_str(
                "Header length exceeds total length",
            ),
            ValidationError::TotalLengthExceedsBufferLength => String::from_str(
                "Total length exceeds buffer length",
            ),
            ValidationError::InvalidPacketLength => String::from_str(
                "The packet length is invalid",
            ),
            ValidationError::Default => String::from_str("Validation error!"),
        }
    }

    /// The sentence that describes the error.
    pub open spec fn to_string_spec(&self) -> Seq<char> {
        match self {
            ValidationError::BufferTooShort => "Buffer too short"@,
            ValidationError::InvalidHeaderLength => "Invalid header length"@,
            ValidationError::HeaderLengthExceedsTotalLength =>
                "Header length exceeds total length"@,
            ValidationError::TotalLengthExceedsBufferLength =>
                "Total length exceeds buffer length"@,
            ValidationError::InvalidPacketLength => "The packet length is invalid"@,
            ValidationError::Default => "Validation error!"@,
        }
    }
}

impl From<IPv4AddressError> for ParsingError {
    fn from(error: IPv4AddressError) -> (r: Self)
        ensures
            r == ParsingError::IPv4AddressError(error),
    {
        ParsingError::IPv4AddressError(error)
    }
}

impl vstd::std_specs::convert::FromSpecImpl<IPv4AddressError> for ParsingError {
    open spec fn obeys_from_spec() -> bool {
        true
    }

    open spec fn from_spec(v: IPv4AddressError) -> ParsingError {
        ParsingError::IPv4AddressError(v)
    }
}

impl From<Ipv6AddressError> for ParsingError {
    fn from(error: Ipv6AddressError) -> (r: Self)
        ensures
            r == ParsingError::Ipv6AddressError(error),
    {
        ParsingError::Ipv6AddressError(error)
    }
}

impl vstd::std_specs::convert::FromSpecImpl<Ipv6AddressError> for ParsingError {
    open spec fn obeys_from_spec() -> bool {
        true
    }

    open spec fn from_spec(v: Ipv6AddressError) -> ParsingError {
        ParsingError::Ipv6AddressError(v)
    }
}

impl From<ValidationError> for ParsingError {
    fn from(error: ValidationError) -> (r: Self)
        ensures
            r == ParsingError::ValidationError(error),
    {
        ParsingError::ValidationError(error)
    }
}

impl vstd::std_specs::convert::FromSpecImpl<ValidationError> for ParsingError {
    open spec fn obeys_from_spec() -> bool {
        true
    }

    open spec fn from_spec(v: ValidationError) -> ParsingError {
        ParsingError::ValidationError(v)
    }
}

/// The big-endian 16-bit number at `b[i..i + 2]`.
pub open spec fn be16(b: Seq<u8>, i: int) -> nat {
    b[i] as nat * 256 + b[i + 1] as nat
}

/// Reads the big-endian 16-bit number at `b[i..i + 2]`.
pub fn read_be16(b: &[u8], i: usize) -> (r: u16)
    requires
        i + 2 <= b@.len(),
    ensures
        r as nat == be16(b@, i as int),
{
    (b[i] as u16) * 256 + (b[i + 1] as u16)
}

} // verus!
