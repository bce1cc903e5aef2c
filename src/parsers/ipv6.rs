//! IPv6 packets: a fixed 40-octet header, then the payload.

use vstd::prelude::*;
use vstd::slice::slice_subrange;
use crate::address::ipv6::{from_bytes as ipv6_from_bytes, IPv6};
use crate::parsers::{be16, read_be16, ParsingError, ValidationError};

verus! {

/// Length of the IPv6 header, in octets.
pub const HEADER_LENGTH: usize = 40;

/// A read-only view of an IPv6 packet.
pub struct IPv6Packet<'a> {
    pub buffer: &'a [u8],
}

impl<'a> View for IPv6Packet<'a> {
    type V = Seq<u8>;

    open spec fn view(&self) -> Seq<u8> {
        self.buffer@
    }
}

/// The version, the top four bits of octet 0.
pub open spec fn ipv6_version(b: Seq<u8>) -> nat {
    b[0] as nat / 16
}

/// The traffic class: the bottom four bits of octet 0, then the top four
/// bits of octet 1.
pub open spec fn ipv6_traffic_class(b: Seq<u8>) -> nat {
    (b[0] as nat % 16) * 16 + b[1] as nat / 16
}

/// The flow label: the bottom four bits of octet 1, then octets 2 and 3.
pub open spec fn ipv6_flow_label(b: Seq<u8>) -> nat {
    (b[1] as nat % 16) * 0x10000 + b[2] as nat * 0x100 + b[3] as nat
}

/// The payload length, octets 4 and 5.
pub open spec fn ipv6_payload_length(b: Seq<u8>) -> nat {
    be16(b, 4)
}

/// The header and the payload that it announces do not fit the buffer.
pub open spec fn ipv6_length_invalid(b: Seq<u8>) -> bool {
    b.len() < HEADER_LENGTH || b.len() < HEADER_LENGTH + ipv6_payload_length(b)
}

impl<'a> IPv6Packet<'a> {
    /// A view of `buffer`, without any check.
    pub fn new(buffer: &'a [u8]) -> (r: Self)
        ensures
            r@ == buffer@,
    {
        Self { buffer }
    }

    /// A view of `buffer`, which must hold the header and the payload that
    /// the header announces.
    pub fn new_with_validation(buffer: &'a [u8]) -> (r: Result<Self, ParsingError>)
        ensures
            ipv6_length_invalid(buffer@) ==> r is Err && r->Err_0 == ParsingError::ValidationError(
                ValidationError::InvalidPacketLength,
            ),
            !ipv6_length_invalid(buffer@) ==> r is Ok && r->Ok_0@ == buffer@,
    {
        let packet = Self::new(buffer);
        match packet.check_length() {
            Ok(()) => Ok(packet),
            Err(e) => Err(e),
        }
    }

    /// Checks that the buffer holds the header and the payload that the
    /// header announces.
    pub fn check_length(&self) -> (r: Result<(), ParsingError>)
        ensures
            ipv6_length_invalid(self@) ==> r == Err::<(), ParsingError>(
                ParsingError::ValidationError(ValidationError::InvalidPacketLength),
            ),
            !ipv6_length_invalid(self@) ==> r == Ok::<(), ParsingError>(()),
    {
        let len = self.buffer.len();
        if len < HEADER_LENGTH {
            return Err(ParsingError::ValidationError(ValidationError::InvalidPacketLength));
        }
        let total = match self.total_length() {
            Ok(t) => t,
            Err(e) => {
                return Err(e);
            },
        };
        if len < total {
            Err(ParsingError::ValidationError(ValidationError::InvalidPacketLength))
        } else {
            Ok(())
        }
    }

    /// Length of the header.
    pub fn header_length(&self) -> (r: usize)
        ensures
            r == HEADER_LENGTH,
    {
        HEADER_LENGTH
    }

    /// The big-endian 16-bit field at `start`, if the buffer holds it.
    pub fn read_u16(&self, start: usize) -> (r: Result<u16, ParsingError>)
        ensures
            start + 2 <= self@.len() ==> r is Ok && r->Ok_0 as nat == be16(self@, start as int),
            start + 2 > self@.len() ==> r == Err::<u16, ParsingError>(
                ParsingError::BufferUnderflow,
            ),
    {
        let len = self.buffer.len();
        if len < 2 || start > len - 2 {
            return Err(ParsingError::BufferUnderflow);
        }
        Ok(read_be16(self.buffer, start))
    }

    /// The version, the top four bits of octet 0.
    pub fn version(&self) -> (r: u8)
        requires
            self@.len() >= 1,
        ensures
            r as nat == ipv6_version(self@),
    {
        let b = self.buffer[0];
        assert(b >> 4 == b / 16) by (bit_vector);
        b >> 4
    }

    /// The traffic class, which straddles octets 0 and 1.
    pub fn traffic_class(&self) -> (r: u8)
        requires
            self@.len() >= 2,
        ensures
            r as nat == ipv6_traffic_class(self@),
    {
        let b0 = self.buffer[0];
        let b1 = self.buffer[1];
        assert(((b0 & 0x0f) << 4) | (b1 >> 4) == (b0 % 16) * 16 + b1 / 16) by (bit_vector);
        ((b0 & 0x0f) << 4) | (b1 >> 4)
    }

    /// The 20-bit flow label: the bottom four bits of octet 1, then octets
    /// 2 and 3.
    pub fn flow_label(&self) -> (r: u32)
        requires
            self@.len() >= 4,
        ensures
            r as nat == ipv6_flow_label(self@),
    {
        let b1 = self.buffer[1] as u32;
        let b2 = self.buffer[2] as u32;
        let b3 = self.buffer[3] as u32;
        assert(((b1 & 0x0f) << 16) | (b2 << 8) | b3 == (b1 % 16) * 0x10000 + b2 * 0x100 + b3)
            by (bit_vector)
            requires
                b1 < 256,
                b2 < 256,
                b3 < 256,
        ;
        ((b1 & 0x0f) << 16) | (b2 << 8) | b3
    }

    /// The payload length, octets 4 and 5.
    pub fn payload_length(&self) -> (r: Result<u16, ParsingError>)
        ensures
            self@.len() >= 6 ==> r is Ok && r->Ok_0 as nat == ipv6_payload_length(self@),
            self@.len() < 6 ==> r == Err::<u16, ParsingError>(ParsingError::BufferUnderflow),
    {
        self.read_u16(4)
    }

    /// The header length plus the payload length.
    pub fn total_length(&self) -> (r: Result<usize, ParsingError>)
        ensures
            self@.len() >= 6 ==> r is Ok && r->Ok_0 as nat == HEADER_LENGTH
                + ipv6_payload_length(self@),
            self@.len() < 6 ==> r == Err::<usize, ParsingError>(ParsingError::BufferUnderflow),
    {
        match self.payload_length() {
            Ok(p) => Ok(self.header_length() + p as usize),
            Err(e) => Err(e),
        }
    }

    /// The next header, octet 6.
    pub fn next_header(&self) -> (r: u8)
        requires
            self@.len() >= 7,
        ensures
            r == self@[6],
    {
        self.buffer[6]
    }

    /// The hop limit, octet 7.
    pub fn hop_limit(&self) -> (r: u8)
        requires
            self@.len() >= 8,
        ensures
            r == self@[7],
    {
        self.buffer[7]
    }

    /// The source address, octets 8 to 23.
    pub fn source(&self) -> (r: Result<IPv6, ParsingError>)
        ensures
            self@.len() >= 24 ==> r is Ok && r->Ok_0@ == self@.subrange(8, 24),
            self@.len() < 24 ==> r == Err::<IPv6, ParsingError>(ParsingError::BufferUnderflow),
    {
        if self.buffer.len() < 24 {
            return Err(ParsingError::BufferUnderflow);
        }
        match ipv6_from_bytes(slice_subrange(self.buffer, 8, 24)) {
            Ok(a) => Ok(a),
            Err(e) => Err(ParsingError::from(e)),
        }
    }

    /// The destination address, octets 24 to 39.
    pub fn destination(&self) -> (r: Result<IPv6, ParsingError>)
        ensures
            self@.len() >= 40 ==> r is Ok && r->Ok_0@ == self@.subrange(24, 40),
            self@.len() < 40 ==> r == Err::<IPv6, ParsingError>(ParsingError::BufferUnderflow),
    {
        if self.buffer.len() < 40 {
            return Err(ParsingError::BufferUnderflow);
        }
        match ipv6_from_bytes(slice_subrange(self.buffer, 24, 40)) {
            Ok(a) => Ok(a),
            Err(e) => Err(ParsingError::from(e)),
        }
    }

    /// The payload: the octets from the end of the header to the total
    /// length.
    pub fn payload(&self) -> (r: Result<&'a [u8], ParsingError>)
        ensures
            self@.len() < 6 ==> r == Err::<&'a [u8], ParsingError>(ParsingError::BufferUnderflow),
            self@.len() >= 6 && ipv6_length_invalid(self@) ==> r == Err::<&'a [u8], ParsingError>(
                ParsingError::ValidationError(ValidationError::InvalidPacketLength),
            ),
            !ipv6_length_invalid(self@) ==> r is Ok && r->Ok_0@ == self@.subrange(
                HEADER_LENGTH as int,
                HEADER_LENGTH + ipv6_payload_length(self@),
            ),
    {
        let total = match self.total_length() {
            Ok(t) => t,
            Err(e) => {
                return Err(e);
            },
        };
        if self.buffer.len() < total {
            return Err(ParsingError::ValidationError(ValidationError::InvalidPacketLength));
        }
        Ok(slice_subrange(self.buffer, HEADER_LENGTH, total))
    }
}

} // verus!
