//! ARP packets for Ethernet and IPv4.

use vstd::prelude::*;
use vstd::slice::slice_subrange;
use crate::parsers::{be16, read_be16, ParsingError};

verus! {

/// Length of an ARP packet for Ethernet and IPv4.
pub const ARP_LENGTH: usize = 28;

/// An ARP hardware type.
#[derive(Debug, Clone, Copy, PartialEq, Eq, Structural)]
pub enum Hardware {
    /// Hardware type 1.
    Ethernet,
    /// Any other hardware type, as it stands on the wire.
    Unknown(u16),
}

/// Hardware type of a number from the wire.
pub open spec fn hardware_of(value: u16) -> Hardware {
    if value == 1 {
        Hardware::Ethernet
    } else {
        Hardware::Unknown(value)
    }
}

impl From<u16> for Hardware {
    fn from(value: u16) -> (r: Hardware)
        ensures
            r == hardware_of(value),
    {
        if value == 1 {
            Hardware::Ethernet
        } else {
            Hardware::Unknown(value)
        }
    }
}

impl vstd::std_specs::convert::FromSpecImpl<u16> for Hardware {
    open spec fn obeys_from_spec() -> bool {
        true
    }

    open spec fn from_spec(v: u16) -> Hardware {
        hardware_of(v)
    }
}

/// An ARP operation.
#[derive(Debug, Clone, Copy, PartialEq, Eq, Structural)]
pub enum Operation {
    /// Operation 1.
    Request,
    /// Operation 2.
    Reply,
    /// Any other operation, as it stands on the wire.
    Unknown(u16),
}

/// Operation of a number from the wire.
pub open spec fn operation_of(value: u16) -> Operation {
    if value == 1 {
        Operation::Request
    } else if value == 2 {
        Operation::Reply
    } else {
        Operation::Unknown(value)
    }
}

impl From<u16> for Operation {
    fn from(value: u16) -> (r: Operation)
        ensures
            r == operation_of(value),
    {
        if value == 1 {
            Operation::Request
        } else if value == 2 {
            Operation::Reply
        } else {
            Operation::Unknown(value)
        }
    }
}

impl vstd::std_specs::convert::FromSpecImpl<u16> for Operation {
    open spec fn obeys_from_spec() -> bool {
        true
    }

    open spec fn from_spec(v: u16) -> Operation {
        operation_of(v)
    }
}

/// A read-only view of an ARP packet.
pub struct ArpPacket<'a> {
    pub buffer: &'a [u8],
}

impl<'a> View for ArpPacket<'a> {
    type V = Seq<u8>;

    open spec fn view(&self) -> Seq<u8> {
        self.buffer@
    }
}

impl<'a> ArpPacket<'a> {
    /// A view of `buffer`, without any check.
    pub fn new(buffer: &'a [u8]) -> (r: Self)
        ensures
            r@ == buffer@,
    {
        ArpPacket { buffer }
    }

    /// A view of `buffer`, which must hold a whole packet.
    pub fn new_with_validation(buffer: &'a [u8]) -> (r: Result<Self, ParsingError>)
        ensures
            buffer@.len() < ARP_LENGTH ==> r == Err::<Self, ParsingError>(
                ParsingError::BufferUnderflow,
            ),
            buffer@.len() >= ARP_LENGTH ==> r is Ok && r->Ok_0@ == buffer@,
    {
        if buffer.len() < ARP_LENGTH {
            return Err(ParsingError::BufferUnderflow);
        }
        Ok(Self { buffer })
    }

    /// The hardware type, octets 0 and 1.
    pub fn hardware_type(&self) -> (r: u16)
        requires
            self@.len() >= 2,
        ensures
            r as nat == be16(self@, 0),
    {
        read_be16(self.buffer, 0)
    }

    /// The protocol type, octets 2 and 3.
    pub fn protocol_type(&self) -> (r: u16)
        requires
            self@.len() >= 4,
        ensures
            r as nat == be16(self@, 2),
    {
        read_be16(self.buffer, 2)
    }

    /// The hardware address length, octet 4.
    pub fn hardware_address_length(&self) -> (r: u8)
        requires
            self@.len() >= 5,
        ensures
            r == self@[4],
    {
        self.buffer[4]
    }

    /// The protocol address length, octet 5.
    pub fn protocol_address_length(&self) -> (r: u8)
        requires
            self@.len() >= 6,
        ensures
            r == self@[5],
    {
        self.buffer[5]
    }

    /// The operation, octets 6 and 7 (1 for a request, 2 for a reply).
    pub fn operation(&self) -> (r: u16)
        requires
            self@.len() >= 8,
        ensures
            r as nat == be16(self@, 6),
    {
        read_be16(self.buffer, 6)
    }

    /// The sender hardware address, octets 8 to 13.
    pub fn sender_hardware_address(&self) -> (r: &[u8])
        requires
            self@.len() >= 14,
        ensures
            r@ == self@.subrange(8, 14),
    {
        slice_subrange(self.buffer, 8, 14)
    }

    /// The sender protocol address, octets 14 to 17.
    pub fn sender_protocol_address(&self) -> (r: &[u8])
        requires
            self@.len() >= 18,
        ensures
            r@ == self@.subrange(14, 18),
    {
        slice_subrange(self.buffer, 14, 18)
    }

    /// The target hardware address, octets 18 to 23.
    pub fn target_hardware_address(&self) -> (r: &[u8])
        requires
            self@.len() >= 24,
        ensures
            r@ == self@.subrange(18, 24),
    {
        slice_subrange(self.buffer, 18, 24)
    }

    /// The target protocol address, octets 24 to 27.
    pub fn target_protocol_address(&self) -> (r: &[u8])
        requires
            self@.len() >= ARP_LENGTH,
        ensures
            r@ == self@.subrange(24, 28),
    {
        slice_subrange(self.buffer, 24, 28)
    }
}

} // verus!
