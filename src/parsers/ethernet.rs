//! Ethernet frames: destination, source, EtherType, payload.

use vstd::prelude::*;
use vstd::slice::slice_subrange;
use crate::parsers::{be16, read_be16, ParsingError};

verus! {

/// EtherType of IPv4.
pub const ETHERTYPE_IPV4: u16 = 0x0800;

/// EtherType of ARP.
pub const ETHERTYPE_ARP: u16 = 0x0806;

/// EtherType of IPv6.
pub const ETHERTYPE_IPV6: u16 = 0x86DD;

/// Length of an Ethernet header: two addresses and an EtherType.
pub const ETHER_MIN_LENGTH: usize = 14;

/// A read-only view of an Ethernet frame.
pub struct EthernetFrame<'a> {
    pub buffer: &'a [u8],
}

impl<'a> View for EthernetFrame<'a> {
    type V = Seq<u8>;

    open spec fn view(&self) -> Seq<u8> {
        self.buffer@
    }
}

impl<'a> EthernetFrame<'a> {
    /// A view of `buffer`, without any check.
    pub fn new(buffer: &'a [u8]) -> (r: EthernetFrame<'a>)
        ensures
            r@ == buffer@,
    {
        EthernetFrame { buffer }
    }

    /// A view of `buffer`, which must hold at least a whole header.
    pub fn new_with_validation(buffer: &'a [u8]) -> (r: Result<EthernetFrame<'a>, ParsingError>)
        ensures
            buffer@.len() < ETHER_MIN_LENGTH ==> r == Err::<EthernetFrame<'a>, ParsingError>(
                ParsingError::BufferUnderflow,
            ),
            buffer@.len() >= ETHER_MIN_LENGTH ==> r is Ok && r->Ok_0@ == buffer@,
    {
        if buffer.len() < ETHER_MIN_LENGTH {
            Err(ParsingError::BufferUnderflow)
        } else {
            Ok(EthernetFrame { buffer })
        }
    }

    /// The destination MAC address, octets 0 to 5.
    pub fn destination(&self) -> (r: &[u8])
        requires
            self@.len() >= 6,
        ensures
            r@ == self@.subrange(0, 6),
    {
        slice_subrange(self.buffer, 0, 6)
    }

    /// The source MAC address, octets 6 to 11.
    pub fn source(&self) -> (r: &[u8])
        requires
            self@.len() >= 12,
        ensures
            r@ == self@.subrange(6, 12),
    {
        slice_subrange(self.buffer, 6, 12)
    }

    /// The EtherType, octets 12 and 13, big-endian.
    pub fn ethertype(&self) -> (r: u16)
        requires
            self@.len() >= ETHER_MIN_LENGTH,
        ensures
            r as nat == be16(self@, 12),
    {
        read_be16(self.buffer, 12)
    }

    /// Everything after the header.
    pub fn payload(&self) -> (r: &'a [u8])
        requires
            self@.len() >= ETHER_MIN_LENGTH,
        ensures
            r@ == self@.subrange(ETHER_MIN_LENGTH as int, self@.len() as int),
    {
        slice_subrange(self.buffer, Self::header_length(), self.buffer.len())
    }

    /// Length of the header.
    pub fn header_length() -> (r: usize)
        ensures
            r == ETHER_MIN_LENGTH,
    {
        ETHER_MIN_LENGTH
    }
}

} // verus!
