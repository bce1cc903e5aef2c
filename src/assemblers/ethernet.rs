//! Writing Ethernet frames.

use vstd::prelude::*;
use crate::address::mac::Mac;
use crate::assemblers::{overwrite, write_bytes};

verus! {

/// The EtherTypes that this stack writes.
#[derive(Debug, Clone, Copy, PartialEq, Eq, Structural)]
pub enum EtherType {
    Ipv4,
    Arp,
    Ipv6,
}

/// The number of an EtherType on the wire.
pub open spec fn ethertype_value(t: EtherType) -> u16 {
    match t {
        EtherType::Ipv4 => 0x0800,
        EtherType::Arp => 0x0806,
        EtherType::Ipv6 => 0x86DD,
    }
}

impl EtherType {
    /// The number of the EtherType on the wire.
    pub fn value(self) -> (r: u16)
        ensures
            r == ethertype_value(self),
    {
        match self {
            EtherType::Ipv4 => 0x0800,
            EtherType::Arp => 0x0806,
            EtherType::Ipv6 => 0x86DD,
        }
    }
}

/// Writes an Ethernet frame into a caller's buffer. The buffer is borrowed
/// for as long as the writer lives; what the writer leaves in it is what the
/// caller finds there afterwards.
pub struct EthernetFrame<'a> {
    pub buffer: &'a mut [u8],
}

impl<'a> EthernetFrame<'a> {
    /// A writer over `buffer`.
    pub fn new(buffer: &'a mut [u8]) -> (r: Self)
        ensures
            r.buffer@ == old(buffer)@,
            final(buffer)@ == final(r.buffer)@,
    {
        EthernetFrame { buffer }
    }

    /// Writes the destination MAC address into octets 0 to 5.
    pub fn set_destination(&mut self, value: Mac)
        requires
            old(self).buffer@.len() >= 6,
        ensures
            final(self).buffer@ == overwrite(old(self).buffer@, 0, value@),
            final(final(self).buffer)@ == final(old(self).buffer)@,
    {
        let bytes = value.to_bytes();
        write_bytes(self.buffer, 0, bytes.as_slice());
    }

    /// Writes the source MAC address into octets 6 to 11.
    pub fn set_source(&mut self, value: Mac)
        requires
            old(self).buffer@.len() >= 12,
        ensures
            final(self).buffer@ == overwrite(old(self).buffer@, 6, value@),
            final(final(self).buffer)@ == final(old(self).buffer)@,
    {
        let bytes = value.to_bytes();
        write_bytes(self.buffer, 6, bytes.as_slice());
    }

    /// Writes the EtherType, big-endian, into octets 12 and 13.
    pub fn set_ethertype(&mut self, value: EtherType)
        requires
            old(self).buffer@.len() >= 14,
        ensures
            final(self).buffer@ == overwrite(
                old(self).buffer@,
                12,
                seq![(ethertype_value(value) / 256) as u8, (ethertype_value(value) % 256) as u8],
            ),
            final(final(self).buffer)@ == final(old(self).buffer)@,
    {
        let v = value.value();
        let bytes: [u8; 2] = [(v / 256) as u8, (v % 256) as u8];
        write_bytes(self.buffer, 12, bytes.as_slice());
    }

    /// The payload window: every octet after the header. What the caller
    /// writes there lands in the frame's buffer.
    pub fn mut_payload_ref(&mut self) -> (r: &mut [u8])
        requires
            old(self).buffer@.len() >= 14,
        ensures
            r@ == old(self).buffer@.subrange(14, old(self).buffer@.len() as int),
            final(self).buffer@ == old(self).buffer@.subrange(0, 14) + final(r)@,
            final(final(self).buffer)@ == final(old(self).buffer)@,
    {
        let (_header, payload) = self.buffer.split_at_mut(14);
        payload
    }
}

} // verus!
