//! Writing IPv6 headers.

use vstd::prelude::*;
use crate::address::ipv6::{to_bytes, IPv6};
use crate::assemblers::{overwrite, write_bytes};
use crate::parsers::be16;
use crate::parsers::ipv6::{ipv6_flow_label, ipv6_traffic_class, ipv6_version};

verus! {

/// Writes an IPv6 packet into a caller's buffer. The buffer is borrowed for
/// as long as the writer lives; what the writer leaves in it is what the
/// caller finds there afterwards.
pub struct IPv6Packet<'a> {
    pub buffer: &'a mut [u8],
}

/// The header `b` once the version is written: the bottom four bits of
/// `version` in the top four bits of octet 0, all else kept.
pub open spec fn written_version(b: Seq<u8>, version: u8) -> Seq<u8> {
    b.update(0, ((version as nat % 16) * 16 + b[0] as nat % 16) as u8)
}

/// The header `b` once the traffic class is written: its top four bits in
/// the bottom of octet 0, its bottom four bits in the top of octet 1, all
/// else kept.
pub open spec fn written_traffic_class(b: Seq<u8>, traffic_class: u8) -> Seq<u8> {
    b.update(0, ((b[0] as nat / 16) * 16 + traffic_class as nat / 16) as u8).update(
        1,
        ((traffic_class as nat % 16) * 16 + b[1] as nat % 16) as u8,
    )
}

/// The header `b` once the flow label is written: the bottom 20 bits of
/// `flow_label` in the bottom of octet 1 and in octets 2 and 3, all else
/// kept.
pub open spec fn written_flow_label(b: Seq<u8>, flow_label: u32) -> Seq<u8> {
    b.update(1, ((b[1] as nat / 16) * 16 + (flow_label as nat / 0x10000) % 16) as u8).update(
        2,
        ((flow_label as nat / 0x100) % 0x100) as u8,
    ).update(3, (flow_label as nat % 0x100) as u8)
}

impl<'a> IPv6Packet<'a> {
    /// A writer over `buffer`.
    pub fn new(buffer: &'a mut [u8]) -> (r: Self)
        ensures
            r.buffer@ == old(buffer)@,
            final(buffer)@ == final(r.buffer)@,
    {
        IPv6Packet { buffer }
    }

    /// Writes the bottom four bits of `version` into the top four bits of
    /// octet 0.
    pub fn set_version(&mut self, version: u8)
        requires
            old(self).buffer@.len() >= 1,
        ensures
            final(self).buffer@ == written_version(old(self).buffer@, version),
            final(final(self).buffer)@ == final(old(self).buffer)@,
    {
        let b0 = self.buffer[0];
        let v = (b0 & 0x0F) | (version << 4);
        assert((b0 & 0x0F) | (version << 4) == (version % 16) * 16 + b0 % 16) by (bit_vector);
        self.buffer[0] = v;
    }

    /// Writes the traffic class: its top four bits into the bottom of octet
    /// 0, its bottom four bits into the top of octet 1.
    pub fn set_traffic_class(&mut self, traffic_class: u8)
        requires
            old(self).buffer@.len() >= 2,
        ensures
            final(self).buffer@ == written_traffic_class(old(self).buffer@, traffic_class),
            final(final(self).buffer)@ == final(old(self).buffer)@,
    {
        let b0 = self.buffer[0];
        let b1 = self.buffer[1];
        let tc = traffic_class;
        assert((b0 & 0xF0) | (tc >> 4) == (b0 / 16) * 16 + tc / 16) by (bit_vector);
        assert((b1 & 0x0F) | (tc << 4) == (tc % 16) * 16 + b1 % 16) by (bit_vector);
        self.buffer[0] = (b0 & 0xF0) | (tc >> 4);
        self.buffer[1] = (b1 & 0x0F) | (tc << 4);
    }

    /// Writes the bottom 20 bits of `flow_label`: four bits into the bottom
    /// of octet 1, then octets 2 and 3.
    pub fn set_flow_label(&mut self, flow_label: u32)
        requires
            old(self).buffer@.len() >= 4,
        ensures
            final(self).buffer@ == written_flow_label(old(self).buffer@, flow_label),
            final(final(self).buffer)@ == final(old(self).buffer)@,
    {
        let b1 = self.buffer[1];
        let fl = flow_label;
        assert(((b1 as u32) & 0xF0) | ((fl >> 16) & 0x0F) == (b1 as u32 / 16) * 16 + (fl / 0x10000)
            % 16) by (bit_vector);
        assert((fl >> 8) & 0xFF == (fl / 0x100) % 0x100) by (bit_vector);
        assert(fl & 0xFF == fl % 0x100) by (bit_vector);
        let v1: u32 = ((b1 as u32) & 0xF0) | ((fl >> 16) & 0x0F);
        self.buffer[1] = v1 as u8;
        self.buffer[2] = ((fl >> 8) & 0xFF) as u8;
        self.buffer[3] = (fl & 0xFF) as u8;
    }

    /// Writes the payload length, big-endian, into octets 4 and 5.
    pub fn set_payload_length(&mut self, payload_length: u16)
        requires
            old(self).buffer@.len() >= 6,
        ensures
            final(self).buffer@ == old(self).buffer@.update(4, (payload_length / 256) as u8).update(
                5,
                (payload_length % 256) as u8,
            ),
            final(final(self).buffer)@ == final(old(self).buffer)@,
    {
        self.buffer[4] = (payload_length / 256) as u8;
        self.buffer[5] = (payload_length % 256) as u8;
    }

    /// Writes the next header into octet 6.
    pub fn set_next_header(&mut self, next_header: u8)
        requires
            old(self).buffer@.len() >= 7,
        ensures
            final(self).buffer@ == old(self).buffer@.update(6, next_header),
            final(final(self).buffer)@ == final(old(self).buffer)@,
    {
        self.buffer[6] = next_header;
    }

    /// Writes the hop limit into octet 7.
    pub fn set_hop_limit(&mut self, hop_limit: u8)
        requires
            old(self).buffer@.len() >= 8,
        ensures
            final(self).buffer@ == old(self).buffer@.update(7, hop_limit),
            final(final(self).buffer)@ == final(old(self).buffer)@,
    {
        self.buffer[7] = hop_limit;
    }

    /// Writes the source address into octets 8 to 23.
    pub fn set_source(&mut self, source: IPv6)
        requires
            old(self).buffer@.len() >= 24,
        ensures
            final(self).buffer@ == overwrite(old(self).buffer@, 8, source@),
            final(final(self).buffer)@ == final(old(self).buffer)@,
    {
        write_bytes(self.buffer, 8, to_bytes(&source));
    }

    /// Writes the destination address into octets 24 to 39.
    pub fn set_destination(&mut self, destination: IPv6)
        requires
            old(self).buffer@.len() >= 40,
        ensures
            final(self).buffer@ == overwrite(old(self).buffer@, 24, destination@),
            final(final(self).buffer)@ == final(old(self).buffer)@,
    {
        write_bytes(self.buffer, 24, to_bytes(&destination));
    }

    /// The payload window: the octets after the header, as many as the
    /// payload length now written in octets 4 and 5. What the caller writes
    /// there lands in the packet's buffer.
    pub fn mut_payload_ref(&mut self) -> (r: &mut [u8])
        requires
            old(self).buffer@.len() >= 6,
            40 + be16(old(self).buffer@, 4) <= old(self).buffer@.len(),
        ensures
            r@ == old(self).buffer@.subrange(40, (40 + be16(old(self).buffer@, 4)) as int),
            final(self).buffer@ == old(self).buffer@.subrange(0, 40) + final(r)@
                + old(self).buffer@.subrange(
                (40 + be16(old(self).buffer@, 4)) as int,
                old(self).buffer@.len() as int,
            ),
            final(final(self).buffer)@ == final(old(self).buffer)@,
    {
        let payload_length = (self.buffer[4] as usize) * 256 + (self.buffer[5] as usize);
        let (_header, rest) = self.buffer.split_at_mut(40);
        let (window, _tail) = rest.split_at_mut(payload_length);
        window
    }
}

} // verus!

verus! {

/// Writing the version changes the version to the written one and leaves
/// the traffic class and the flow label, which share its octets, as they
/// were.
pub proof fn lemma_version_keeps_neighbours(b: Seq<u8>, version: u8)
    requires
        b.len() >= 4,
    ensures
        ipv6_version(written_version(b, version)) == version as nat % 16,
        ipv6_traffic_class(written_version(b, version)) == ipv6_traffic_class(b),
        ipv6_flow_label(written_version(b, version)) == ipv6_flow_label(b),
{
}

/// Writing the traffic class changes it to the written one and leaves the
/// version and the flow label, which share its octets, as they were.
pub proof fn lemma_traffic_class_keeps_neighbours(b: Seq<u8>, traffic_class: u8)
    requires
        b.len() >= 4,
    ensures
        ipv6_traffic_class(written_traffic_class(b, traffic_class)) == traffic_class as nat,
        ipv6_version(written_traffic_class(b, traffic_class)) == ipv6_version(b),
        ipv6_flow_label(written_traffic_class(b, traffic_class)) == ipv6_flow_label(b),
{
}

/// Writing the flow label changes it to the bottom 20 bits of the written
/// one and leaves the version and the traffic class as they were.
pub proof fn lemma_flow_label_keeps_neighbours(b: Seq<u8>, flow_label: u32)
    requires
        b.len() >= 4,
    ensures
        ipv6_flow_label(written_flow_label(b, flow_label)) == flow_label as nat % 0x100000,
        ipv6_version(written_flow_label(b, flow_label)) == ipv6_version(b),
        ipv6_traffic_class(written_flow_label(b, flow_label)) == ipv6_traffic_class(b),
{
    let f = flow_label as nat;
    assert(((f / 0x10000) % 16) * 0x10000 + ((f / 0x100) % 0x100) * 0x100 + f % 0x100 == f
        % 0x100000) by (nonlinear_arith);
}

} // verus!
