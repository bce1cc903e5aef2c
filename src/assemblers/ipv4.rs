//! Writing the packed fields of IPv4 headers.

use vstd::prelude::*;
use crate::parsers::ipv4::{ipv4_dscp, ipv4_ecn, ipv4_header_length, ipv4_version};

verus! {

/// Writes the fields of an IPv4 header that share octets into a caller's
/// buffer. The buffer is borrowed for as long as the writer lives; what the
/// writer leaves in it is what the caller finds there afterwards.
pub struct IPv4Packet<'a> {
    pub buffer: &'a mut [u8],
}

/// The header `b` once the version is written: the bottom four bits of
/// `version` in the top four bits of octet 0, all else kept.
pub open spec fn written_version(b: Seq<u8>, version: u8) -> Seq<u8> {
    b.update(0, ((version as nat % 16) * 16 + b[0] as nat % 16) as u8)
}

/// The header `b` once a header length of `octets` is written: `octets / 4`
/// in the bottom four bits of octet 0, all else kept.
pub open spec fn written_ihl(b: Seq<u8>, octets: u8) -> Seq<u8> {
    b.update(0, ((b[0] as nat / 16) * 16 + octets as nat / 4) as u8)
}

/// The header `b` once the DSCP is written: the bottom six bits of `dscp`
/// in the top six bits of octet 1, all else kept.
pub open spec fn written_dscp(b: Seq<u8>, dscp: u8) -> Seq<u8> {
    b.update(1, ((dscp as nat % 64) * 4 + b[1] as nat % 4) as u8)
}

/// The header `b` once the ECN is written: the bottom two bits of `ecn` in
/// the bottom two bits of octet 1, all else kept.
pub open spec fn written_ecn(b: Seq<u8>, ecn: u8) -> Seq<u8> {
    b.update(1, ((b[1] as nat / 4) * 4 + ecn as nat % 4) as u8)
}

impl<'a> IPv4Packet<'a> {
    /// A writer over `buffer`.
    pub fn new(buffer: &'a mut [u8]) -> (r: Self)
        ensures
            r.buffer@ == old(buffer)@,
            final(buffer)@ == final(r.buffer)@,
    {
        IPv4Packet { buffer }
    }

    /// Writes the bottom four bits of `version` into the top four bits of
    /// octet 0.
    pub fn set_version(&mut self, version: u8)
        requires
            old(self).buffer@.len() >= 1,
        ensures
            final(self).buffer@ == written_version(old(self).buffer@, version),
            final(final(self).buffer)@ == final(old(self).buffer)@,
    {
        let b0 = self.buffer[0];
        assert((b0 & 0x0F) | (version << 4) == (version % 16) * 16 + b0 % 16) by (bit_vector);
        self.buffer[0] = (b0 & 0x0F) | (version << 4);
    }

    /// Writes a header length of `octets`, a multiple of four up to 60, as
    /// the IHL field in the bottom four bits of octet 0.
    pub fn set_ihl(&mut self, octets: u8)
        requires
            old(self).buffer@.len() >= 1,
            octets % 4 == 0,
            octets <= 60,
        ensures
            final(self).buffer@ == written_ihl(old(self).buffer@, octets),
            final(final(self).buffer)@ == final(old(self).buffer)@,
    {
        let b0 = self.buffer[0];
        let words = octets / 4;
        assert((b0 & 0xF0) | words == (b0 / 16) * 16 + words) by (bit_vector)
            requires
                words < 16,
        ;
        self.buffer[0] = (b0 & 0xF0) | words;
    }

    /// Writes the bottom six bits of `dscp` into the top six bits of octet 1.
    pub fn set_dscp(&mut self, dscp: u8)
        requires
            old(self).buffer@.len() >= 2,
        ensures
            final(self).buffer@ == written_dscp(old(self).buffer@, dscp),
            final(final(self).buffer)@ == final(old(self).buffer)@,
    {
        let b1 = self.buffer[1];
        assert((b1 & 0x03) | (dscp << 2) == (dscp % 64) * 4 + b1 % 4) by (bit_vector);
        self.buffer[1] = (b1 & 0x03) | (dscp << 2);
    }

    /// Writes the bottom two bits of `ecn` into the bottom two bits of
    /// octet 1.
    pub fn set_ecn(&mut self, ecn: u8)
        requires
            old(self).buffer@.len() >= 2,
        ensures
            final(self).buffer@ == written_ecn(old(self).buffer@, ecn),
            final(final(self).buffer)@ == final(old(self).buffer)@,
    {
        let b1 = self.buffer[1];
        assert((b1 & 0xFC) | (ecn & 0x03) == (b1 / 4) * 4 + ecn % 4) by (bit_vector);
        self.buffer[1] = (b1 & 0xFC) | (ecn & 0x03);
    }
}

/// Writing the version changes it to the written one and leaves the header
/// length, which shares its octet, as it was.
pub proof fn lemma_version_keeps_ihl(b: Seq<u8>, version: u8)
    requires
        b.len() >= 1,
    ensures
        ipv4_version(written_version(b, version)) == version as nat % 16,
        ipv4_header_length(written_version(b, version)) == ipv4_header_length(b),
{
}

/// Writing the header length changes it to the written one and leaves the
/// version, which shares its octet, as it was.
pub proof fn lemma_ihl_keeps_version(b: Seq<u8>, octets: u8)
    requires
        b.len() >= 1,
        octets % 4 == 0,
        octets <= 60,
    ensures
        ipv4_header_length(written_ihl(b, octets)) == octets as nat,
        ipv4_version(written_ihl(b, octets)) == ipv4_version(b),
{
}

/// Writing the DSCP changes it to the written one and leaves the ECN, which
/// shares its octet, as it was.
pub proof fn lemma_dscp_keeps_ecn(b: Seq<u8>, dscp: u8)
    requires
        b.len() >= 2,
    ensures
        ipv4_dscp(written_dscp(b, dscp)) == dscp as nat % 64,
        ipv4_ecn(written_dscp(b, dscp)) == ipv4_ecn(b),
{
}

/// Writing the ECN changes it to the written one and leaves the DSCP, which
/// shares its octet, as it was.
pub proof fn lemma_ecn_keeps_dscp(b: Seq<u8>, ecn: u8)
    requires
        b.len() >= 2,
    ensures
        ipv4_ecn(written_ecn(b, ecn)) == ecn as nat % 4,
        ipv4_dscp(written_ecn(b, ecn)) == ipv4_dscp(b),
{
}

} // verus!
