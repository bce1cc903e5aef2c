//! IPv4 packets: a variable-length header, then the payload.

use vstd::prelude::*;
use vstd::slice::slice_subrange;
use crate::address::ipv4::{from_bytes as ipv4_from_bytes, IPv4};
use crate::parsers::{be16, read_be16, ParsingError, ValidationError};

verus! {

/// Shortest IPv4 header, in octets.
pub const MIN_HEADER_LENGTH: usize = 20;

/// Longest IPv4 header, in octets.
pub const MAX_HEADER_LENGTH: usize = 60;

/// What identifies a packet among the fragments of a flow.
#[derive(Debug, Clone, Copy, PartialEq, Eq)]
pub struct Key {
    pub id: u16,
    pub src_addr: IPv4,
    pub dst_addr: IPv4,
    pub protocol: u8,
}

/// A read-only view of an IPv4 packet.
pub struct IPv4Packet<'a> {
    pub buffer: &'a [u8],
}

impl<'a> View for IPv4Packet<'a> {
    type V = Seq<u8>;

    open spec fn view(&self) -> Seq<u8> {
        self.buffer@
    }
}

/// The version, the top four bits of octet 0.
pub open spec fn ipv4_version(b: Seq<u8>) -> nat {
    b[0] as nat / 16
}

/// The header length in octets: four times the bottom four bits of octet 0.
pub open spec fn ipv4_header_length(b: Seq<u8>) -> nat {
    (b[0] as nat % 16) * 4
}

/// The DSCP, the top six bits of octet 1.
pub open spec fn ipv4_dscp(b: Seq<u8>) -> nat {
    b[1] as nat / 4
}

/// The ECN, the bottom two bits of octet 1.
pub open spec fn ipv4_ecn(b: Seq<u8>) -> nat {
    b[1] as nat % 4
}

/// The total length, octets 2 and 3.
pub open spec fn ipv4_total_length(b: Seq<u8>) -> nat {
    be16(b, 2)
}

/// The outcome of the length checks, in their order: the buffer holds a
/// minimal header, the total length fits the buffer, and the header length
/// lies between the minimum and the total length.
pub open spec fn ipv4_length_check(b: Seq<u8>) -> Result<(), ParsingError> {
    if b.len() < MIN_HEADER_LENGTH {
        Err(ParsingError::ValidationError(ValidationError::InvalidHeaderLength))
    } else if ipv4_total_length(b) > b.len() {
        Err(ParsingError::ValidationError(ValidationError::TotalLengthExceedsBufferLength))
    } else if ipv4_header_length(b) < MIN_HEADER_LENGTH || ipv4_header_length(b)
        > ipv4_total_length(b) {
        Err(ParsingError::ValidationError(ValidationError::InvalidHeaderLength))
    } else {
        Ok(())
    }
}

/// The 16-bit word `w` of the header; the checksum word counts as zero
/// where `skip_checksum`.
pub open spec fn header_word(b: Seq<u8>, w: int, skip_checksum: bool) -> nat {
    if skip_checksum && w == 5 {
        0
    } else {
        be16(b, 2 * w)
    }
}

/// The running sum of the first `n` header words, where each carry out of
/// 16 bits is folded back into the low 16 bits as soon as it appears.
pub open spec fn ones_complement_sum(b: Seq<u8>, n: nat, skip_checksum: bool) -> nat
    decreases n,
{
    if n == 0 {
        0
    } else {
        let s = ones_complement_sum(b, (n - 1) as nat, skip_checksum) + header_word(
            b,
            n - 1,
            skip_checksum,
        );
        if s > 0xFFFF {
            s % 0x10000 + s / 0x10000
        } else {
            s
        }
    }
}

/// The correct checksum of a header: the complement of the folded sum of
/// all its other words.
pub open spec fn ipv4_correct_checksum(b: Seq<u8>) -> nat {
    (0xFFFF - ones_complement_sum(b, ipv4_header_length(b) / 2, true)) as nat
}

/// The header checks out: all its words, the stored checksum included,
/// sum to 0xFFFF with carries folded.
pub open spec fn ipv4_checksum_ok(b: Seq<u8>) -> bool {
    ones_complement_sum(b, ipv4_header_length(b) / 2, false) == 0xFFFF
}

/// The header length cannot be read, or lies outside the minimum and the
/// buffer.
pub open spec fn ipv4_header_length_invalid(b: Seq<u8>) -> bool {
    b.len() == 0 || ipv4_header_length(b) < MIN_HEADER_LENGTH || ipv4_header_length(b) > b.len()
}

impl<'a> IPv4Packet<'a> {
    /// A view of `buffer`, without any check.
    pub fn new(buffer: &'a [u8]) -> (r: Self)
        ensures
            r@ == buffer@,
    {
        Self { buffer }
    }

    /// A view of `buffer`, whose lengths must pass the checks of
    /// `check_length`.
    pub fn new_with_validation(buffer: &'a [u8]) -> (r: Result<Self, ParsingError>)
        ensures
            match ipv4_length_check(buffer@) {
                Ok(_) => r is Ok && r->Ok_0@ == buffer@,
                Err(e) => r is Err && r->Err_0 == e,
            },
    {
        let packet = Self::new(buffer);
        match packet.check_length() {
            Ok(()) => Ok(packet),
            Err(e) => Err(e),
        }
    }

    /// Checks, in order, that the buffer holds a minimal header, that the
    /// total length fits the buffer, and that the header length lies between
    /// the minimum and the total length.
    pub fn check_length(&self) -> (r: Result<(), ParsingError>)
        ensures
            r == ipv4_length_check(self@),
    {
        let len = self.buffer.len();
        if len < MIN_HEADER_LENGTH {
            return Err(ParsingError::ValidationError(ValidationError::InvalidHeaderLength));
        }
        let total_length = match self.total_length() {
            Ok(t) => t as usize,
            Err(e) => {
                return Err(e);
            },
        };
        if total_length > len {
            return Err(
                ParsingError::ValidationError(ValidationError::TotalLengthExceedsBufferLength),
            );
        }
        let ihl = self.ihl() as usize;
        if ihl < MIN_HEADER_LENGTH || ihl > total_length {
            return Err(ParsingError::ValidationError(ValidationError::InvalidHeaderLength));
        }
        Ok(())
    }

    /// The big-endian 16-bit field at `start`, if the buffer holds it.
    pub fn read_u16(&self, start: usize) -> (r: Result<u16, ParsingError>)
        ensures
            start + 2 <= self@.len() ==> r is Ok && r->Ok_0 as nat == be16(self@, start as int),
            start + 2 > self@.len() ==> r == Err::<u16, ParsingError>(
                ParsingError::BufferUnderflow,
            ),
    {
        let len = self.buffer.len();
        if len < 2 || start > len - 2 {
            return Err(ParsingError::BufferUnderflow);
        }
        Ok(read_be16(self.buffer, start))
    }

    /// The version, the top four bits of octet 0.
    pub fn version(&self) -> (r: u8)
        requires
            self@.len() >= 1,
        ensures
            r as nat == ipv4_version(self@),
    {
        let b = self.buffer[0];
        assert(b >> 4 == b / 16) by (bit_vector);
        b >> 4
    }

    /// The header length in octets (the IHL field times four).
    pub fn ihl(&self) -> (r: u8)
        requires
            self@.len() >= 1,
        ensures
            r as nat == ipv4_header_length(self@),
    {
        let b = self.buffer[0];
        assert((b & 0x0F) == b % 16) by (bit_vector);
        (b & 0x0F) * 4
    }

    /// The Differentiated Services Code Point, the top six bits of octet 1.
    pub fn dscp(&self) -> (r: u8)
        requires
            self@.len() >= 2,
        ensures
            r as nat == ipv4_dscp(self@),
    {
        let b = self.buffer[1];
        assert(b >> 2 == b / 4) by (bit_vector);
        b >> 2
    }

    /// The Explicit Congestion Notification, the bottom two bits of octet 1.
    pub fn ecn(&self) -> (r: u8)
        requires
            self@.len() >= 2,
        ensures
            r as nat == ipv4_ecn(self@),
    {
        let b = self.buffer[1];
        assert(b & 0x03 == b % 4) by (bit_vector);
        b & 0x03
    }

    /// The total length of the packet, octets 2 and 3.
    pub fn total_length(&self) -> (r: Result<u16, ParsingError>)
        ensures
            self@.len() >= 4 ==> r is Ok && r->Ok_0 as nat == ipv4_total_length(self@),
            self@.len() < 4 ==> r == Err::<u16, ParsingError>(ParsingError::BufferUnderflow),
    {
        self.read_u16(2)
    }

    /// The identification, octets 4 and 5.
    pub fn identification(&self) -> (r: Result<u16, ParsingError>)
        ensures
            self@.len() >= 6 ==> r is Ok && r->Ok_0 as nat == be16(self@, 4),
            self@.len() < 6 ==> r == Err::<u16, ParsingError>(ParsingError::BufferUnderflow),
    {
        self.read_u16(4)
    }

    /// The Don't Fragment flag, bit 14 of octets 6 and 7.
    pub fn dont_frag(&self) -> (r: Result<bool, ParsingError>)
        ensures
            self@.len() >= 8 ==> r is Ok && r->Ok_0 == ((be16(self@, 6) / 0x4000) % 2 == 1),
            self@.len() < 8 ==> r == Err::<bool, ParsingError>(ParsingError::BufferUnderflow),
    {
        let flags_offset = match self.read_u16(6) {
            Ok(v) => v,
            Err(e) => {
                return Err(e);
            },
        };
        assert(((flags_offset & 0x4000) > 0) == ((flags_offset / 0x4000) % 2 == 1))
            by (bit_vector);
        Ok((flags_offset & 0x4000) > 0)
    }

    /// The More Fragments flag, bit 13 of octets 6 and 7.
    pub fn more_frags(&self) -> (r: Result<bool, ParsingError>)
        ensures
            self@.len() >= 8 ==> r is Ok && r->Ok_0 == ((be16(self@, 6) / 0x2000) % 2 == 1),
            self@.len() < 8 ==> r == Err::<bool, ParsingError>(ParsingError::BufferUnderflow),
    {
        let flags_offset = match self.read_u16(6) {
            Ok(v) => v,
            Err(e) => {
                return Err(e);
            },
        };
        assert(((flags_offset & 0x2000) > 0) == ((flags_offset / 0x2000) % 2 == 1))
            by (bit_vector);
        Ok((flags_offset & 0x2000) > 0)
    }

    /// The fragment offset, the bottom 13 bits of octets 6 and 7, in units
    /// of eight octets.
    pub fn fragment_offset(&self) -> (r: Result<u16, ParsingError>)
        ensures
            self@.len() >= 8 ==> r is Ok && r->Ok_0 as nat == be16(self@, 6) % 0x2000,
            self@.len() < 8 ==> r == Err::<u16, ParsingError>(ParsingError::BufferUnderflow),
    {
        let v = match self.read_u16(6) {
            Ok(v) => v,
            Err(e) => {
                return Err(e);
            },
        };
        assert(v & 0x1FFF == v % 0x2000) by (bit_vector);
        Ok(v & 0x1FFF)
    }

    /// The time to live, octet 8.
    pub fn ttl(&self) -> (r: u8)
        requires
            self@.len() >= 9,
        ensures
            r == self@[8],
    {
        self.buffer[8]
    }

    /// The protocol of the payload, octet 9.
    pub fn protocol(&self) -> (r: u8)
        requires
            self@.len() >= 10,
        ensures
            r == self@[9],
    {
        self.buffer[9]
    }

    /// The header checksum as stored, octets 10 and 11.
    pub fn checksum(&self) -> (r: Result<u16, ParsingError>)
        ensures
            self@.len() >= 12 ==> r is Ok && r->Ok_0 as nat == be16(self@, 10),
            self@.len() < 12 ==> r == Err::<u16, ParsingError>(ParsingError::BufferUnderflow),
    {
        self.read_u16(10)
    }

    /// The source address, octets 12 to 15.
    pub fn src_addr(&self) -> (r: Result<IPv4, ParsingError>)
        ensures
            self@.len() >= 16 ==> r is Ok && r->Ok_0@ == self@.subrange(12, 16),
            self@.len() < 16 ==> r == Err::<IPv4, ParsingError>(ParsingError::BufferUnderflow),
    {
        if self.buffer.len() < 16 {
            return Err(ParsingError::BufferUnderflow);
        }
        match ipv4_from_bytes(slice_subrange(self.buffer, 12, 16)) {
            Ok(a) => Ok(a),
            Err(e) => Err(ParsingError::from(e)),
        }
    }

    /// The destination address, octets 16 to 19.
    pub fn dst_addr(&self) -> (r: Result<IPv4, ParsingError>)
        ensures
            self@.len() >= 20 ==> r is Ok && r->Ok_0@ == self@.subrange(16, 20),
            self@.len() < 20 ==> r == Err::<IPv4, ParsingError>(ParsingError::BufferUnderflow),
    {
        if self.buffer.len() < 20 {
            return Err(ParsingError::BufferUnderflow);
        }
        match ipv4_from_bytes(slice_subrange(self.buffer, 16, 20)) {
            Ok(a) => Ok(a),
            Err(e) => Err(ParsingError::from(e)),
        }
    }

    /// The options and their padding: the header past its first 20 octets.
    pub fn options(&self) -> (r: &'a [u8])
        requires
            self@.len() >= 1,
            ipv4_header_length(self@) <= self@.len(),
        ensures
            ipv4_header_length(self@) > 20 ==> r@ == self@.subrange(
                20,
                ipv4_header_length(self@) as int,
            ),
            ipv4_header_length(self@) <= 20 ==> r@.len() == 0,
    {
        let ihl = self.ihl() as usize;
        if ihl > 20 {
            slice_subrange(self.buffer, 20, ihl)
        } else {
            slice_subrange(self.buffer, 0, 0)
        }
    }

    /// The payload: the octets from the end of the header to the total
    /// length.
    pub fn payload(&self) -> (r: Result<&'a [u8], ParsingError>)
        ensures
            self@.len() < 4 ==> r == Err::<&'a [u8], ParsingError>(ParsingError::BufferUnderflow),
            self@.len() >= 4 && (ipv4_header_length(self@) > ipv4_total_length(self@)
                || ipv4_header_length(self@) < 20 || ipv4_total_length(self@) > self@.len())
                ==> r == Err::<&'a [u8], ParsingError>(ParsingError::InvalidPacketLength),
            self@.len() >= 4 && !(ipv4_header_length(self@) > ipv4_total_length(self@)
                || ipv4_header_length(self@) < 20 || ipv4_total_length(self@) > self@.len())
                ==> r is Ok && r->Ok_0@ == self@.subrange(
                ipv4_header_length(self@) as int,
                ipv4_total_length(self@) as int,
            ),
    {
        let total_length = match self.total_length() {
            Ok(t) => t as usize,
            Err(e) => {
                return Err(e);
            },
        };
        let ihl = self.ihl() as usize;
        if ihl > total_length || ihl < 20 || total_length > self.buffer.len() {
            return Err(ParsingError::InvalidPacketLength);
        }
        Ok(slice_subrange(self.buffer, ihl, total_length))
    }

    /// The identification, addresses and protocol of the packet.
    pub fn key(&self) -> (r: Result<Key, ParsingError>)
        ensures
            self@.len() < 20 ==> r == Err::<Key, ParsingError>(ParsingError::BufferUnderflow),
            self@.len() >= 20 ==> r is Ok && r->Ok_0.id as nat == be16(self@, 4)
                && r->Ok_0.src_addr@ == self@.subrange(12, 16) && r->Ok_0.dst_addr@
                == self@.subrange(16, 20) && r->Ok_0.protocol == self@[9],
    {
        let id = match self.identification() {
            Ok(v) => v,
            Err(e) => {
                return Err(e);
            },
        };
        let src_addr = match self.src_addr() {
            Ok(v) => v,
            Err(e) => {
                return Err(e);
            },
        };
        let dst_addr = match self.dst_addr() {
            Ok(v) => v,
            Err(e) => {
                return Err(e);
            },
        };
        Ok(Key { id, src_addr, dst_addr, protocol: self.protocol() })
    }

    /// Checks the header checksum: the 16-bit words of the header, the
    /// stored checksum included, are summed with each carry folded back, and
    /// the header checks out when the sum is 0xFFFF, that is when the stored
    /// checksum is the complement of the sum of the other words.
    pub fn verify_checksum(&self) -> (r: Result<bool, ParsingError>)
        ensures
            ipv4_header_length_invalid(self@) ==> r == Err::<bool, ParsingError>(
                ParsingError::ValidationError(ValidationError::InvalidHeaderLength),
            ),
            !ipv4_header_length_invalid(self@) ==> r == Ok::<bool, ParsingError>(
                ipv4_checksum_ok(self@),
            ),
    {
        if self.buffer.len() == 0 {
            return Err(ParsingError::ValidationError(ValidationError::InvalidHeaderLength));
        }
        let ihl = self.ihl() as usize;
        if ihl < 20 || ihl > self.buffer.len() {
            return Err(ParsingError::ValidationError(ValidationError::InvalidHeaderLength));
        }
        let words = ihl / 2;
        let mut sum: u32 = 0;
        let mut w: usize = 0;
        while w < words
            invariant
                words == ipv4_header_length(self@) / 2,
                2 * words <= self@.len(),
                w <= words,
                sum as nat == ones_complement_sum(self@, w as nat, false),
                sum <= 0xFFFF,
            decreases words - w,
        {
            let word = read_be16(self.buffer, 2 * w) as u32;
            sum = sum + word;
            if sum > 0xFFFF {
                let s = sum;
                assert((s & 0xFFFF) + (s >> 16) == s % 0x10000 + s / 0x10000) by (bit_vector)
                    requires
                        s <= 0x1FFFE,
                ;
                sum = (sum & 0xFFFF) + (sum >> 16);
            }
            w = w + 1;
        }
        Ok(sum == 0xFFFF)
    }
}

} // verus!

verus! {

/// The plain sum of the first `n` header words.
pub open spec fn word_total(b: Seq<u8>, n: nat, skip_checksum: bool) -> nat
    decreases n,
{
    if n == 0 {
        0
    } else {
        word_total(b, (n - 1) as nat, skip_checksum) + header_word(b, n - 1, skip_checksum)
    }
}

/// `b` with bit `k` of octet `i` inverted.
pub open spec fn flip_bit(b: Seq<u8>, i: int, k: u8) -> Seq<u8> {
    b.update(i, b[i] ^ (1u8 << k))
}

/// Folding carries keeps the sum modulo 0xFFFF, keeps it within 16 bits,
/// and gives zero only when every word is zero.
pub proof fn lemma_ones_complement_sum(b: Seq<u8>, n: nat, skip_checksum: bool)
    requires
        2 * n <= b.len(),
    ensures
        ones_complement_sum(b, n, skip_checksum) <= 0xFFFF,
        ones_complement_sum(b, n, skip_checksum) % 0xFFFF == word_total(b, n, skip_checksum)
            % 0xFFFF,
        ones_complement_sum(b, n, skip_checksum) == 0 <==> word_total(b, n, skip_checksum) == 0,
    decreases n,
{
    if n > 0 {
        lemma_ones_complement_sum(b, (n - 1) as nat, skip_checksum);
        let w = header_word(b, n - 1, skip_checksum);
        assert(w <= 0xFFFF) by {
            assert(b[2 * (n - 1)] <= 255 && b[2 * (n - 1) + 1] <= 255);
        }
        let o = ones_complement_sum(b, (n - 1) as nat, skip_checksum);
        let s = o + w;
        if s > 0xFFFF {
            assert(s / 0x10000 == 1);
            assert(s % 0x10000 == s - 0x10000);
        }
        let t = word_total(b, (n - 1) as nat, skip_checksum);
        assert((o + w) % 0xFFFF == (t + w) % 0xFFFF) by {
            vstd::arithmetic::div_mod::lemma_add_mod_noop(o as int, w as int, 0xFFFF);
            vstd::arithmetic::div_mod::lemma_add_mod_noop(t as int, w as int, 0xFFFF);
        }
        if s > 0xFFFF {
            assert((s - 0xFFFF) % 0xFFFF == s % 0xFFFF) by {
                vstd::arithmetic::div_mod::lemma_mod_sub_multiples_vanish(s as int, 0xFFFF);
            }
        }
    }
}

/// The plain sum of all words is the plain sum of the other words plus the
/// stored checksum.
proof fn lemma_word_total_split(b: Seq<u8>, n: nat)
    requires
        2 * n <= b.len(),
    ensures
        word_total(b, n, false) == word_total(b, n, true) + if n > 5 {
            be16(b, 10)
        } else {
            0
        },
    decreases n,
{
    if n > 0 {
        lemma_word_total_split(b, (n - 1) as nat);
    }
}

/// Inverting one bit of an octet moves it by a power of two below 256.
proof fn lemma_flip_octet(x: u8, k: u8)
    requires
        k < 8,
    ensures
        (x ^ (1u8 << k)) as int - x as int == (1u8 << k) as int || (x ^ (1u8 << k)) as int
            - x as int == -((1u8 << k) as int),
        1 <= (1u8 << k) <= 128,
        k >= 4 ==> (x ^ (1u8 << k)) % 16 == x % 16,
{
    assert((x ^ (1u8 << k)) == x + (1u8 << k) || (x ^ (1u8 << k)) == x - (1u8 << k))
        by (bit_vector)
        requires
            k < 8,
    ;
    assert(1 <= (1u8 << k) && (1u8 << k) <= 128) by (bit_vector)
        requires
            k < 8,
    ;
    assert(k >= 4 ==> (x ^ (1u8 << k)) % 16 == x % 16) by (bit_vector)
        requires
            k < 8,
    ;
}

/// Changing one octet moves the plain sum of all words by the change,
/// weighted by the octet's place in its word.
proof fn lemma_word_total_one_octet(b: Seq<u8>, c: Seq<u8>, i: int, n: nat)
    requires
        b.len() == c.len(),
        2 * n <= b.len(),
        0 <= i < b.len(),
        forall|j: int| 0 <= j < b.len() && j != i ==> b[j] == c[j],
    ensures
        word_total(c, n, false) == word_total(b, n, false) + if i < 2 * n {
            (c[i] as int - b[i] as int) * if i % 2 == 0 {
                256int
            } else {
                1int
            }
        } else {
            0int
        },
    decreases n,
{
    if n > 0 {
        lemma_word_total_one_octet(b, c, i, (n - 1) as nat);
        let w = n - 1;
        assert(c[2 * w] == b[2 * w] || 2 * w == i);
        assert(c[2 * w + 1] == b[2 * w + 1] || 2 * w + 1 == i);
    }
}

/// A header whose stored checksum is the correct one checks out.
pub proof fn lemma_correct_checksum_verifies(b: Seq<u8>)
    requires
        !ipv4_header_length_invalid(b),
        be16(b, 10) == ipv4_correct_checksum(b),
    ensures
        ipv4_checksum_ok(b),
{
    let n = ipv4_header_length(b) / 2;
    lemma_ones_complement_sum(b, n, true);
    lemma_ones_complement_sum(b, n, false);
    lemma_word_total_split(b, n);
    let o = ones_complement_sum(b, n, true) as int;
    let t_other = word_total(b, n, true) as int;
    let c = be16(b, 10) as int;
    let t = word_total(b, n, false) as int;
    assert(t == t_other + c);
    assert(o + c == 0xFFFF);
    assert(t % 0xFFFF == 0) by {
        vstd::arithmetic::div_mod::lemma_add_mod_noop(t_other, c, 0xFFFF);
        vstd::arithmetic::div_mod::lemma_add_mod_noop(o, c, 0xFFFF);
    }
    assert(t > 0) by {
        if t == 0 {
            assert(t_other == 0 && c == 0);
        }
    }
    let r = ones_complement_sum(b, n, false) as int;
    assert(r % 0xFFFF == 0);
    assert(r != 0);
    assert(r == 0xFFFF);
}

/// A header that checks out stops checking out when any one bit of it is
/// inverted, but for a bit of the header length field, which decides what
/// the header is.
pub proof fn lemma_checksum_detects_bit_flip(b: Seq<u8>, i: int, k: u8)
    requires
        !ipv4_header_length_invalid(b),
        ipv4_checksum_ok(b),
        0 <= i < ipv4_header_length(b),
        k < 8,
        i == 0 ==> k >= 4,
    ensures
        !ipv4_header_length_invalid(flip_bit(b, i, k)),
        ipv4_header_length(flip_bit(b, i, k)) == ipv4_header_length(b),
        !ipv4_checksum_ok(flip_bit(b, i, k)),
{
    let c = flip_bit(b, i, k);
    lemma_flip_octet(b[i], k);
    assert(c[0] as nat % 16 == b[0] as nat % 16);
    let n = ipv4_header_length(b) / 2;
    lemma_word_total_one_octet(b, c, i, n);
    lemma_ones_complement_sum(b, n, false);
    lemma_ones_complement_sum(c, n, false);
    let d = (c[i] as int - b[i] as int) * if i % 2 == 0 {
        256int
    } else {
        1int
    };
    assert(1 <= d <= 32768 || -32768 <= d <= -1);
    let t = word_total(b, n, false) as int;
    assert(t % 0xFFFF == 0);
    if ones_complement_sum(c, n, false) == 0xFFFF {
        assert((t + d) % 0xFFFF == 0);
        assert(d % 0xFFFF == 0) by {
            vstd::arithmetic::div_mod::lemma_add_mod_noop(t, d, 0xFFFF);
        }
        assert(false);
    }
}

} // verus!

verus! {

/// A buffer too short for a minimal header is refused, and a minimal
/// header with no payload, whose total length says 20, is accepted.
pub proof fn lemma_minimal_packet_validation(b: Seq<u8>)
    ensures
        b.len() < MIN_HEADER_LENGTH ==> ipv4_length_check(b) == Err::<(), ParsingError>(
            ParsingError::ValidationError(ValidationError::InvalidHeaderLength),
        ),
        b.len() == 20 && ipv4_header_length(b) == 20 && ipv4_total_length(b) == 20
            ==> ipv4_length_check(b) == Ok::<(), ParsingError>(()),
{
}

} // verus!
