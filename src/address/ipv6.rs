//! IPv6 addresses: sixteen octets, most significant first.

use vstd::prelude::*;
use vstd::string::StringExecFns;
use crate::address::ipv4::{ipv4_text, IPv4};
use crate::address::text::{
    all_digits, all_hex_digits, chars_of, decimal_text, decimal_value, hex_digit_value, hex_text,
    hex_value, is_digit, is_hex_digit, join, lemma_decimal_text, lemma_digits_are_hex,
    lemma_digits_no_sep, lemma_hex_text, lemma_join_no_double_sep, lemma_split_at_sep,
    lemma_split_join, lemma_split_no_sep, lemma_split_nonempty, push_hex_u16, push_str, split,
    split_chars,
};

verus! {

/// Size of an IPv6 address in octets.
pub const ADDR_SIZE: usize = 16;

/// The octets of the unspecified address `::`.
pub const UNSPECIFIED_OCTETS: [u8; 16] = [0, 0, 0, 0, 0, 0, 0, 0, 0, 0, 0, 0, 0, 0, 0, 0];

/// The octets of the loopback address `::1`.
pub const LOOPBACK_OCTETS: [u8; 16] = [0, 0, 0, 0, 0, 0, 0, 0, 0, 0, 0, 0, 0, 0, 0, 1];

/// The first twelve octets of an IPv4-mapped address.
pub const IPV4_MAPPED_PREFIX: [u8; 12] = [0, 0, 0, 0, 0, 0, 0, 0, 0, 0, 0xff, 0xff];

/// Why a text, a byte sequence or a segment sequence is not an IPv6 address.
#[derive(Debug, Clone, Copy, PartialEq, Eq, Structural)]
pub enum Ipv6AddressError {
    InvalidLength,
    InvalidFormat,
    InvalidCharacter,
    UnsupportedOperation,
}

impl Ipv6AddressError {
    /// The sentence that describes the error.
    pub open spec fn to_string_spec(&self) -> Seq<char> {
        match self {
            Ipv6AddressError::InvalidLength => "IPv6 address must have exactly 16 octets"@,
            Ipv6AddressError::InvalidFormat => "Invalid IPv6 address format"@,
            Ipv6AddressError::InvalidCharacter => "IPv6 address contains invalid characters"@,
            Ipv6AddressError::UnsupportedOperation => "Unsupported operation for IPv6 address"@,
        }
    }

    /// A sentence that describes the error.
    pub fn to_string(&self) -> (r: String)
        ensures
            r@ == self.to_string_spec(),
    {
        match self {
            Ipv6AddressError::InvalidLength => String::from_str(
                "IPv6 address must have exactly 16 octets",
            ),
            Ipv6AddressError::InvalidFormat => String::from_str("Invalid IPv6 address format"),
            Ipv6AddressError::InvalidCharacter => String::from_str(
                "IPv6 address contains invalid characters",
            ),
            Ipv6AddressError::UnsupportedOperation => String::from_str(
                "Unsupported operation for IPv6 address",
            ),
        }
    }
}

/// An IPv6 address.
#[derive(Debug, Clone, Copy, PartialEq, Eq, Hash)]
pub struct IPv6(pub [u8; 16]);

impl View for IPv6 {
    type V = Seq<u8>;

    open spec fn view(&self) -> Seq<u8> {
        self.0@
    }
}

/// The eight 16-bit groups of sixteen octets, each most significant first.
pub open spec fn segments_of(b: Seq<u8>) -> Seq<u16> {
    Seq::new(8, |i: int| (b[2 * i] as nat * 256 + b[2 * i + 1] as nat) as u16)
}

/// The octets of 16-bit groups, each most significant first.
pub open spec fn bytes_of_segments(w: Seq<u16>) -> Seq<u8> {
    Seq::new(
        2 * w.len(),
        |i: int|
            if i % 2 == 0 {
                (w[i / 2] as nat / 256) as u8
            } else {
                (w[i / 2] as nat % 256) as u8
            },
    )
}

/// Ten zero octets, then two octets 0xff.
pub open spec fn is_ipv4_mapped_octets(b: Seq<u8>) -> bool {
    &&& forall|i: int| 0 <= i < 10 ==> b[i] == 0
    &&& b[10] == 0xff
    &&& b[11] == 0xff
}

/// Each group in lowercase hexadecimal without leading zeros.
pub open spec fn hex_pieces(ws: Seq<u16>) -> Seq<Seq<char>> {
    ws.map_values(|w: u16| hex_text(w as nat))
}

/// Groups in lowercase hexadecimal without leading zeros, separated by `:`.
pub open spec fn hex_join(ws: Seq<u16>) -> Seq<char> {
    join(hex_pieces(ws), ':')
}

/// How many groups at the start of `ws` are zero (`zero`) or nonzero (`!zero`).
pub open spec fn run_length(ws: Seq<u16>, zero: bool) -> nat
    decreases ws.len(),
{
    if ws.len() == 0 || ((ws[0] == 0) != zero) {
        0
    } else {
        1 + run_length(ws.drop_first(), zero)
    }
}

/// Canonical text of an address. An IPv4-mapped address is `::ffff:`
/// followed by its last four octets in dotted decimal. Otherwise the groups
/// before the first zero group are written out, the first run of zero groups
/// becomes `::`, and the groups after it are written out, zeros included; an
/// address without a zero group is its eight groups. This is what a scan over
/// the groups with the states head, head body, tail and tail body writes.
pub open spec fn ipv6_text(b: Seq<u8>) -> Seq<char> {
    if is_ipv4_mapped_octets(b) {
        seq![':', ':', 'f', 'f', 'f', 'f', ':'] + ipv4_text(b.subrange(12, 16))
    } else {
        let ws = segments_of(b);
        let a = run_length(ws, false);
        if a == 8 {
            hex_join(ws)
        } else {
            let z = run_length(ws.subrange(a as int, 8), true);
            hex_join(ws.subrange(0, a as int)) + seq![':', ':'] + hex_join(
                ws.subrange((a + z) as int, 8),
            )
        }
    }
}

/// The run of groups that `run_length` counts ends where the first group
/// of the other kind stands.
pub proof fn lemma_run_length(ws: Seq<u16>, zero: bool, k: int)
    requires
        0 <= k <= ws.len(),
        forall|j: int| 0 <= j < k ==> ((#[trigger] ws[j]) == 0) == zero,
        k == ws.len() || ((ws[k] == 0) != zero),
    ensures
        run_length(ws, zero) == k,
    decreases k,
{
    if k > 0 {
        let t = ws.drop_first();
        assert forall|j: int| 0 <= j < k - 1 implies ((#[trigger] t[j]) == 0) == zero by {
            assert(t[j] == ws[j + 1]);
        }
        if k < ws.len() {
            assert(t[k - 1] == ws[k]);
        }
        lemma_run_length(t, zero, k - 1);
    }
}

impl IPv6 {
    /// The unspecified address `::`.
    pub fn unspecified() -> (r: Self)
        ensures
            r@ == Seq::new(16, |i: int| 0u8),
    {
        let r = IPv6(UNSPECIFIED_OCTETS);
        assert(r@ =~= Seq::new(16, |i: int| 0u8));
        r
    }

    /// The loopback address `::1`.
    pub fn loopback() -> (r: Self)
        ensures
            r@ == Seq::new(16, |i: int| if i == 15 { 1u8 } else { 0u8 }),
    {
        let r = IPv6(LOOPBACK_OCTETS);
        assert(r@ =~= Seq::new(16, |i: int| if i == 15 { 1u8 } else { 0u8 }));
        r
    }

    /// Construct an IPv6 address from its eight 16-bit groups.
    pub fn new(
        seg0: u16,
        seg1: u16,
        seg2: u16,
        seg3: u16,
        seg4: u16,
        seg5: u16,
        seg6: u16,
        seg7: u16,
    ) -> (r: Self)
        ensures
            r@ == bytes_of_segments(seq![seg0, seg1, seg2, seg3, seg4, seg5, seg6, seg7]),
    {
        let r = IPv6(
            [
                (seg0 >> 8) as u8,
                (seg0 & 0xFF) as u8,
                (seg1 >> 8) as u8,
                (seg1 & 0xFF) as u8,
                (seg2 >> 8) as u8,
                (seg2 & 0xFF) as u8,
                (seg3 >> 8) as u8,
                (seg3 & 0xFF) as u8,
                (seg4 >> 8) as u8,
                (seg4 & 0xFF) as u8,
                (seg5 >> 8) as u8,
                (seg5 & 0xFF) as u8,
                (seg6 >> 8) as u8,
                (seg6 & 0xFF) as u8,
                (seg7 >> 8) as u8,
                (seg7 & 0xFF) as u8,
            ],
        );
        proof {
            let w = seq![seg0, seg1, seg2, seg3, seg4, seg5, seg6, seg7];
            assert forall|i: int| 0 <= i < 8 implies ((#[trigger] w[i]) >> 8) as nat == w[i] as nat
                / 256 && (w[i] & 0xFF) as nat == w[i] as nat % 256 by {
                lemma_u16_halves(w[i]);
            }
            assert(r@ =~= bytes_of_segments(w));
        }
        r
    }
}

/// The high and low octets of a group.
pub proof fn lemma_u16_halves(w: u16)
    ensures
        (w >> 8) as nat == w as nat / 256,
        (w & 0xFF) as nat == w as nat % 256,
{
    assert(w >> 8 == w / 256) by (bit_vector);
    assert(w & 0xFF == w % 256) by (bit_vector);
}

/// An IPv6 address from exactly sixteen octets, most significant first.
pub fn from_bytes(data: &[u8]) -> (r: Result<IPv6, Ipv6AddressError>)
    ensures
        data@.len() == ADDR_SIZE ==> r is Ok && r->Ok_0@ == data@,
        data@.len() != ADDR_SIZE ==> r == Err::<IPv6, Ipv6AddressError>(
            Ipv6AddressError::InvalidLength,
        ),
{
    if data.len() != 16 {
        return Err(Ipv6AddressError::InvalidLength);
    }
    let mut bytes = [0u8; 16];
    let mut i: usize = 0;
    while i < 16
        invariant
            data@.len() == 16,
            i <= 16,
            forall|k: int| 0 <= k < i ==> bytes@[k] == data@[k],
        decreases 16 - i,
    {
        bytes[i] = data[i];
        i = i + 1;
    }
    let r = IPv6(bytes);
    assert(r@ =~= data@);
    Ok(r)
}

/// The sixteen octets of an address, most significant first.
pub fn to_bytes(addr: &IPv6) -> (r: &[u8])
    ensures
        r@ == addr@,
{
    addr.0.as_slice()
}

/// An IPv6 address from exactly eight 16-bit groups.
pub fn from_segments(data: &[u16]) -> (r: Result<IPv6, Ipv6AddressError>)
    ensures
        data@.len() == 8 ==> r is Ok && r->Ok_0@ == bytes_of_segments(data@),
        data@.len() != 8 ==> r == Err::<IPv6, Ipv6AddressError>(Ipv6AddressError::InvalidLength),
{
    if data.len() != 8 {
        return Err(Ipv6AddressError::InvalidLength);
    }
    let mut bytes = [0u8; 16];
    let mut i: usize = 0;
    while i < 8
        invariant
            data@.len() == 8,
            i <= 8,
            forall|k: int|
                0 <= k < 2 * i ==> bytes@[k] == #[trigger] bytes_of_segments(data@)[k],
        decreases 8 - i,
    {
        let segment = data[i];
        proof {
            lemma_u16_halves(segment);
        }
        bytes[i * 2] = (segment >> 8) as u8;
        bytes[i * 2 + 1] = (segment & 0xFF) as u8;
        i = i + 1;
    }
    let r = IPv6(bytes);
    assert(r@ =~= bytes_of_segments(data@));
    Ok(r)
}

/// The eight 16-bit groups of an address.
pub fn to_segments(addr: &IPv6) -> (r: [u16; 8])
    ensures
        r@ == segments_of(addr@),
{
    let mut segments = [0u16; 8];
    let mut i: usize = 0;
    while i < 8
        invariant
            i <= 8,
            forall|k: int| 0 <= k < i ==> segments@[k] == #[trigger] segments_of(addr@)[k],
        decreases 8 - i,
    {
        let upper = addr.0[2 * i] as u16;
        let lower = addr.0[2 * i + 1] as u16;
        segments[i] = upper * 256 + lower;
        i = i + 1;
    }
    assert(segments@ =~= segments_of(addr@));
    segments
}

} // verus!

verus! {

/// Appends `segs[from..to]` in hexadecimal, separated by `:`.
fn push_groups(out: &mut String, segs: &[u16; 8], from: usize, to: usize)
    requires
        from <= to <= 8,
    ensures
        final(out)@ == old(out)@ + hex_join(segs@.subrange(from as int, to as int)),
{
    let ghost start = out@;
    let mut i = from;
    assert(segs@.subrange(from as int, from as int).map_values(|w: u16| hex_text(w as nat))
        =~= Seq::<Seq<char>>::empty());
    assert(out@ =~= start + hex_join(segs@.subrange(from as int, i as int)));
    while i < to
        invariant
            from <= i <= to <= 8,
            out@ == start + hex_join(segs@.subrange(from as int, i as int)),
        decreases to - i,
    {
        let ghost prev = segs@.subrange(from as int, i as int);
        let ghost next = segs@.subrange(from as int, i + 1);
        let ghost f = |w: u16| hex_text(w as nat);
        assert(next.map_values(f) =~= prev.map_values(f).push(hex_text(segs@[i as int] as nat)));
        assert(next.map_values(f).drop_last() =~= prev.map_values(f));
        if i > from {
            push_str(out, ":");
            proof {
                reveal_strlit(":");
            }
        }
        push_hex_u16(out, segs[i]);
        proof {
            if i == from {
                assert(next.map_values(f) =~= seq![hex_text(segs@[i as int] as nat)]);
            }
        }
        i = i + 1;
        assert(out@ =~= start + hex_join(segs@.subrange(from as int, i as int)));
    }
}

/// Canonical text of an address: zero-compressed hexadecimal groups, or
/// `::ffff:` and dotted decimal for an IPv4-mapped address.
pub fn to_string(addr: &IPv6) -> (r: String)
    ensures
        r@ == ipv6_text(addr@),
{
    if is_ipv4_mapped(addr) {
        let mut out = String::new();
        push_str(&mut out, "::ffff:");
        let v4 = IPv4::new(addr.0[12], addr.0[13], addr.0[14], addr.0[15]);
        let t = v4.to_string();
        push_str(&mut out, t.as_str());
        proof {
            reveal_strlit("::ffff:");
            assert(v4@ =~= addr@.subrange(12, 16));
            assert(out@ =~= ipv6_text(addr@));
        }
        return out;
    }
    let segs = to_segments(addr);
    let ghost ws = segments_of(addr@);
    let mut a: usize = 0;
    while a < 8 && segs[a] != 0
        invariant
            a <= 8,
            segs@ == ws,
            forall|j: int| 0 <= j < a ==> (#[trigger] ws[j]) != 0,
        decreases 8 - a,
    {
        a = a + 1;
    }
    proof {
        lemma_run_length(ws, false, a as int);
    }
    let mut out = String::new();
    if a == 8 {
        push_groups(&mut out, &segs, 0, 8);
        assert(ws.subrange(0, 8) =~= ws);
    } else {
        push_groups(&mut out, &segs, 0, a);
        push_str(&mut out, "::");
        let mut e: usize = a;
        while e < 8 && segs[e] == 0
            invariant
                a <= e <= 8,
                segs@ == ws,
                forall|j: int| a <= j < e ==> (#[trigger] ws[j]) == 0,
            decreases 8 - e,
        {
            e = e + 1;
        }
        push_groups(&mut out, &segs, e, 8);
        proof {
            reveal_strlit("::");
            let rest = ws.subrange(a as int, 8);
            assert forall|j: int| 0 <= j < e - a implies ((#[trigger] rest[j]) == 0) == true by {
                assert(rest[j] == ws[j + a]);
            }
            if e < 8 {
                assert(rest[e - a] == ws[e as int]);
            }
            lemma_run_length(rest, true, e - a);
        }
    }
    assert(out@ =~= ipv6_text(addr@));
    out
}

/// The IPv4 address that an IPv4-mapped address carries in its last four
/// octets; `None` for any other address.
pub fn to_ipv4(addr: IPv6) -> (r: Option<IPv4>)
    ensures
        r is Some <==> is_ipv4_mapped_octets(addr@),
        r is Some ==> r->Some_0@ == addr@.subrange(12, 16),
{
    if is_ipv4_mapped(&addr) {
        let v4 = IPv4::new(addr.0[12], addr.0[13], addr.0[14], addr.0[15]);
        assert(v4@ =~= addr@.subrange(12, 16));
        Some(v4)
    } else {
        None
    }
}

/// Neither multicast nor unspecified.
pub fn is_unicast(addr: &IPv6) -> (r: bool)
    ensures
        r == (addr@[0] != 0xff && addr@ != Seq::new(16, |i: int| 0u8)),
{
    !is_multicast(addr) && !is_unspecified(addr)
}

/// The top three bits of the first octet are 001.
pub fn is_global_unicast(addr: &IPv6) -> (r: bool)
    ensures
        r == (0x20 <= addr@[0] < 0x40),
{
    let b = addr.0[0];
    assert((b >> 5 == 1) == (0x20 <= b && b < 0x40)) by (bit_vector);
    (b >> 5) == 0b001
}

/// The first octet is 0xff.
pub fn is_multicast(addr: &IPv6) -> (r: bool)
    ensures
        r == (addr@[0] == 0xff),
{
    addr.0[0] == 0xFF
}

/// Sixteen zero octets.
pub fn is_unspecified(addr: &IPv6) -> (r: bool)
    ensures
        r == (addr@ == Seq::new(16, |i: int| 0u8)),
{
    let mut i: usize = 0;
    while i < 16
        invariant
            i <= 16,
            forall|k: int| 0 <= k < i ==> addr@[k] == 0,
        decreases 16 - i,
    {
        if addr.0[i] != 0 {
            assert(addr@[i as int] != Seq::new(16, |k: int| 0u8)[i as int]);
            return false;
        }
        i = i + 1;
    }
    assert(addr@ =~= Seq::new(16, |k: int| 0u8));
    true
}

/// fe80::/10: first octet 0xfe, top two bits of the second octet 10.
pub fn is_link_local(addr: &IPv6) -> (r: bool)
    ensures
        r == (addr@[0] == 0xfe && 0x80 <= addr@[1] < 0xc0),
{
    let b = addr.0[1];
    assert((b & 0xc0 == 0x80) == (0x80 <= b && b < 0xc0)) by (bit_vector);
    addr.0[0] == 0b1111_1110 && (b & 0b1100_0000) == 0b1000_0000
}

/// fc00::/7, a unique local address: the first octet is 0xfc or 0xfd.
pub fn is_private(addr: &IPv6) -> (r: bool)
    ensures
        r == (addr@[0] == 0xfc || addr@[0] == 0xfd),
{
    let b = addr.0[0];
    assert((b & 0xfe == 0xfc) == (b == 0xfc || b == 0xfd)) by (bit_vector);
    (b & 0b1111_1110) == 0b1111_1100
}

/// The loopback address `::1`.
pub fn is_loopback(addr: &IPv6) -> (r: bool)
    ensures
        r == (addr@ == Seq::new(16, |i: int| if i == 15 { 1u8 } else { 0u8 })),
{
    let ghost lo = Seq::new(16, |i: int| if i == 15 { 1u8 } else { 0u8 });
    let mut i: usize = 0;
    while i < 16
        invariant
            i <= 16,
            lo == Seq::new(16, |i: int| if i == 15 { 1u8 } else { 0u8 }),
            forall|k: int| 0 <= k < i ==> addr@[k] == lo[k],
        decreases 16 - i,
    {
        let want: u8 = if i == 15 {
            1
        } else {
            0
        };
        if addr.0[i] != want {
            assert(addr@[i as int] != lo[i as int]);
            return false;
        }
        i = i + 1;
    }
    assert(addr@ =~= lo);
    true
}

/// Ten zero octets, then two octets 0xff.
pub fn is_ipv4_mapped(addr: &IPv6) -> (r: bool)
    ensures
        r == is_ipv4_mapped_octets(addr@),
{
    let mut i: usize = 0;
    while i < 12
        invariant
            i <= 12,
            forall|k: int| 0 <= k < i ==> addr@[k] == IPV4_MAPPED_PREFIX@[k],
        decreases 12 - i,
    {
        if addr.0[i] != IPV4_MAPPED_PREFIX[i] {
            return false;
        }
        i = i + 1;
    }
    true
}

/// ff02::1:ffXX:XXXX with each of the last three octets nonzero.
pub fn is_solicited_node_multicast(addr: &IPv6) -> (r: bool)
    ensures
        r == (addr@[0] == 0xff && addr@[1] == 0x02 && addr@[11] == 0x01 && addr@[12] == 0xff
            && addr@[13] != 0 && addr@[14] != 0 && addr@[15] != 0),
{
    addr.0[0] == 0xff && addr.0[1] == 0x02 && addr.0[11] == 0x01 && addr.0[12] == 0xff
        && addr.0[13] != 0x00 && addr.0[14] != 0x00 && addr.0[15] != 0x00
}

/// 2001:0000::/32.
pub fn is_teredo_tunneling(addr: &IPv6) -> (r: bool)
    ensures
        r == (addr@[0] == 0x20 && addr@[1] == 0x01 && addr@[2] == 0 && addr@[3] == 0),
{
    addr.0[0] == 0x20 && addr.0[1] == 0x01 && addr.0[2] == 0x00 && addr.0[3] == 0x00
}

/// 2002::/16.
pub fn is_6to4_tunneling(addr: &IPv6) -> (r: bool)
    ensures
        r == (addr@[0] == 0x20 && addr@[1] == 0x02),
{
    addr.0[0] == 0x20 && addr.0[1] == 0x02
}

/// The octet at position `i` of an address whose bits past the first
/// `prefix` are cleared.
pub open spec fn masked_octet(b: u8, i: int, prefix: nat) -> u8 {
    if 8 * (i + 1) <= prefix {
        b
    } else if prefix <= 8 * i {
        0
    } else {
        b & (0xff00u16 >> ((prefix - 8 * i) as u16)) as u8
    }
}

/// The address with every bit past the first `prefix` bits cleared.
pub fn mask(addr: &IPv6, prefix: u8) -> (r: [u8; ADDR_SIZE])
    ensures
        r@ == Seq::new(16, |i: int| masked_octet(addr@[i], i, prefix as nat)),
{
    let mut out = [0u8; 16];
    let mut i: usize = 0;
    while i < 16
        invariant
            i <= 16,
            forall|k: int| 0 <= k < i ==> out@[k] == masked_octet(addr@[k], k, prefix as nat),
        decreases 16 - i,
    {
        let lo = 8 * i;
        if 8 * (i + 1) <= prefix as usize {
            out[i] = addr.0[i];
        } else if prefix as usize <= lo {
            out[i] = 0;
        } else {
            let keep = (prefix as usize - lo) as u16;
            out[i] = addr.0[i] & (0xff00u16 >> keep) as u8;
        }
        i = i + 1;
    }
    assert(out@ =~= Seq::new(16, |i: int| masked_octet(addr@[i], i, prefix as nat)));
    out
}

} // verus!

verus! {

/// One to four hexadecimal digits, in either case.
pub open spec fn is_hex_group(p: Seq<char>) -> bool {
    1 <= p.len() <= 4 && all_hex_digits(p)
}

/// One part of an embedded IPv4 address: one to three decimal digits,
/// without a leading zero, worth at most 255.
pub open spec fn is_decimal_octet(p: Seq<char>) -> bool {
    &&& 1 <= p.len() <= 3
    &&& all_digits(p)
    &&& p.len() > 1 ==> p[0] != '0'
    &&& decimal_value(p) <= 255
}

/// An IPv4 address in dotted decimal, as the last 32 bits of an IPv6
/// address may be written.
pub open spec fn is_dotted_quad(p: Seq<char>) -> bool {
    let q = split(p, '.');
    q.len() == 4 && forall|i: int| 0 <= i < 4 ==> is_decimal_octet(#[trigger] q[i])
}

/// The groups that one piece of the text stands for: one for a hexadecimal
/// group, two for a dotted quad.
pub open spec fn piece_groups(p: Seq<char>) -> Seq<u16> {
    if is_hex_group(p) {
        seq![hex_value(p) as u16]
    } else {
        let q = split(p, '.');
        seq![
            (decimal_value(q[0]) * 256 + decimal_value(q[1])) as u16,
            (decimal_value(q[2]) * 256 + decimal_value(q[3])) as u16,
        ]
    }
}

/// Every piece is a hexadecimal group, but the last, which may be a dotted
/// quad where `quad_ok`.
pub open spec fn pieces_valid(ps: Seq<Seq<char>>, quad_ok: bool) -> bool {
    forall|i: int|
        0 <= i < ps.len() ==> is_hex_group(#[trigger] ps[i]) || (quad_ok && i == ps.len() - 1
            && is_dotted_quad(ps[i]))
}

/// The groups that a list of pieces stands for.
pub open spec fn groups_of(ps: Seq<Seq<char>>) -> Seq<u16>
    decreases ps.len(),
{
    if ps.len() == 0 {
        Seq::empty()
    } else {
        groups_of(ps.drop_last()) + piece_groups(ps.last())
    }
}

/// The pieces on one side of `::`: none where the side is empty.
pub open spec fn side_pieces(s: Seq<char>) -> Seq<Seq<char>> {
    if s.len() == 0 {
        Seq::empty()
    } else {
        split(s, ':')
    }
}

/// `::` stands at position `k` of `s`.
pub open spec fn double_colon_at(s: Seq<char>, k: int) -> bool {
    0 <= k && k + 1 < s.len() && s[k] == ':' && s[k + 1] == ':'
}

/// The position of the first `::` in `s`.
pub open spec fn first_double_colon(s: Seq<char>) -> int {
    choose|k: int| double_colon_at(s, k) && forall|j: int| 0 <= j < k ==> !double_colon_at(s, j)
}

/// The eight groups that an IPv6 text spells, or `None` where it spells no
/// address. Without `::` the text is groups separated by `:`, eight in all,
/// the last two of which may be written as a dotted quad. With `::`, the
/// first one splits the text: before it stand hexadecimal groups, after it
/// groups that may end in a dotted quad, at most seven groups in all, and
/// `::` stands for as many zero groups as are missing. A second `::` makes
/// an empty piece and so no address.
pub open spec fn ipv6_parse(s: Seq<char>) -> Option<Seq<u16>> {
    if exists|k: int| #[trigger] double_colon_at(s, k) {
        let k = first_double_colon(s);
        let head = side_pieces(s.subrange(0, k));
        let tail = side_pieces(s.subrange(k + 2, s.len() as int));
        let hg = groups_of(head);
        let tg = groups_of(tail);
        if pieces_valid(head, false) && pieces_valid(tail, true) && hg.len() + tg.len() <= 7 {
            Some(hg + Seq::new((8 - hg.len() - tg.len()) as nat, |i: int| 0u16) + tg)
        } else {
            None
        }
    } else {
        let ps = split(s, ':');
        if pieces_valid(ps, true) && groups_of(ps).len() == 8 {
            Some(groups_of(ps))
        } else {
            None
        }
    }
}

/// Reads a group of one to four hexadecimal digits.
fn parse_hex_group(p: &Vec<char>) -> (r: Option<u16>)
    ensures
        r is Some <==> is_hex_group(p@),
        r is Some ==> r->Some_0 as nat == hex_value(p@),
{
    let n = p.len();
    if n < 1 || n > 4 {
        return None;
    }
    let mut val: u32 = 0;
    let mut i: usize = 0;
    while i < n
        invariant
            n == p@.len(),
            1 <= n <= 4,
            i <= n,
            all_hex_digits(p@.subrange(0, i as int)),
            val as nat == hex_value(p@.subrange(0, i as int)),
            i == 0 ==> val == 0,
            i == 1 ==> val < 0x10,
            i == 2 ==> val < 0x100,
            i == 3 ==> val < 0x1000,
            val < 0x10000,
        decreases n - i,
    {
        let c = p[i];
        let ghost prev = p@.subrange(0, i as int);
        let ghost next = p@.subrange(0, i + 1);
        assert(next.drop_last() =~= prev);
        let d: u32 = if '0' <= c && c <= '9' {
            c as u32 - '0' as u32
        } else if 'a' <= c && c <= 'f' {
            c as u32 - 'a' as u32 + 10
        } else if 'A' <= c && c <= 'F' {
            c as u32 - 'A' as u32 + 10
        } else {
            assert(!is_hex_digit(p@[i as int]));
            return None;
        };
        assert(d as nat == hex_digit_value(c));
        val = val * 16 + d;
        assert forall|k: int| 0 <= k < next.len() implies is_hex_digit(#[trigger] next[k]) by {
            if k < prev.len() {
                assert(next[k] == prev[k]);
            }
        }
        i = i + 1;
    }
    assert(p@.subrange(0, n as int) =~= p@);
    Some(val as u16)
}

/// Reads one part of an embedded IPv4 address.
fn parse_decimal_octet(p: &Vec<char>) -> (r: Option<u16>)
    ensures
        r is Some <==> is_decimal_octet(p@),
        r is Some ==> r->Some_0 as nat == decimal_value(p@),
{
    let n = p.len();
    if n < 1 || n > 3 {
        return None;
    }
    if n > 1 && p[0] == '0' {
        return None;
    }
    let mut val: u32 = 0;
    let mut i: usize = 0;
    while i < n
        invariant
            n == p@.len(),
            1 <= n <= 3,
            i <= n,
            all_digits(p@.subrange(0, i as int)),
            val as nat == decimal_value(p@.subrange(0, i as int)),
            val < 1000,
            i == 0 ==> val == 0,
            i == 1 ==> val < 10,
            i == 2 ==> val < 100,
        decreases n - i,
    {
        let c = p[i];
        let ghost prev = p@.subrange(0, i as int);
        let ghost next = p@.subrange(0, i + 1);
        assert(next.drop_last() =~= prev);
        if !('0' <= c && c <= '9') {
            assert(!is_digit(p@[i as int]));
            return None;
        }
        val = val * 10 + (c as u32 - '0' as u32);
        assert forall|k: int| 0 <= k < next.len() implies is_digit(#[trigger] next[k]) by {
            if k < prev.len() {
                assert(next[k] == prev[k]);
            }
        }
        i = i + 1;
    }
    assert(p@.subrange(0, n as int) =~= p@);
    if val > 255 {
        return None;
    }
    Some(val as u16)
}

/// Reads an embedded IPv4 address as two groups.
fn parse_dotted_quad(p: &Vec<char>) -> (r: Option<(u16, u16)>)
    ensures
        r is Some <==> is_dotted_quad(p@),
        r is Some ==> seq![r->Some_0.0, r->Some_0.1] == piece_groups(p@),
{
    let q = split_chars(p, 0, p.len(), '.');
    assert(p@.subrange(0, p@.len() as int) =~= p@);
    let ghost qs = split(p@, '.');
    if q.len() != 4 {
        return None;
    }
    let mut vals: [u16; 4] = [0u16; 4];
    let mut i: usize = 0;
    while i < 4
        invariant
            q.len() == 4,
            q.deep_view() == qs,
            qs == split(p@, '.'),
            i <= 4,
            forall|k: int|
                0 <= k < i ==> is_decimal_octet(#[trigger] qs[k]) && vals@[k] as nat
                    == decimal_value(qs[k]),
        decreases 4 - i,
    {
        assert(q[i as int].deep_view() =~= q[i as int]@);
        assert(q.deep_view()[i as int] == q[i as int].deep_view());
        match parse_decimal_octet(&q[i]) {
            Some(v) => {
                vals[i] = v;
            },
            None => {
                return None;
            },
        }
        i = i + 1;
    }
    proof {
        assert(!is_hex_group(p@)) by {
            lemma_split_nonempty(p@, '.');
            if is_hex_group(p@) {
                assert(!p@.contains('.')) by {
                    if p@.contains('.') {
                        let j = choose|j: int| 0 <= j < p@.len() && p@[j] == '.';
                        assert(is_hex_digit(p@[j]));
                    }
                }
                lemma_split_no_sep(p@, '.');
            }
        }
    }
    assert(is_decimal_octet(qs[0]) && is_decimal_octet(qs[1]));
    assert(is_decimal_octet(qs[2]) && is_decimal_octet(qs[3]));
    Some((vals[0] * 256 + vals[1], vals[2] * 256 + vals[3]))
}

} // verus!

verus! {

/// Reads the pieces of `cs[from..to]` as groups: every piece a hexadecimal
/// group, the last possibly a dotted quad where `quad_ok`.
fn side_groups(cs: &Vec<char>, from: usize, to: usize, quad_ok: bool) -> (r: Option<Vec<u16>>)
    requires
        from <= to <= cs@.len(),
    ensures
        r is Some <==> pieces_valid(side_pieces(cs@.subrange(from as int, to as int)), quad_ok),
        r is Some ==> r->Some_0@ == groups_of(side_pieces(cs@.subrange(from as int, to as int))),
{
    let ghost s = cs@.subrange(from as int, to as int);
    let mut groups: Vec<u16> = Vec::new();
    if from == to {
        assert(side_pieces(s) =~= Seq::<Seq<char>>::empty());
        return Some(groups);
    }
    let pieces = split_chars(cs, from, to, ':');
    let ghost ps = pieces.deep_view();
    assert(ps == side_pieces(s));
    let n = pieces.len();
    let mut i: usize = 0;
    assert(ps.subrange(0, 0) =~= Seq::<Seq<char>>::empty());
    while i < n
        invariant
            n == ps.len(),
            pieces.deep_view() == ps,
            ps == side_pieces(s),
            s == cs@.subrange(from as int, to as int),
            i <= n,
            forall|j: int|
                0 <= j < i ==> is_hex_group(#[trigger] ps[j]) || (quad_ok && j == ps.len() - 1
                    && is_dotted_quad(ps[j])),
            groups@ == groups_of(ps.subrange(0, i as int)),
        decreases n - i,
    {
        assert(pieces[i as int].deep_view() =~= pieces[i as int]@);
        assert(ps[i as int] == pieces[i as int].deep_view());
        let ghost prev = ps.subrange(0, i as int);
        let ghost next = ps.subrange(0, i + 1);
        assert(next.drop_last() =~= prev);
        assert(next.last() == ps[i as int]);
        match parse_hex_group(&pieces[i]) {
            Some(g) => {
                groups.push(g);
                assert(groups@ =~= groups_of(next));
            },
            None => {
                if quad_ok && i == n - 1 {
                    match parse_dotted_quad(&pieces[i]) {
                        Some((hi, lo)) => {
                            groups.push(hi);
                            groups.push(lo);
                            assert(groups@ =~= groups_of(next));
                        },
                        None => {
                            assert(!(is_hex_group(ps[i as int]) || (quad_ok && i == ps.len() - 1
                                && is_dotted_quad(ps[i as int]))));
                            return None;
                        },
                    }
                } else {
                    assert(!(is_hex_group(ps[i as int]) || (quad_ok && i == ps.len() - 1
                        && is_dotted_quad(ps[i as int]))));
                    return None;
                }
            },
        }
        i = i + 1;
    }
    assert(ps.subrange(0, n as int) =~= ps);
    Some(groups)
}

/// Reads an IPv6 address from text: hexadecimal groups separated by `:`,
/// at most one `::` for a run of zero groups, and an optional dotted-decimal
/// IPv4 address for the last two groups.
pub fn from_string(addr_str: &str) -> (r: Result<IPv6, Ipv6AddressError>)
    ensures
        match ipv6_parse(addr_str@) {
            Some(g) => r is Ok && r->Ok_0@ == bytes_of_segments(g),
            None => r == Err::<IPv6, Ipv6AddressError>(Ipv6AddressError::InvalidFormat),
        },
{
    let cs = chars_of(addr_str);
    let ghost s = addr_str@;
    let n = cs.len();
    let mut k: usize = 0;
    let mut found = false;
    while !found && k + 1 < n
        invariant
            cs@ == s,
            n == s.len(),
            k < n || k == 0,
            found ==> double_colon_at(s, k as int),
            forall|j: int| 0 <= j < k ==> !double_colon_at(s, j),
        decreases n - k + if found {
            0int
        } else {
            1int
        },
    {
        if cs[k] == ':' && cs[k + 1] == ':' {
            found = true;
        } else {
            k = k + 1;
        }
    }
    let mut all: Vec<u16> = Vec::new();
    if found {
        proof {
            let c = first_double_colon(s);
            assert(double_colon_at(s, c) && forall|j: int| 0 <= j < c ==> !double_colon_at(s, j));
            assert(c == k);
        }
        let head = match side_groups(&cs, 0, k, false) {
            Some(g) => g,
            None => {
                return Err(Ipv6AddressError::InvalidFormat);
            },
        };
        let tail = match side_groups(&cs, k + 2, n, true) {
            Some(g) => g,
            None => {
                return Err(Ipv6AddressError::InvalidFormat);
            },
        };
        if head.len() > 7 || tail.len() > 7 - head.len() {
            return Err(Ipv6AddressError::InvalidFormat);
        }
        let zeros = 8 - head.len() - tail.len();
        let mut i: usize = 0;
        while i < head.len()
            invariant
                i <= head@.len(),
                all@ == head@.subrange(0, i as int),
            decreases head@.len() - i,
        {
            all.push(head[i]);
            i = i + 1;
            assert(all@ =~= head@.subrange(0, i as int));
        }
        let mut z: usize = 0;
        while z < zeros
            invariant
                z <= zeros,
                all@ == head@ + Seq::new(z as nat, |j: int| 0u16),
            decreases zeros - z,
        {
            all.push(0);
            z = z + 1;
            assert(all@ =~= head@ + Seq::new(z as nat, |j: int| 0u16));
        }
        let mut t: usize = 0;
        while t < tail.len()
            invariant
                t <= tail@.len(),
                all@ == head@ + Seq::new(zeros as nat, |j: int| 0u16) + tail@.subrange(0, t as int),
            decreases tail@.len() - t,
        {
            all.push(tail[t]);
            t = t + 1;
            assert(all@ =~= head@ + Seq::new(zeros as nat, |j: int| 0u16) + tail@.subrange(
                0,
                t as int,
            ));
        }
        assert(tail@.subrange(0, tail@.len() as int) =~= tail@);
    } else {
        assert(forall|j: int| !(#[trigger] double_colon_at(s, j)));
        assert(cs@.subrange(0, n as int) =~= s);
        if n == 0 {
            proof {
                assert(split(s, ':') =~= seq![Seq::<char>::empty()]);
                assert(!is_hex_group(split(s, ':')[0]));
                assert(split(Seq::<char>::empty(), '.') =~= seq![Seq::<char>::empty()]);
            }
            return Err(Ipv6AddressError::InvalidFormat);
        }
        all = match side_groups(&cs, 0, n, true) {
            Some(g) => g,
            None => {
                return Err(Ipv6AddressError::InvalidFormat);
            },
        };
        if all.len() != 8 {
            return Err(Ipv6AddressError::InvalidFormat);
        }
    }
    match from_segments(all.as_slice()) {
        Ok(a) => Ok(a),
        Err(e) => Err(e),
    }
}

} // verus!

verus! {

/// The groups of an address give back its octets.
pub proof fn lemma_octets_of_segments(b: Seq<u8>)
    requires
        b.len() == 16,
    ensures
        bytes_of_segments(segments_of(b)) == b,
{
    let w = segments_of(b);
    assert forall|i: int| 0 <= i < 16 implies #[trigger] bytes_of_segments(w)[i] == b[i] by {
        let hi = b[2 * (i / 2)] as int;
        let lo = b[2 * (i / 2) + 1] as int;
        let v = hi * 256 + lo;
        assert(0 <= hi < 256 && 0 <= lo < 256);
        assert(v / 256 == hi && v % 256 == lo) by (nonlinear_arith)
            requires
                v == hi * 256 + lo,
                0 <= hi < 256,
                0 <= lo < 256,
        ;
        assert(w[i / 2] as int == v);
        if i % 2 == 0 {
            assert(2 * (i / 2) == i);
        } else {
            assert(2 * (i / 2) + 1 == i);
        }
    }
    assert(bytes_of_segments(w) =~= b);
}

/// A group in hexadecimal is one piece that reads back as the group.
proof fn lemma_hex_piece(w: u16)
    ensures
        is_hex_group(hex_text(w as nat)),
        !hex_text(w as nat).contains(':'),
        !hex_text(w as nat).contains('.'),
        piece_groups(hex_text(w as nat)) == seq![w],
{
    lemma_hex_text(w as nat);
    lemma_digits_no_sep(hex_text(w as nat), ':');
    lemma_digits_no_sep(hex_text(w as nat), '.');
}

/// Groups written in hexadecimal are valid pieces that read back as those
/// groups.
proof fn lemma_hex_pieces(ws: Seq<u16>, quad_ok: bool)
    ensures
        pieces_valid(hex_pieces(ws), quad_ok),
        groups_of(hex_pieces(ws)) == ws,
        forall|i: int|
            0 <= i < ws.len() ==> (#[trigger] hex_pieces(ws)[i]).len()
                >= 1 && !hex_pieces(ws)[i].contains(':'),
    decreases ws.len(),
{
    let ps = hex_pieces(ws);
    assert forall|i: int| 0 <= i < ws.len() implies is_hex_group(#[trigger] ps[i]) && !ps[i].contains(
        ':',
    ) by {
        lemma_hex_piece(ws[i]);
    }
    if ws.len() > 0 {
        lemma_hex_pieces(ws.drop_last(), quad_ok);
        assert(ps.drop_last() =~= hex_pieces(ws.drop_last()));
        lemma_hex_piece(ws.last());
        assert(ps.last() == hex_text(ws.last() as nat));
        assert(ws.drop_last() + seq![ws.last()] =~= ws);
    } else {
        assert(ps =~= Seq::<Seq<char>>::empty());
    }
}

/// The pieces of groups joined in hexadecimal are the groups in hexadecimal.
proof fn lemma_hex_join_pieces(ws: Seq<u16>)
    ensures
        side_pieces(hex_join(ws)) == hex_pieces(ws),
        forall|j: int|
            0 <= j && j + 1 < hex_join(ws).len() ==> !(#[trigger] hex_join(ws)[j] == ':' && hex_join(
                ws,
            )[j + 1] == ':'),
        ws.len() >= 1 ==> hex_join(ws).len() >= 1 && hex_join(ws)[0] != ':' && hex_join(ws).last()
            != ':',
        ws.len() == 0 ==> hex_join(ws).len() == 0,
{
    let ps = hex_pieces(ws);
    lemma_hex_pieces(ws, true);
    lemma_join_no_double_sep(ps, ':');
    if ws.len() >= 1 {
        lemma_split_join(ps, ':');
    } else {
        assert(ps =~= Seq::<Seq<char>>::empty());
    }
}

/// `run_length` counts a run of groups of its kind that the other kind ends.
proof fn lemma_run_length_facts(ws: Seq<u16>, zero: bool)
    ensures
        run_length(ws, zero) <= ws.len(),
        forall|j: int| 0 <= j < run_length(ws, zero) ==> ((#[trigger] ws[j]) == 0) == zero,
        run_length(ws, zero) < ws.len() ==> ((ws[run_length(ws, zero) as int] == 0) != zero),
    decreases ws.len(),
{
    if ws.len() > 0 && ((ws[0] == 0) == zero) {
        let t = ws.drop_first();
        lemma_run_length_facts(t, zero);
        assert forall|j: int| 0 <= j < run_length(ws, zero) implies ((#[trigger] ws[j]) == 0)
            == zero by {
            if j > 0 {
                assert(ws[j] == t[j - 1]);
            }
        }
        if run_length(ws, zero) < ws.len() {
            assert(ws[run_length(ws, zero) as int] == t[run_length(t, zero) as int]);
        }
    }
}

/// The first `::` of a text is the one that no `::` precedes.
proof fn lemma_first_double_colon(s: Seq<char>, k: int)
    requires
        double_colon_at(s, k),
        forall|j: int| 0 <= j < k ==> !double_colon_at(s, j),
    ensures
        first_double_colon(s) == k,
{
    let c = first_double_colon(s);
    assert(double_colon_at(s, c) && forall|j: int| 0 <= j < c ==> !double_colon_at(s, j));
    if c < k {
        assert(!double_colon_at(s, c));
    }
    if k < c {
        assert(!double_colon_at(s, k));
    }
}

/// The embedded IPv4 address of a mapped address reads back as its two
/// groups.
proof fn lemma_quad_piece(q: Seq<u8>)
    requires
        q.len() == 4,
    ensures
        is_dotted_quad(ipv4_text(q)),
        !is_hex_group(ipv4_text(q)),
        !ipv4_text(q).contains(':'),
        piece_groups(ipv4_text(q)) == seq![
            (q[0] as nat * 256 + q[1] as nat) as u16,
            (q[2] as nat * 256 + q[3] as nat) as u16,
        ],
{
    let ps = Seq::new(4, |i: int| decimal_text(q[i] as nat));
    assert forall|i: int| 0 <= i < ps.len() implies !(#[trigger] ps[i]).contains('.') && !ps[i].contains(
        ':',
    ) && is_decimal_octet(ps[i]) && decimal_value(ps[i]) == q[i] by {
        lemma_decimal_text(q[i] as nat);
        lemma_digits_are_hex(ps[i]);
        lemma_digits_no_sep(ps[i], '.');
        lemma_digits_no_sep(ps[i], ':');
    }
    lemma_split_join(ps, '.');
    let t = ipv4_text(q);
    assert(t == join(ps, '.'));
    reveal_with_fuel(join, 4);
    assert(ps.drop_last().drop_last().drop_last() =~= seq![ps[0]]);
    let t1 = ps[0];
    let t2 = t1.push('.') + ps[1];
    let t3 = t2.push('.') + ps[2];
    assert(ps.drop_last().drop_last() =~= seq![ps[0], ps[1]]);
    assert(ps.drop_last() =~= seq![ps[0], ps[1], ps[2]]);
    assert(t == t3.push('.') + ps[3]);
    assert(t.len() >= 7);
    assert(t[t3.len() as int] == '.');
    assert(!t.contains(':')) by {
        if t.contains(':') {
            let j = choose|j: int| 0 <= j < t.len() && t[j] == ':';
            assert(j != t3.len());
            if j < t3.len() {
                assert(t3[j] == ':');
                if j < t2.len() {
                    assert(t2[j] == ':');
                    if j < t1.len() {
                        assert(ps[0].contains(':'));
                    } else if j > t1.len() {
                        assert(ps[1][j - t1.len() - 1] == ':');
                        assert(ps[1].contains(':'));
                    }
                } else if j > t2.len() {
                    assert(ps[2][j - t2.len() - 1] == ':');
                    assert(ps[2].contains(':'));
                }
            } else {
                assert(ps[3][j - t3.len() - 1] == ':');
                assert(ps[3].contains(':'));
            }
        }
    }
}

/// An IPv4-mapped address reads back from its `::ffff:` text.
proof fn lemma_round_trip_mapped(b: Seq<u8>)
    requires
        b.len() == 16,
        is_ipv4_mapped_octets(b),
    ensures
        ipv6_parse(ipv6_text(b)) == Some(segments_of(b)),
{
    let ws = segments_of(b);
    let s = ipv6_text(b);
    let q = b.subrange(12, 16);
    let qt = ipv4_text(q);
    let ffff = seq!['f', 'f', 'f', 'f'];
    let rest = ffff.push(':') + qt;
    assert(s =~= seq![':', ':'] + rest);
    assert(double_colon_at(s, 0));
    lemma_first_double_colon(s, 0);
    assert(s.subrange(0, 0) =~= Seq::<char>::empty());
    assert(s.subrange(2, s.len() as int) =~= rest);
    lemma_quad_piece(q);
    lemma_split_at_sep(ffff, qt, ':');
    assert(!ffff.contains(':')) by {
        if ffff.contains(':') {
            let j = choose|j: int| 0 <= j < ffff.len() && ffff[j] == ':';
        }
    }
    lemma_split_no_sep(ffff, ':');
    lemma_split_no_sep(qt, ':');
    let tail = seq![ffff, qt];
    assert(side_pieces(rest) =~= tail);
    assert(is_hex_group(ffff)) by {
        assert forall|i: int| 0 <= i < ffff.len() implies is_hex_digit(#[trigger] ffff[i]) by {}
    }
    assert(hex_value(ffff) == 0xffff) by {
        reveal_with_fuel(hex_value, 5);
        assert(ffff.drop_last() =~= seq!['f', 'f', 'f']);
        assert(ffff.drop_last().drop_last() =~= seq!['f', 'f']);
        assert(ffff.drop_last().drop_last().drop_last() =~= seq!['f']);
        assert(ffff.drop_last().drop_last().drop_last().drop_last() =~= Seq::<char>::empty());
    }
    assert(pieces_valid(tail, true));
    assert(pieces_valid(Seq::<Seq<char>>::empty(), false));
    assert(tail.drop_last() =~= seq![ffff]);
    assert(seq![ffff].drop_last() =~= Seq::<Seq<char>>::empty());
    let tg = groups_of(tail);
    assert(piece_groups(ffff) == seq![0xffffu16]);
    assert(groups_of(seq![ffff]) =~= groups_of(Seq::<Seq<char>>::empty()) + piece_groups(ffff));
    assert(tail.last() == qt);
    assert(tg == groups_of(seq![ffff]) + piece_groups(qt));
    assert(tg =~= seq![
        0xffffu16,
        (q[0] as nat * 256 + q[1] as nat) as u16,
        (q[2] as nat * 256 + q[3] as nat) as u16,
    ]);
    assert(groups_of(Seq::<Seq<char>>::empty()) =~= Seq::<u16>::empty());
    assert(Seq::<u16>::empty() + Seq::new(5, |i: int| 0u16) + tg =~= ws);
}

/// An address without a zero group reads back from its eight groups.
proof fn lemma_round_trip_full(b: Seq<u8>)
    requires
        b.len() == 16,
        !is_ipv4_mapped_octets(b),
        run_length(segments_of(b), false) == 8,
    ensures
        ipv6_parse(ipv6_text(b)) == Some(segments_of(b)),
{
    let ws = segments_of(b);
    let s = ipv6_text(b);
    assert(s == hex_join(ws));
    lemma_hex_join_pieces(ws);
    lemma_hex_pieces(ws, true);
    assert(!exists|k: int| #[trigger] double_colon_at(s, k));
}

/// An address with a zero group reads back from its text with `::`.
#[verifier::rlimit(40)]
proof fn lemma_round_trip_compressed(b: Seq<u8>)
    requires
        b.len() == 16,
        !is_ipv4_mapped_octets(b),
        run_length(segments_of(b), false) < 8,
    ensures
        ipv6_parse(ipv6_text(b)) == Some(segments_of(b)),
{
    let ws = segments_of(b);
    let s = ipv6_text(b);
    let a0 = run_length(ws, false);
    lemma_run_length_facts(ws, false);
    let rest = ws.subrange(a0 as int, 8);
    let z = run_length(rest, true);
    lemma_run_length_facts(rest, true);
    assert(rest[0] == ws[a0 as int]);
    assert(z >= 1);
    let h = ws.subrange(0, a0 as int);
    let t = ws.subrange((a0 + z) as int, 8);
    let hs = hex_join(h);
    let ts = hex_join(t);
    assert(s == hs + seq![':', ':'] + ts);
    let k = hs.len() as int;
    lemma_hex_join_pieces(h);
    lemma_hex_join_pieces(t);
    lemma_hex_pieces(h, false);
    lemma_hex_pieces(t, true);
    assert(double_colon_at(s, k));
    assert forall|j: int| 0 <= j < k implies !double_colon_at(s, j) by {
        if j + 1 < k {
            assert(s[j] == hs[j] && s[j + 1] == hs[j + 1]);
        } else {
            assert(s[j] == hs.last());
        }
    }
    lemma_first_double_colon(s, k);
    assert(s.subrange(0, k) =~= hs);
    assert(s.subrange(k + 2, s.len() as int) =~= ts);
    assert(h.len() + t.len() <= 7);
    assert(h + Seq::new((8 - h.len() - t.len()) as nat, |i: int| 0u16) + t =~= ws) by {
        assert forall|j: int| a0 <= j < a0 + z implies ws[j] == 0 by {
            assert(rest[j - a0] == ws[j]);
        }
    }
}

/// Reading back the canonical text of any address gives that address.
pub proof fn lemma_text_round_trip(a: IPv6)
    ensures
        ipv6_parse(ipv6_text(a@)) == Some(segments_of(a@)),
        bytes_of_segments(segments_of(a@)) == a@,
{
    let b = a@;
    lemma_octets_of_segments(b);
    if is_ipv4_mapped_octets(b) {
        lemma_round_trip_mapped(b);
    } else if run_length(segments_of(b), false) == 8 {
        lemma_round_trip_full(b);
    } else {
        lemma_run_length_facts(segments_of(b), false);
        lemma_round_trip_compressed(b);
    }
}

} // verus!
