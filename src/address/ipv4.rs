//! IPv4 addresses: four octets, most significant first.

use vstd::prelude::*;
use vstd::string::StringExecFns;
use crate::address::text::{
    all_digits, chars_of, decimal_text, decimal_value, is_digit, join, lemma_decimal_text,
    lemma_digits_are_hex, lemma_digits_no_sep, lemma_split_join,
    push_decimal_u8, push_str, split, split_chars,
};

verus! {

/// Size of an IPv4 address in octets.
pub const ADDR_SIZE: usize = 4;

/// Why a text or a byte sequence is not an IPv4 address.
#[derive(Debug, Clone, Copy, PartialEq, Eq, Structural)]
pub enum IPv4AddressError {
    InvalidLength,
    InvalidFormat,
    InvalidCharacter,
    InvalidSegment,
}

impl IPv4AddressError {
    /// The sentence that describes the error.
    pub open spec fn to_string_spec(&self) -> Seq<char> {
        match self {
            IPv4AddressError::InvalidLength => "IPv4 address must have exactly 4 octets"@,
            IPv4AddressError::InvalidFormat => "Invalid IPv4 address format"@,
            IPv4AddressError::InvalidCharacter => "IPv4 address contains invalid characters"@,
            IPv4AddressError::InvalidSegment => "IPv4 address segment out of range (0-255)"@,
        }
    }

    /// A sentence that describes the error.
    pub fn to_string(&self) -> (r: String)
        ensures
            r@ == self.to_string_spec(),
    {
        match self {
            IPv4AddressError::InvalidLength => String::from_str(
                "IPv4 address must have exactly 4 octets",
            ),
            IPv4AddressError::InvalidFormat => String::from_str("Invalid IPv4 address format"),
            IPv4AddressError::InvalidCharacter => String::from_str(
                "IPv4 address contains invalid characters",
            ),
            IPv4AddressError::InvalidSegment => String::from_str(
                "IPv4 address segment out of range (0-255)",
            ),
        }
    }
}

/// An IPv4 address.
#[derive(Debug, Clone, Copy, PartialEq, Eq, Hash)]
pub struct IPv4(pub [u8; 4]);

impl View for IPv4 {
    type V = Seq<u8>;

    open spec fn view(&self) -> Seq<u8> {
        self.0@
    }
}

/// The address as a number, first octet most significant.
pub open spec fn u32_of_octets(b: Seq<u8>) -> nat {
    b[0] as nat * 0x1000000 + b[1] as nat * 0x10000 + b[2] as nat * 0x100 + b[3] as nat
}

/// The four octets of `v`, most significant first.
pub open spec fn octets_of_u32(v: u32) -> Seq<u8> {
    seq![
        (v as nat / 0x1000000) as u8,
        (v as nat / 0x10000 % 0x100) as u8,
        (v as nat / 0x100 % 0x100) as u8,
        (v as nat % 0x100) as u8,
    ]
}

/// Dotted-decimal text of an address.
pub open spec fn ipv4_text(b: Seq<u8>) -> Seq<char> {
    join(Seq::new(4, |i: int| decimal_text(b[i] as nat)), '.')
}

/// The value of one dotted-decimal part: an optional `+`, then one or more
/// decimal digits whose value fits in an octet.
pub open spec fn octet_value(p: Seq<char>) -> Option<u8> {
    let d = if p.len() > 0 && p[0] == '+' {
        p.drop_first()
    } else {
        p
    };
    if d.len() > 0 && all_digits(d) && decimal_value(d) <= 255 {
        Some(decimal_value(d) as u8)
    } else {
        None
    }
}

/// The outcome of reading `s` as dotted-decimal text: exactly four parts
/// separated by `.`, each the decimal value of an octet.
pub open spec fn ipv4_parse(s: Seq<char>) -> Result<Seq<u8>, IPv4AddressError> {
    let parts = split(s, '.');
    if parts.len() != 4 {
        Err(IPv4AddressError::InvalidLength)
    } else if exists|i: int| 0 <= i < 4 && (#[trigger] octet_value(parts[i])) is None {
        Err(IPv4AddressError::InvalidCharacter)
    } else {
        Ok(Seq::new(4, |i: int| octet_value(parts[i])->0))
    }
}

impl IPv4 {
    /// The unspecified address 0.0.0.0.
    pub fn unspecified() -> (r: Self)
        ensures
            r@ == seq![0u8, 0u8, 0u8, 0u8],
    {
        let r = IPv4([0u8; ADDR_SIZE]);
        assert(r@ =~= seq![0u8, 0u8, 0u8, 0u8]);
        r
    }

    /// The broadcast address 255.255.255.255.
    pub fn broadcast() -> (r: Self)
        ensures
            r@ == seq![255u8, 255u8, 255u8, 255u8],
    {
        let r = IPv4([0xffu8; ADDR_SIZE]);
        assert(r@ =~= seq![255u8, 255u8, 255u8, 255u8]);
        r
    }

    /// Construct an IPv4 address from its four octets.
    pub fn new(seg0: u8, seg1: u8, seg2: u8, seg3: u8) -> (r: Self)
        ensures
            r@ == seq![seg0, seg1, seg2, seg3],
    {
        let r = IPv4([seg0, seg1, seg2, seg3]);
        assert(r@ =~= seq![seg0, seg1, seg2, seg3]);
        r
    }

    /// Dotted-decimal text of the address.
    pub fn to_string(&self) -> (r: String)
        ensures
            r@ == ipv4_text(self@),
    {
        let mut out = String::new();
        push_decimal_u8(&mut out, self.0[0]);
        push_str(&mut out, ".");
        push_decimal_u8(&mut out, self.0[1]);
        push_str(&mut out, ".");
        push_decimal_u8(&mut out, self.0[2]);
        push_str(&mut out, ".");
        push_decimal_u8(&mut out, self.0[3]);
        proof {
            reveal_strlit(".");
            let ps = Seq::new(4, |i: int| decimal_text(self@[i] as nat));
            reveal_with_fuel(join, 4);
            assert(ps.drop_last().drop_last().drop_last() =~= seq![ps[0]]);
            assert(ps.drop_last().drop_last().drop_last().drop_last() =~= Seq::<Seq<char>>::empty());
            assert(out@ =~= join(ps, '.'));
        }
        out
    }

    /// The address as a single number, first octet most significant.
    pub fn to_u32(&self) -> (r: u32)
        ensures
            r == u32_of_octets(self@),
    {
        (self.0[0] as u32) * 0x1000000 + (self.0[1] as u32) * 0x10000 + (self.0[2] as u32) * 0x100
            + (self.0[3] as u32)
    }

    /// The four octets, most significant first.
    pub fn to_bytes(&self) -> (r: [u8; ADDR_SIZE])
        ensures
            r@ == self@,
    {
        self.0
    }

    /// Neither broadcast, multicast nor unspecified.
    pub fn is_unicast(&self) -> (r: bool)
        ensures
            r == (!is_broadcast_octets(self@) && !is_multicast_octets(self@) && self@[0] != 0),
    {
        !self.is_broadcast() && !self.is_multicast() && !self.is_unspecified()
    }

    /// 255.255.255.255.
    pub fn is_broadcast(&self) -> (r: bool)
        ensures
            r == is_broadcast_octets(self@),
    {
        self.0[0] == 255 && self.0[1] == 255 && self.0[2] == 255 && self.0[3] == 255
    }

    /// The top four bits of the first octet are 1110 (224 to 239).
    pub fn is_multicast(&self) -> (r: bool)
        ensures
            r == is_multicast_octets(self@),
    {
        let b = self.0[0];
        assert((b & 0xf0 == 224) == (224 <= b && b <= 239)) by (bit_vector);
        b & 0xf0 == 224
    }

    /// The first octet is 0.
    pub fn is_unspecified(&self) -> (r: bool)
        ensures
            r == (self@[0] == 0),
    {
        self.0[0] == 0
    }

    /// 169.254.0.0/16.
    pub fn is_link_local(&self) -> (r: bool)
        ensures
            r == (self@[0] == 169 && self@[1] == 254),
    {
        self.0[0] == 169 && self.0[1] == 254
    }

    /// The first octet is 127.
    pub fn is_loopback(&self) -> (r: bool)
        ensures
            r == (self@[0] == 127),
    {
        self.0[0] == 127
    }

    /// 10.0.0.0/8, 172.16.0.0/12 or 192.168.0.0/16.
    pub fn is_private(&self) -> (r: bool)
        ensures
            r == (self@[0] == 10 || (self@[0] == 172 && 16 <= self@[1] <= 31) || (self@[0] == 192
                && self@[1] == 168)),
    {
        (self.0[0] == 10) || (self.0[0] == 172 && (self.0[1] >= 16 && self.0[1] <= 31)) || (
        self.0[0] == 192 && self.0[1] == 168)
    }
}

impl std::str::FromStr for IPv4 {
    type Err = IPv4AddressError;

    fn from_str(s: &str) -> Result<Self, Self::Err> {
        from_string(s)
    }
}

/// All four octets are 255.
pub open spec fn is_broadcast_octets(b: Seq<u8>) -> bool {
    b[0] == 255 && b[1] == 255 && b[2] == 255 && b[3] == 255
}

/// The top four bits of the first octet are 1110.
pub open spec fn is_multicast_octets(b: Seq<u8>) -> bool {
    224 <= b[0] <= 239
}

} // verus!

verus! {

/// Reads one dotted-decimal part.
fn parse_octet(p: &Vec<char>) -> (r: Option<u8>)
    ensures
        r == octet_value(p@),
{
    let n = p.len();
    let start: usize = if n > 0 && p[0] == '+' {
        1
    } else {
        0
    };
    let ghost d = if p@.len() > 0 && p@[0] == '+' {
        p@.drop_first()
    } else {
        p@
    };
    assert(d =~= p@.subrange(start as int, n as int));
    let mut val: u32 = 0;
    let mut digits = true;
    let mut i = start;
    while i < n
        invariant
            start <= i <= n == p@.len(),
            d == p@.subrange(start as int, n as int),
            digits == all_digits(p@.subrange(start as int, i as int)),
            val <= 256,
            digits ==> val as nat == if decimal_value(p@.subrange(start as int, i as int)) < 256 {
                decimal_value(p@.subrange(start as int, i as int))
            } else {
                256
            },
        decreases n - i,
    {
        let c = p[i];
        let ghost prev = p@.subrange(start as int, i as int);
        let ghost next = p@.subrange(start as int, i + 1);
        assert(next.drop_last() =~= prev);
        if '0' <= c && c <= '9' {
            let v = val * 10 + (c as u32 - '0' as u32);
            val = if v > 256 {
                256
            } else {
                v
            };
            proof {
                if all_digits(prev) {
                    assert forall|k: int| 0 <= k < next.len() implies is_digit(
                        #[trigger] next[k],
                    ) by {
                        if k < prev.len() {
                            assert(next[k] == prev[k]);
                        }
                    }
                }
            }
        } else {
            digits = false;
            assert(!is_digit(next[next.len() - 1]));
        }
        if !digits {
            assert(!all_digits(next)) by {
                if !all_digits(prev) {
                    let k = choose|k: int| 0 <= k < prev.len() && !is_digit(#[trigger] prev[k]);
                    assert(next[k] == prev[k]);
                }
            }
        }
        i = i + 1;
    }
    if digits && n > start && val <= 255 {
        Some(val as u8)
    } else {
        None
    }
}

/// Reads an IPv4 address from dotted-decimal text.
pub fn from_string(addr_str: &str) -> (r: Result<IPv4, IPv4AddressError>)
    ensures
        match ipv4_parse(addr_str@) {
            Ok(b) => r is Ok && r->Ok_0@ == b,
            Err(e) => r == Err::<IPv4, IPv4AddressError>(e),
        },
{
    let cs = chars_of(addr_str);
    let parts = split_chars(&cs, 0, cs.len(), '.');
    assert(cs@.subrange(0, cs@.len() as int) =~= addr_str@);
    if parts.len() != 4 {
        return Err(IPv4AddressError::InvalidLength);
    }
    let ghost ps = split(addr_str@, '.');
    let mut bytes: [u8; 4] = [0u8; 4];
    let mut i: usize = 0;
    while i < 4
        invariant
            parts.len() == 4,
            parts.deep_view() == ps,
            ps == split(addr_str@, '.'),
            ps.len() == 4,
            i <= 4,
            forall|k: int| 0 <= k < i ==> (#[trigger] octet_value(ps[k])) == Some(bytes@[k]),
        decreases 4 - i,
    {
        assert(parts[i as int].deep_view() =~= parts[i as int]@);
        assert(parts.deep_view()[i as int] == parts[i as int].deep_view());
        match parse_octet(&parts[i]) {
            Some(v) => {
                bytes[i] = v;
            },
            None => {
                assert(octet_value(ps[i as int]) is None);
                assert(parts@.len() == 4);
                assert(exists|k: int| 0 <= k < 4 && (#[trigger] octet_value(ps[k])) is None);
                return Err(IPv4AddressError::InvalidCharacter);
            },
        }
        i = i + 1;
    }
    let r = IPv4(bytes);
    assert(r@ =~= Seq::new(4, |k: int| octet_value(ps[k])->0));
    Ok(r)
}

/// An IPv4 address from exactly four octets, most significant first.
pub fn from_bytes(data: &[u8]) -> (r: Result<IPv4, IPv4AddressError>)
    ensures
        data@.len() == ADDR_SIZE ==> r is Ok && r->Ok_0@ == data@,
        data@.len() != ADDR_SIZE ==> r == Err::<IPv4, IPv4AddressError>(
            IPv4AddressError::InvalidLength,
        ),
{
    if data.len() != ADDR_SIZE {
        return Err(IPv4AddressError::InvalidLength);
    }
    let r = IPv4([data[0], data[1], data[2], data[3]]);
    assert(r@ =~= data@);
    Ok(r)
}

/// An IPv4 address from a number, most significant octet first.
pub fn from_u32(addr: u32) -> (r: IPv4)
    ensures
        r@ == octets_of_u32(addr),
{
    let r = IPv4(
        [
            (addr / 0x1000000) as u8,
            (addr / 0x10000 % 0x100) as u8,
            (addr / 0x100 % 0x100) as u8,
            (addr % 0x100) as u8,
        ],
    );
    assert(r@ =~= octets_of_u32(addr));
    r
}

} // verus!

verus! {

/// Reading back the dotted-decimal text of any address gives that address.
pub proof fn lemma_text_round_trip(a: IPv4)
    ensures
        ipv4_parse(ipv4_text(a@)) == Ok::<Seq<u8>, IPv4AddressError>(a@),
{
    let ps = Seq::new(4, |i: int| decimal_text(a@[i] as nat));
    assert forall|i: int| 0 <= i < ps.len() implies !(#[trigger] ps[i]).contains('.') by {
        lemma_decimal_text(a@[i] as nat);
        lemma_digits_are_hex(ps[i]);
        lemma_digits_no_sep(ps[i], '.');
    }
    lemma_split_join(ps, '.');
    assert forall|i: int| 0 <= i < 4 implies (#[trigger] octet_value(ps[i])) == Some(a@[i]) by {
        lemma_decimal_text(a@[i] as nat);
        assert(ps[i][0] != '+') by {
            assert(is_digit(ps[i][0]));
        }
    }
    assert(Seq::new(4, |i: int| octet_value(ps[i])->0) =~= a@);
}

/// The number of an address and the address of a number are inverse.
pub proof fn lemma_u32_round_trip(a: IPv4, v: u32)
    ensures
        u32_of_octets(octets_of_u32(v)) == v,
        octets_of_u32(u32_of_octets(a@) as u32) == a@,
        u32_of_octets(a@) <= u32::MAX,
{
    let b = a@;
    let (b0, b1, b2, b3) = (b[0] as int, b[1] as int, b[2] as int, b[3] as int);
    let x = u32_of_octets(b) as int;
    assert(x / 0x1000000 == b0) by (nonlinear_arith)
        requires
            x == b0 * 0x1000000 + b1 * 0x10000 + b2 * 0x100 + b3,
            0 <= b1 < 256,
            0 <= b2 < 256,
            0 <= b3 < 256,
    ;
    assert(x / 0x10000 % 0x100 == b1) by (nonlinear_arith)
        requires
            x == b0 * 0x1000000 + b1 * 0x10000 + b2 * 0x100 + b3,
            0 <= b1 < 256,
            0 <= b2 < 256,
            0 <= b3 < 256,
            0 <= b0 < 256,
    ;
    assert(x / 0x100 % 0x100 == b2) by (nonlinear_arith)
        requires
            x == b0 * 0x1000000 + b1 * 0x10000 + b2 * 0x100 + b3,
            0 <= b1 < 256,
            0 <= b2 < 256,
            0 <= b3 < 256,
            0 <= b0 < 256,
    ;
    assert(octets_of_u32(u32_of_octets(b) as u32) =~= b);
    let w = v as int;
    assert((w / 0x1000000) * 0x1000000 + (w / 0x10000 % 0x100) * 0x10000 + (w / 0x100 % 0x100)
        * 0x100 + w % 0x100 == w) by (nonlinear_arith)
        requires
            0 <= w < 0x100000000,
    ;
}

} // verus!
