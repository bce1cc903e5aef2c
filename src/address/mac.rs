//! MAC addresses: six octets, most significant first.

use vstd::prelude::*;
use vstd::string::StringExecFns;
use crate::address::text::{
    all_hex_digits, chars_of, hex_char, hex_digit_value, hex_pair, is_hex_digit, join,
    lemma_hex_char, push_hex_pair, push_str,
};

verus! {

/// Why a text or a byte sequence is not a MAC address.
#[derive(Debug, Clone, Copy, PartialEq, Eq, Structural)]
pub enum MacAddressParseError {
    InvalidLength,
    InvalidFormat,
    InvalidCharacter,
}

impl MacAddressParseError {
    /// A sentence that describes the error.
    pub fn to_string(&self) -> (r: String)
        ensures
            r@ == match self {
                MacAddressParseError::InvalidLength => "MAC address must have exactly 6 octets"@,
                MacAddressParseError::InvalidFormat =>
                    "Each octet in a MAC address must be two hexadecimal digits"@,
                MacAddressParseError::InvalidCharacter =>
                    "MAC address contains invalid hexadecimal characters"@,
            },
    {
        match self {
            MacAddressParseError::InvalidLength => String::from_str(
                "MAC address must have exactly 6 octets",
            ),
            MacAddressParseError::InvalidFormat => String::from_str(
                "Each octet in a MAC address must be two hexadecimal digits",
            ),
            MacAddressParseError::InvalidCharacter => String::from_str(
                "MAC address contains invalid hexadecimal characters",
            ),
        }
    }
}

/// A MAC address.
#[derive(Debug, Clone, Copy, PartialEq, Eq, Hash)]
pub struct Mac(pub [u8; 6]);

impl View for Mac {
    type V = Seq<u8>;

    open spec fn view(&self) -> Seq<u8> {
        self.0@
    }
}

/// `:`, `-` and `.` group the digits of a MAC address.
pub open spec fn is_delimiter(c: char) -> bool {
    c == ':' || c == '-' || c == '.'
}

/// `s` without its delimiters.
pub open spec fn strip_delimiters(s: Seq<char>) -> Seq<char>
    decreases s.len(),
{
    if s.len() == 0 {
        s
    } else if is_delimiter(s.last()) {
        strip_delimiters(s.drop_last())
    } else {
        strip_delimiters(s.drop_last()).push(s.last())
    }
}

/// The outcome of reading `s` as a MAC address: without delimiters it must
/// be exactly twelve hexadecimal digits, two for each octet.
pub open spec fn mac_parse(s: Seq<char>) -> Result<Seq<u8>, MacAddressParseError> {
    let d = strip_delimiters(s);
    if d.len() != 12 {
        Err(MacAddressParseError::InvalidLength)
    } else if !all_hex_digits(d) {
        Err(MacAddressParseError::InvalidCharacter)
    } else {
        Ok(
            Seq::new(
                6,
                |i: int| (hex_digit_value(d[2 * i]) * 16 + hex_digit_value(d[2 * i + 1])) as u8,
            ),
        )
    }
}

/// Six pairs of lowercase hexadecimal digits separated by `:`.
pub open spec fn mac_text(b: Seq<u8>) -> Seq<char> {
    join(Seq::new(6, |i: int| hex_pair(b[i])), ':')
}

impl Mac {
    /// Construct a MAC address from its six octets.
    pub fn new(seg0: u8, seg1: u8, seg2: u8, seg3: u8, seg4: u8, seg5: u8) -> (r: Self)
        ensures
            r@ == seq![seg0, seg1, seg2, seg3, seg4, seg5],
    {
        let r = Mac([seg0, seg1, seg2, seg3, seg4, seg5]);
        assert(r@ =~= seq![seg0, seg1, seg2, seg3, seg4, seg5]);
        r
    }

    /// The address as six pairs of lowercase hexadecimal digits separated by `:`.
    pub fn to_string(&self) -> (r: String)
        ensures
            r@ == mac_text(self@),
    {
        let mut out = String::new();
        let mut i: usize = 0;
        let ghost ps = Seq::new(6, |k: int| hex_pair(self@[k]));
        while i < 6
            invariant
                i <= 6,
                ps == Seq::new(6, |k: int| hex_pair(self@[k])),
                out@ == join(ps.subrange(0, i as int), ':'),
            decreases 6 - i,
        {
            let ghost prev = ps.subrange(0, i as int);
            let ghost next = ps.subrange(0, i + 1);
            assert(next.drop_last() =~= prev);
            if i > 0 {
                push_str(&mut out, ":");
                proof {
                    reveal_strlit(":");
                }
            }
            push_hex_pair(&mut out, self.0[i]);
            proof {
                if i == 0 {
                    assert(prev =~= Seq::<Seq<char>>::empty());
                }
            }
            i = i + 1;
            assert(out@ =~= join(ps.subrange(0, i as int), ':'));
        }
        assert(ps.subrange(0, 6) =~= ps);
        out
    }

    /// The six octets, most significant first.
    pub fn to_bytes(&self) -> (r: [u8; 6])
        ensures
            r@ == self@,
    {
        self.0
    }

    /// The lowest bit of the first octet is set.
    pub fn is_multicast(&self) -> (r: bool)
        ensures
            r == (self@[0] % 2 == 1),
    {
        let b = self.0[0];
        assert((b & 0x01 != 0) == (b % 2 == 1)) by (bit_vector);
        (b & 0x01) != 0
    }

    /// The second-lowest bit of the first octet is set: a locally
    /// administered address.
    pub fn is_local(&self) -> (r: bool)
        ensures
            r == ((self@[0] / 2) % 2 == 1),
    {
        let b = self.0[0];
        assert((b & 0x02 != 0) == ((b / 2) % 2 == 1)) by (bit_vector);
        (b & 0x02) != 0
    }
}

impl std::str::FromStr for Mac {
    type Err = MacAddressParseError;

    fn from_str(s: &str) -> Result<Self, Self::Err> {
        from_string(s)
    }
}

/// The value of a hexadecimal digit.
fn hex_digit(c: char) -> (r: Option<u8>)
    ensures
        r is Some <==> is_hex_digit(c),
        r is Some ==> r->Some_0 as nat == hex_digit_value(c),
{
    if '0' <= c && c <= '9' {
        Some((c as u32 - '0' as u32) as u8)
    } else if 'a' <= c && c <= 'f' {
        Some((c as u32 - 'a' as u32 + 10) as u8)
    } else if 'A' <= c && c <= 'F' {
        Some((c as u32 - 'A' as u32 + 10) as u8)
    } else {
        None
    }
}

/// Reads a MAC address; `:`, `-` and `.` may group its digits in any way.
pub fn from_string(s: &str) -> (r: Result<Mac, MacAddressParseError>)
    ensures
        match mac_parse(s@) {
            Ok(b) => r is Ok && r->Ok_0@ == b,
            Err(e) => r == Err::<Mac, MacAddressParseError>(e),
        },
{
    let cs = chars_of(s);
    let mut clean: Vec<char> = Vec::new();
    let mut i: usize = 0;
    while i < cs.len()
        invariant
            i <= cs@.len(),
            cs@ == s@,
            clean@ == strip_delimiters(cs@.subrange(0, i as int)),
        decreases cs@.len() - i,
    {
        let c = cs[i];
        assert(cs@.subrange(0, i + 1).drop_last() =~= cs@.subrange(0, i as int));
        if !(c == ':' || c == '-' || c == '.') {
            clean.push(c);
        }
        i = i + 1;
    }
    assert(cs@.subrange(0, cs@.len() as int) =~= s@);
    let ghost d = strip_delimiters(s@);
    if clean.len() != 12 {
        return Err(MacAddressParseError::InvalidLength);
    }
    let mut bytes = [0u8; 6];
    let mut k: usize = 0;
    while k < 6
        invariant
            k <= 6,
            clean@ == d,
            d == strip_delimiters(s@),
            d.len() == 12,
            all_hex_digits(d.subrange(0, 2 * k)),
            forall|j: int|
                0 <= j < k ==> bytes@[j] as nat == hex_digit_value(d[2 * j]) * 16
                    + hex_digit_value(#[trigger] d[2 * j + 1]),
        decreases 6 - k,
    {
        let hi = hex_digit(clean[2 * k]);
        let lo = hex_digit(clean[2 * k + 1]);
        match (hi, lo) {
            (Some(h), Some(l)) => {
                bytes[k] = h * 16 + l;
                assert forall|j: int| 0 <= j < 2 * k + 2 implies is_hex_digit(
                    #[trigger] d.subrange(0, 2 * k + 2)[j],
                ) by {
                    if j < 2 * k {
                        assert(d.subrange(0, 2 * k + 2)[j] == d.subrange(0, 2 * k)[j]);
                    }
                }
            },
            _ => {
                assert(!all_hex_digits(d)) by {
                    if hi is None {
                        assert(!is_hex_digit(d[2 * k]));
                    } else {
                        assert(!is_hex_digit(d[2 * k + 1]));
                    }
                }
                return Err(MacAddressParseError::InvalidCharacter);
            },
        }
        k = k + 1;
    }
    assert(d.subrange(0, 12) =~= d);
    let r = Mac(bytes);
    assert(r@ =~= Seq::new(
        6,
        |i: int| (hex_digit_value(d[2 * i]) * 16 + hex_digit_value(d[2 * i + 1])) as u8,
    ));
    Ok(r)
}

/// A MAC address from exactly six octets, most significant first.
pub fn from_bytes(data: &[u8]) -> (r: Result<Mac, MacAddressParseError>)
    ensures
        data@.len() == 6 ==> r is Ok && r->Ok_0@ == data@,
        data@.len() != 6 ==> r == Err::<Mac, MacAddressParseError>(
            MacAddressParseError::InvalidLength,
        ),
{
    if data.len() != 6 {
        return Err(MacAddressParseError::InvalidLength);
    }
    let r = Mac([data[0], data[1], data[2], data[3], data[4], data[5]]);
    assert(r@ =~= data@);
    Ok(r)
}

} // verus!

verus! {

/// Delimiters are dropped from each side of a concatenation on its own.
proof fn lemma_strip_append(a: Seq<char>, b: Seq<char>)
    ensures
        strip_delimiters(a + b) == strip_delimiters(a) + strip_delimiters(b),
    decreases b.len(),
{
    if b.len() == 0 {
        assert(a + b =~= a);
        assert(strip_delimiters(a) + strip_delimiters(b) =~= strip_delimiters(a));
    } else {
        assert((a + b).drop_last() =~= a + b.drop_last());
        assert((a + b).last() == b.last());
        lemma_strip_append(a, b.drop_last());
        if !is_delimiter(b.last()) {
            assert((strip_delimiters(a) + strip_delimiters(b.drop_last())).push(b.last())
                =~= strip_delimiters(a) + strip_delimiters(b.drop_last()).push(b.last()));
        }
    }
}

/// The digits of the first `k` octets of `b`, two for each.
spec fn pair_digits(b: Seq<u8>, k: int) -> Seq<char> {
    Seq::new(
        2 * k as nat,
        |j: int|
            if j % 2 == 0 {
                hex_char(b[j / 2] as nat / 16)
            } else {
                hex_char(b[j / 2] as nat % 16)
            },
    )
}

proof fn lemma_strip_pairs(b: Seq<u8>, k: int)
    requires
        1 <= k <= 6,
        b.len() == 6,
    ensures
        strip_delimiters(join(Seq::new(6, |i: int| hex_pair(b[i])).subrange(0, k), ':'))
            == pair_digits(b, k),
    decreases k,
{
    reveal_with_fuel(strip_delimiters, 3);
    let ps = Seq::new(6, |i: int| hex_pair(b[i]));
    let p = hex_pair(b[k - 1]);
    lemma_hex_char(b[k - 1] as nat / 16);
    lemma_hex_char(b[k - 1] as nat % 16);
    assert(p.drop_last() =~= seq![p[0]]);
    assert(seq![p[0]].drop_last() =~= Seq::<char>::empty());
    assert(strip_delimiters(p) =~= p);
    if k == 1 {
        assert(ps.subrange(0, 1) =~= seq![p]);
        assert(pair_digits(b, 1) =~= p);
    } else {
        lemma_strip_pairs(b, k - 1);
        let prev = ps.subrange(0, k - 1);
        assert(ps.subrange(0, k).drop_last() =~= prev);
        let jp = join(prev, ':');
        lemma_strip_append(jp.push(':'), p);
        lemma_strip_append(jp, seq![':']);
        assert(jp + seq![':'] =~= jp.push(':'));
        assert(seq![':'].drop_last() =~= Seq::<char>::empty());
        assert(strip_delimiters(seq![':']) =~= Seq::<char>::empty());
        assert(pair_digits(b, k - 1) + p =~= pair_digits(b, k));
    }
}

/// Reading back the text of any MAC address gives that address.
pub proof fn lemma_text_round_trip(m: Mac)
    ensures
        mac_parse(mac_text(m@)) == Ok::<Seq<u8>, MacAddressParseError>(m@),
{
    let b = m@;
    lemma_strip_pairs(b, 6);
    assert(Seq::new(6, |i: int| hex_pair(b[i])).subrange(0, 6) =~= Seq::new(
        6,
        |i: int| hex_pair(b[i]),
    ));
    let d = pair_digits(b, 6);
    assert forall|j: int| 0 <= j < 12 implies is_hex_digit(#[trigger] d[j]) by {
        lemma_hex_char(b[j / 2] as nat / 16);
        lemma_hex_char(b[j / 2] as nat % 16);
    }
    assert forall|i: int| 0 <= i < 6 implies (hex_digit_value(d[2 * i]) * 16 + hex_digit_value(
        d[2 * i + 1],
    )) as u8 == b[i] by {
        lemma_hex_char(b[i] as nat / 16);
        lemma_hex_char(b[i] as nat % 16);
        assert((2 * i + 1) / 2 == i);
        assert((2 * i) / 2 == i);
    }
    assert(Seq::new(
        6,
        |i: int| (hex_digit_value(d[2 * i]) * 16 + hex_digit_value(d[2 * i + 1])) as u8,
    ) =~= b);
}

} // verus!
