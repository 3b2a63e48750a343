//! IPv4 and IPv6 addresses as fixed-width byte blocks, most significant byte
//! first, and the tagged union of the two families.

use crate::bits::{
    be_bytes, be_value, bytes_of_segment_array, bytes_of_segments, bytes_of_value, eq_bytes,
    lemma_be_bytes_of_value, lemma_be_value_bound, lemma_be_value_of_bytes,
    lemma_bytes_of_segments_of, lemma_pow256_values, lemma_segments_of_bytes_of,
    segment_array_of_bytes, segments_of, value_of_bytes,
};
use crate::text::ascii::{chars_of, lemma_bytes_of_chars, string_of};
use crate::text::notation::{
    address_text, any_address_of_text, lemma_texts_are_notation, Notation,
};
use crate::text::v4::{parse_v4, v4_of_text, v4_text, write_v4};
use crate::text::v6::{parse_v6, v6_of_text, v6_text, write_v6};
use vstd::prelude::*;
use vstd::std_specs::cmp::PartialEqSpecImpl;
use vstd::string::StringSliceAdditionalSpecFns;
use vstd::utf8::encode_utf8;

verus! {

/// An IPv4 address: four bytes in network order.
#[derive(Copy, Clone, Eq, PartialOrd, Ord, Hash, Debug)]
pub struct Ipv4Addr {
    bytes: [u8; 4],
}

/// An IPv6 address: sixteen bytes in network order.
#[derive(Copy, Clone, Eq, PartialOrd, Ord, Hash, Debug)]
pub struct Ipv6Addr {
    bytes: [u8; 16],
}

/// An address of either family.
#[derive(Copy, Clone, Eq, PartialOrd, Ord, Hash, Debug)]
pub enum IpAddr {
    V4(Ipv4Addr),
    V6(Ipv6Addr),
}

/// The error for a text that is no address.
#[derive(Copy, Clone, PartialEq, Eq, Structural, Debug)]
pub struct AddrParseError;

impl AddrParseError {
    /// What went wrong, in words.
    pub fn message(&self) -> (r: &'static str)
        ensures
            r@ == "invalid IP address syntax"@,
    {
        "invalid IP address syntax"
    }
}

impl View for Ipv4Addr {
    type V = Seq<u8>;

    /// The four bytes of the address.
    open spec fn view(&self) -> Seq<u8> {
        self.octets_spec()@
    }
}

impl View for Ipv6Addr {
    type V = Seq<u8>;

    /// The sixteen bytes of the address.
    open spec fn view(&self) -> Seq<u8> {
        self.octets_spec()@
    }
}

impl PartialEq for Ipv4Addr {
    fn eq(&self, other: &Self) -> (r: bool) {
        eq_bytes(&self.bytes, &other.bytes)
    }
}

impl PartialEqSpecImpl for Ipv4Addr {
    open spec fn obeys_eq_spec() -> bool {
        true
    }

    open spec fn eq_spec(&self, other: &Self) -> bool {
        self@ == other@
    }
}

impl PartialEq for Ipv6Addr {
    fn eq(&self, other: &Self) -> (r: bool) {
        eq_bytes(&self.bytes, &other.bytes)
    }
}

impl PartialEqSpecImpl for Ipv6Addr {
    open spec fn obeys_eq_spec() -> bool {
        true
    }

    open spec fn eq_spec(&self, other: &Self) -> bool {
        self@ == other@
    }
}

impl PartialEq for IpAddr {
    fn eq(&self, other: &Self) -> (r: bool) {
        match (self, other) {
            (IpAddr::V4(a), IpAddr::V4(b)) => a == b,
            (IpAddr::V6(a), IpAddr::V6(b)) => a == b,
            _ => false,
        }
    }
}

impl PartialEqSpecImpl for IpAddr {
    open spec fn obeys_eq_spec() -> bool {
        true
    }

    open spec fn eq_spec(&self, other: &Self) -> bool {
        match (*self, *other) {
            (IpAddr::V4(a), IpAddr::V4(b)) => a@ == b@,
            (IpAddr::V6(a), IpAddr::V6(b)) => a@ == b@,
            _ => false,
        }
    }
}

impl Ipv4Addr {
    /// The width of an IPv4 address in bits.
    pub const BITS: u32 = 32;

    /// The address as an array, for specifications.
    pub closed spec fn octets_spec(self) -> [u8; 4] {
        self.bytes
    }

    /// Two addresses with the same bytes are the same address.
    pub proof fn lemma_eq_by_view(self, other: Self)
        requires
            self@ == other@,
        ensures
            self == other,
    {
        assert(self.bytes =~= other.bytes);
    }

    /// The address with the given four bytes, for specifications.
    pub closed spec fn of_bytes(s: Seq<u8>) -> Self {
        Ipv4Addr { bytes: [s[0], s[1], s[2], s[3]] }
    }

    /// The address made of four bytes has those bytes, and it is the only
    /// address that has them.
    pub proof fn lemma_of_bytes(self)
        ensures
            Self::of_bytes(self@) == self,
            Self::of_bytes(self@)@ == self@,
    {
        assert(Self::of_bytes(self@).bytes =~= self.bytes);
    }

    /// The address `a.b.c.d`.
    pub fn new(a: u8, b: u8, c: u8, d: u8) -> (r: Self)
        ensures
            r@ == seq![a, b, c, d],
    {
        let r = Ipv4Addr { bytes: [a, b, c, d] };
        assert(r@ =~= seq![a, b, c, d]);
        r
    }

    /// The loopback address `127.0.0.1`.
    pub fn localhost() -> (r: Self)
        ensures
            r@ == seq![127u8, 0u8, 0u8, 1u8],
    {
        Self::new(127, 0, 0, 1)
    }

    /// The unspecified address `0.0.0.0`.
    pub fn unspecified() -> (r: Self)
        ensures
            r@ == seq![0u8, 0u8, 0u8, 0u8],
    {
        Self::new(0, 0, 0, 0)
    }

    /// The address with the given bytes.
    pub fn from_octets(octets: [u8; 4]) -> (r: Self)
        ensures
            r@ == octets@,
    {
        Ipv4Addr { bytes: octets }
    }

    /// The bytes of the address.
    pub fn octets(&self) -> (r: [u8; 4])
        ensures
            r@ == self@,
    {
        self.bytes
    }

    /// The bytes of the address, borrowed.
    pub fn as_octets(&self) -> (r: &[u8; 4])
        ensures
            r@ == self@,
    {
        &self.bytes
    }

    /// The address whose bytes are those of `bits`, most significant first.
    pub fn from_bits(bits: u32) -> (r: Self)
        ensures
            r@ == be_bytes(bits as nat, 4),
            be_value(r@) == bits,
    {
        proof {
            lemma_pow256_values();
            lemma_be_value_of_bytes(bits as nat, 4);
        }
        Ipv4Addr { bytes: bytes_of_value::<4>(bits as u128) }
    }

    /// The number that the four bytes denote, most significant first.
    pub fn to_bits(self) -> (r: u32)
        ensures
            r as nat == be_value(self@),
            be_bytes(r as nat, 4) == self@,
    {
        proof {
            lemma_be_value_bound(self@);
            lemma_pow256_values();
            lemma_be_bytes_of_value(self@);
        }
        value_of_bytes::<4>(&self.bytes) as u32
    }

    /// Reads an address from ASCII text, such as `192.168.1.1`.
    pub fn parse_ascii(b: &[u8]) -> (r: Result<Self, AddrParseError>)
        ensures
            match r {
                Ok(a) => v4_of_text(b@) == Some(a@),
                Err(_) => v4_of_text(b@) is None,
            },
    {
        match parse_v4(b) {
            Some(octets) => Ok(Self::from_octets(octets)),
            None => Err(AddrParseError),
        }
    }

    /// Reads an address from a string. The string must hold the text of an
    /// address and nothing else.
    pub fn from_str(s: &str) -> (r: Result<Self, AddrParseError>)
        ensures
            match r {
                Ok(a) => v4_of_text(s.spec_bytes()) == Some(a@),
                Err(_) => v4_of_text(s.spec_bytes()) is None,
            },
    {
        Self::parse_ascii(s.as_bytes())
    }

    /// The text of the address.
    pub fn to_string(&self) -> (r: String)
        ensures
            r@ == chars_of(v4_text(self@)),
            encode_utf8(r@) == v4_text(self@),
    {
        let mut out: Vec<u8> = Vec::new();
        write_v4(&mut out, &self.bytes);
        assert(out@ =~= v4_text(self@));
        proof {
            lemma_texts_are_notation(self@, self@, Notation::Address);
            lemma_bytes_of_chars(out@);
        }
        string_of(&out)
    }

    /// Whether this is `0.0.0.0`.
    pub fn is_unspecified(&self) -> (r: bool)
        ensures
            r == (self@ == seq![0u8, 0u8, 0u8, 0u8]),
    {
        let b = self.bytes;
        let r = b[0] == 0 && b[1] == 0 && b[2] == 0 && b[3] == 0;
        assert(r == (self@ =~= seq![0u8, 0u8, 0u8, 0u8]));
        r
    }

    /// Whether this is a loopback address, one of `127.0.0.0/8`.
    pub fn is_loopback(&self) -> (r: bool)
        ensures
            r == (self@[0] == 127),
    {
        self.bytes[0] == 127
    }

    /// Whether this is a private address: one of `10.0.0.0/8`,
    /// `172.16.0.0/12` and `192.168.0.0/16`.
    pub fn is_private(&self) -> (r: bool)
        ensures
            r == (self@[0] == 10 || (self@[0] == 172 && 16 <= self@[1] <= 31) || (self@[0] == 192
                && self@[1] == 168)),
    {
        let b = self.bytes;
        b[0] == 10 || (b[0] == 172 && 16 <= b[1] && b[1] <= 31) || (b[0] == 192 && b[1] == 168)
    }

    /// Whether this is a link-local address, one of `169.254.0.0/16`.
    pub fn is_link_local(&self) -> (r: bool)
        ensures
            r == (self@[0] == 169 && self@[1] == 254),
    {
        self.bytes[0] == 169 && self.bytes[1] == 254
    }

    /// Whether this is a multicast address, one of `224.0.0.0/4`.
    pub fn is_multicast(&self) -> (r: bool)
        ensures
            r == (224 <= self@[0] <= 239),
    {
        224 <= self.bytes[0] && self.bytes[0] <= 239
    }

    /// Whether this is the limited broadcast address `255.255.255.255`.
    pub fn is_broadcast(&self) -> (r: bool)
        ensures
            r == (self@ == seq![255u8, 255u8, 255u8, 255u8]),
    {
        let b = self.bytes;
        let r = b[0] == 255 && b[1] == 255 && b[2] == 255 && b[3] == 255;
        assert(r == (self@ =~= seq![255u8, 255u8, 255u8, 255u8]));
        r
    }

    /// Whether this address is reserved for documentation: one of
    /// `192.0.2.0/24`, `198.51.100.0/24` and `203.0.113.0/24`.
    pub fn is_documentation(&self) -> (r: bool)
        ensures
            r == ((self@[0] == 192 && self@[1] == 0 && self@[2] == 2) || (self@[0] == 198
                && self@[1] == 51 && self@[2] == 100) || (self@[0] == 203 && self@[1] == 0
                && self@[2] == 113)),
    {
        let b = self.bytes;
        (b[0] == 192 && b[1] == 0 && b[2] == 2) || (b[0] == 198 && b[1] == 51 && b[2] == 100) || (
        b[0] == 203 && b[1] == 0 && b[2] == 113)
    }

    /// Whether this address is in the shared address space `100.64.0.0/10`.
    pub fn is_shared(&self) -> (r: bool)
        ensures
            r == (self@[0] == 100 && 64 <= self@[1] <= 127),
    {
        self.bytes[0] == 100 && 64 <= self.bytes[1] && self.bytes[1] <= 127
    }

    /// Whether this address is reserved for benchmarking, one of
    /// `198.18.0.0/15`.
    pub fn is_benchmarking(&self) -> (r: bool)
        ensures
            r == (self@[0] == 198 && 18 <= self@[1] <= 19),
    {
        self.bytes[0] == 198 && 18 <= self.bytes[1] && self.bytes[1] <= 19
    }

    /// Whether this address is reserved for future use: one of `240.0.0.0/4`
    /// other than the limited broadcast address.
    pub fn is_reserved(&self) -> (r: bool)
        ensures
            r == (self@[0] >= 240 && self@ != seq![255u8, 255u8, 255u8, 255u8]),
    {
        self.bytes[0] >= 240 && !self.is_broadcast()
    }

    /// The IPv4-compatible IPv6 address `::a.b.c.d`.
    pub fn to_ipv6_compatible(&self) -> (r: Ipv6Addr)
        ensures
            r@ == seq![0u8, 0u8, 0u8, 0u8, 0u8, 0u8, 0u8, 0u8, 0u8, 0u8, 0u8, 0u8] + self@,
    {
        let b = self.bytes;
        let r = Ipv6Addr::from_octets([0, 0, 0, 0, 0, 0, 0, 0, 0, 0, 0, 0, b[0], b[1], b[2], b[3]]);
        assert(r@ =~= seq![0u8, 0u8, 0u8, 0u8, 0u8, 0u8, 0u8, 0u8, 0u8, 0u8, 0u8, 0u8] + self@);
        r
    }

    /// The IPv4-mapped IPv6 address `::ffff:a.b.c.d`.
    pub fn to_ipv6_mapped(&self) -> (r: Ipv6Addr)
        ensures
            r@ == seq![0u8, 0u8, 0u8, 0u8, 0u8, 0u8, 0u8, 0u8, 0u8, 0u8, 0xFFu8, 0xFFu8] + self@,
    {
        let b = self.bytes;
        let r = Ipv6Addr::from_octets(
            [0, 0, 0, 0, 0, 0, 0, 0, 0, 0, 0xFF, 0xFF, b[0], b[1], b[2], b[3]],
        );
        assert(r@ =~= seq![0u8, 0u8, 0u8, 0u8, 0u8, 0u8, 0u8, 0u8, 0u8, 0u8, 0xFFu8, 0xFFu8]
            + self@);
        r
    }
}

/// Whether the first `n` bytes of a block are all zero.
pub open spec fn leading_zero_bytes(s: Seq<u8>, n: int) -> bool {
    forall|i: int| 0 <= i < n ==> s[i] == 0
}

/// Whether a 16-byte block is an IPv4-mapped address, `::ffff:a.b.c.d`.
pub open spec fn is_mapped(s: Seq<u8>) -> bool {
    leading_zero_bytes(s, 10) && s[10] == 0xFF && s[11] == 0xFF
}

impl Ipv6Addr {
    /// The width of an IPv6 address in bits.
    pub const BITS: u32 = 128;

    /// The address as an array, for specifications.
    pub closed spec fn octets_spec(self) -> [u8; 16] {
        self.bytes
    }

    /// Two addresses with the same bytes are the same address.
    pub proof fn lemma_eq_by_view(self, other: Self)
        requires
            self@ == other@,
        ensures
            self == other,
    {
        assert(self.bytes =~= other.bytes);
    }

    /// The address with the given sixteen bytes, for specifications.
    pub closed spec fn of_bytes(s: Seq<u8>) -> Self {
        Ipv6Addr {
            bytes: [
                s[0],
                s[1],
                s[2],
                s[3],
                s[4],
                s[5],
                s[6],
                s[7],
                s[8],
                s[9],
                s[10],
                s[11],
                s[12],
                s[13],
                s[14],
                s[15],
            ],
        }
    }

    /// The address made of sixteen bytes has those bytes, and it is the only
    /// address that has them.
    pub proof fn lemma_of_bytes(self)
        ensures
            Self::of_bytes(self@) == self,
            Self::of_bytes(self@)@ == self@,
    {
        assert(Self::of_bytes(self@).bytes =~= self.bytes);
    }

    /// The address with the given eight 16-bit segments.
    pub fn new(a: u16, b: u16, c: u16, d: u16, e: u16, f: u16, g: u16, h: u16) -> (r: Self)
        ensures
            r@ == bytes_of_segments(seq![a, b, c, d, e, f, g, h]),
    {
        let segments: [u16; 8] = [a, b, c, d, e, f, g, h];
        assert(segments@ =~= seq![a, b, c, d, e, f, g, h]);
        Self::from_segments(segments)
    }

    /// The loopback address `::1`.
    pub fn localhost() -> (r: Self)
        ensures
            r@ == seq![0u8, 0u8, 0u8, 0u8, 0u8, 0u8, 0u8, 0u8, 0u8, 0u8, 0u8, 0u8, 0u8, 0u8, 0u8, 1u8],
    {
        Self::from_octets([0, 0, 0, 0, 0, 0, 0, 0, 0, 0, 0, 0, 0, 0, 0, 1])
    }

    /// The unspecified address `::`.
    pub fn unspecified() -> (r: Self)
        ensures
            r@ == seq![0u8, 0u8, 0u8, 0u8, 0u8, 0u8, 0u8, 0u8, 0u8, 0u8, 0u8, 0u8, 0u8, 0u8, 0u8, 0u8],
    {
        Self::from_octets([0, 0, 0, 0, 0, 0, 0, 0, 0, 0, 0, 0, 0, 0, 0, 0])
    }

    /// The address with the given bytes.
    pub fn from_octets(octets: [u8; 16]) -> (r: Self)
        ensures
            r@ == octets@,
    {
        Ipv6Addr { bytes: octets }
    }

    /// The address with the given eight 16-bit segments.
    pub fn from_segments(segments: [u16; 8]) -> (r: Self)
        ensures
            r@ == bytes_of_segments(segments@),
            segments_of(r@) == segments@,
    {
        proof {
            lemma_segments_of_bytes_of(segments@);
        }
        Ipv6Addr { bytes: bytes_of_segment_array(&segments) }
    }

    /// The address whose bytes are those of `bits`, most significant first.
    pub fn from_bits(bits: u128) -> (r: Self)
        ensures
            r@ == be_bytes(bits as nat, 16),
            be_value(r@) == bits,
    {
        proof {
            lemma_pow256_values();
            lemma_be_value_of_bytes(bits as nat, 16);
        }
        Ipv6Addr { bytes: bytes_of_value::<16>(bits) }
    }

    /// The bytes of the address.
    pub fn octets(&self) -> (r: [u8; 16])
        ensures
            r@ == self@,
    {
        self.bytes
    }

    /// The bytes of the address, borrowed.
    pub fn as_octets(&self) -> (r: &[u8; 16])
        ensures
            r@ == self@,
    {
        &self.bytes
    }

    /// The eight 16-bit segments of the address.
    pub fn segments(&self) -> (r: [u16; 8])
        ensures
            r@ == segments_of(self@),
            bytes_of_segments(r@) == self@,
    {
        proof {
            lemma_bytes_of_segments_of(self@);
        }
        segment_array_of_bytes(&self.bytes)
    }

    /// The number that the sixteen bytes denote, most significant first.
    pub fn to_bits(self) -> (r: u128)
        ensures
            r as nat == be_value(self@),
            be_bytes(r as nat, 16) == self@,
    {
        proof {
            lemma_be_bytes_of_value(self@);
        }
        value_of_bytes::<16>(&self.bytes)
    }

    /// Reads an address from ASCII text, such as `fe80::1`.
    pub fn parse_ascii(b: &[u8]) -> (r: Result<Self, AddrParseError>)
        ensures
            match r {
                Ok(a) => v6_of_text(b@) == Some(a@),
                Err(_) => v6_of_text(b@) is None,
            },
    {
        match parse_v6(b) {
            Some(octets) => Ok(Self::from_octets(octets)),
            None => Err(AddrParseError),
        }
    }

    /// Reads an address from a string. The string must hold the text of an
    /// address and nothing else.
    pub fn from_str(s: &str) -> (r: Result<Self, AddrParseError>)
        ensures
            match r {
                Ok(a) => v6_of_text(s.spec_bytes()) == Some(a@),
                Err(_) => v6_of_text(s.spec_bytes()) is None,
            },
    {
        Self::parse_ascii(s.as_bytes())
    }

    /// The text of the address.
    pub fn to_string(&self) -> (r: String)
        ensures
            r@ == chars_of(v6_text(self@)),
            encode_utf8(r@) == v6_text(self@),
    {
        let mut out: Vec<u8> = Vec::new();
        write_v6(&mut out, &self.bytes);
        assert(out@ =~= v6_text(self@));
        proof {
            lemma_texts_are_notation(self@, self@, Notation::Address);
            lemma_bytes_of_chars(out@);
        }
        string_of(&out)
    }

    /// Whether this is the unspecified address `::`.
    pub fn is_unspecified(&self) -> (r: bool)
        ensures
            r == leading_zero_bytes(self@, 16),
    {
        self.zero_until(16)
    }

    /// Whether this is the loopback address `::1`.
    pub fn is_loopback(&self) -> (r: bool)
        ensures
            r == (leading_zero_bytes(self@, 15) && self@[15] == 1),
    {
        self.zero_until(15) && self.bytes[15] == 1
    }

    /// Whether this is a multicast address, one of `ff00::/8`.
    pub fn is_multicast(&self) -> (r: bool)
        ensures
            r == (self@[0] == 0xFF),
    {
        self.bytes[0] == 0xFF
    }

    /// Whether this is a unicast address: any address that is not a
    /// multicast address.
    pub fn is_unicast(&self) -> (r: bool)
        ensures
            r == (self@[0] != 0xFF),
    {
        self.bytes[0] != 0xFF
    }

    /// Whether this is a unicast link-local address, one of `fe80::/10`.
    pub fn is_unicast_link_local(&self) -> (r: bool)
        ensures
            r == (self@[0] == 0xFE && 0x80 <= self@[1] <= 0xBF),
    {
        self.bytes[0] == 0xFE && 0x80 <= self.bytes[1] && self.bytes[1] <= 0xBF
    }

    /// Whether this address is reserved for benchmarking, one of
    /// `2001:2::/48`.
    pub fn is_benchmarking(&self) -> (r: bool)
        ensures
            r == (self@[0] == 0x20 && self@[1] == 0x01 && self@[2] == 0 && self@[3] == 0x02
                && self@[4] == 0 && self@[5] == 0),
    {
        let b = &self.bytes;
        b[0] == 0x20 && b[1] == 0x01 && b[2] == 0 && b[3] == 0x02 && b[4] == 0 && b[5] == 0
    }

    /// Whether this is an IPv4-mapped address, `::ffff:a.b.c.d`.
    pub fn is_ipv4_mapped(&self) -> (r: bool)
        ensures
            r == is_mapped(self@),
    {
        self.zero_until(10) && self.bytes[10] == 0xFF && self.bytes[11] == 0xFF
    }

    /// The IPv4 address that an IPv4-mapped address stands for, its last four
    /// bytes; `None` for any other address.
    pub fn to_ipv4_mapped(&self) -> (r: Option<Ipv4Addr>)
        ensures
            r is Some <==> is_mapped(self@),
            r matches Some(a) ==> a@ == self@.skip(12),
    {
        if self.is_ipv4_mapped() {
            let b = &self.bytes;
            let a = Ipv4Addr::new(b[12], b[13], b[14], b[15]);
            assert(a@ =~= self@.skip(12));
            Some(a)
        } else {
            None
        }
    }

    /// The IPv4 address in the last four bytes of an IPv4-mapped address
    /// (`::ffff:a.b.c.d`) or an IPv4-compatible one (`::a.b.c.d`); `None` for
    /// any other address.
    pub fn to_ipv4(&self) -> (r: Option<Ipv4Addr>)
        ensures
            r is Some <==> (leading_zero_bytes(self@, 10) && ((self@[10] == 0 && self@[11] == 0) || (
            self@[10] == 0xFF && self@[11] == 0xFF))),
            r matches Some(a) ==> a@ == self@.skip(12),
    {
        let b = &self.bytes;
        if self.zero_until(10) && ((b[10] == 0 && b[11] == 0) || (b[10] == 0xFF && b[11] == 0xFF)) {
            let a = Ipv4Addr::new(b[12], b[13], b[14], b[15]);
            assert(a@ =~= self@.skip(12));
            Some(a)
        } else {
            None
        }
    }

    /// The IPv4 address for an IPv4-mapped address, the address itself
    /// otherwise.
    pub fn to_canonical(&self) -> (r: IpAddr)
        ensures
            is_mapped(self@) ==> (r matches IpAddr::V4(a) && a@ == self@.skip(12)),
            !is_mapped(self@) ==> r == IpAddr::V6(*self),
    {
        match self.to_ipv4_mapped() {
            Some(a) => IpAddr::V4(a),
            None => IpAddr::V6(*self),
        }
    }

    /// Whether the first `n` bytes are all zero.
    fn zero_until(&self, n: usize) -> (r: bool)
        requires
            n <= 16,
        ensures
            r == leading_zero_bytes(self@, n as int),
    {
        let mut i: usize = 0;
        while i < n
            invariant
                i <= n <= 16,
                leading_zero_bytes(self@, i as int),
            decreases n - i,
        {
            if self.bytes[i] != 0 {
                return false;
            }
            i = i + 1;
        }
        true
    }
}

impl IpAddr {
    /// The bytes of the address: four for IPv4, sixteen for IPv6.
    pub open spec fn bytes(self) -> Seq<u8> {
        match self {
            IpAddr::V4(a) => a@,
            IpAddr::V6(a) => a@,
        }
    }

    /// Reads an address of either family from ASCII text: an IPv4 address
    /// if the text is one, else an IPv6 address.
    pub fn parse_ascii(b: &[u8]) -> (r: Result<Self, AddrParseError>)
        ensures
            match r {
                Ok(a) => any_address_of_text(b@) == Some(a.bytes()) && (a is V4 <==> v4_of_text(b@) is Some),
                Err(_) => any_address_of_text(b@) is None,
            },
    {
        match parse_v4(b) {
            Some(octets) => Ok(IpAddr::V4(Ipv4Addr::from_octets(octets))),
            None => match parse_v6(b) {
                Some(octets) => Ok(IpAddr::V6(Ipv6Addr::from_octets(octets))),
                None => Err(AddrParseError),
            },
        }
    }

    /// Reads an address of either family from a string.
    pub fn from_str(s: &str) -> (r: Result<Self, AddrParseError>)
        ensures
            match r {
                Ok(a) => any_address_of_text(s.spec_bytes()) == Some(a.bytes()) && (a is V4
                    <==> v4_of_text(s.spec_bytes()) is Some),
                Err(_) => any_address_of_text(s.spec_bytes()) is None,
            },
    {
        Self::parse_ascii(s.as_bytes())
    }

    /// The text of the address.
    pub fn to_string(&self) -> (r: String)
        ensures
            r@ == chars_of(address_text(self.bytes())),
            encode_utf8(r@) == address_text(self.bytes()),
    {
        match self {
            IpAddr::V4(a) => a.to_string(),
            IpAddr::V6(a) => a.to_string(),
        }
    }
}

} // verus!
