//! Masked addresses: an address paired with a prefix mask, the address being
//! any address of the network and not necessarily the network address.

use crate::addrs::{IpAddr, Ipv4Addr, Ipv6Addr};
use crate::bits::{and_seq, lemma_and_absorbs, not_seq, or_seq};
use crate::mask::{Ipv4Mask, Ipv6Mask};
use crate::network::{NetworkV4, NetworkV6};
use crate::ops::IpBitwiseExt;
use crate::prefix::prefix_mask;
use crate::text::ascii::{chars_of, lemma_bytes_of_chars, string_of};
use crate::text::notation::{
    any_cidr_of_text, any_masked_of_text, cidr_of_text, is_v4_cidr_text,
    lemma_any_masked_round_trip, lemma_masked_round_trip, lemma_texts_are_notation, masked_of_text,
    masked_text, network_string_of_text, Notation, SLASH, SPACE,
};
use crate::text::numeral::write_decimal;
use crate::text::pieces::find;
use crate::text::v4::{parse_v4, write_v4};
use crate::text::v6::write_v6;
use core::ops::Not;
use vstd::arithmetic::power2::{
    lemma2_to64, lemma_pow2_adds, lemma_pow2_strictly_increases, lemma_pow2_unfold, pow2,
};
use vstd::prelude::*;
use vstd::slice::slice_subrange;
use vstd::std_specs::cmp::PartialEqSpecImpl;
use vstd::string::StringSliceAdditionalSpecFns;
use vstd::utf8::encode_utf8;

verus! {

/// An IPv4 address and a prefix mask.
#[derive(Copy, Clone, Eq, Hash, Debug)]
pub struct MaskedIpv4 {
    /// The address.
    pub ip: Ipv4Addr,
    /// The mask.
    pub mask: Ipv4Mask,
}

/// An IPv6 address and a prefix mask.
#[derive(Copy, Clone, Eq, Hash, Debug)]
pub struct MaskedIpv6 {
    /// The address.
    pub ip: Ipv6Addr,
    /// The mask.
    pub mask: Ipv6Mask,
}

/// A masked address of either family.
#[derive(Copy, Clone, Eq, Hash, Debug)]
pub enum MaskedIp {
    /// An IPv4 address and mask.
    V4(MaskedIpv4),
    /// An IPv6 address and mask.
    V6(MaskedIpv6),
}

/// The error for a text or an encoding that is no masked IPv4 address.
#[derive(Copy, Clone, PartialEq, Eq, Structural, Debug)]
pub struct InvalidMaskedIpv4;

/// The error for a text or an encoding that is no masked IPv6 address.
#[derive(Copy, Clone, PartialEq, Eq, Structural, Debug)]
pub struct InvalidMaskedIpv6;

/// The error for a text that is no masked address of either family.
#[derive(Copy, Clone, PartialEq, Eq, Structural, Debug)]
pub struct InvalidMaskedIp;

impl InvalidMaskedIpv4 {
    /// What went wrong, in words.
    pub fn message(&self) -> (r: &'static str)
        ensures
            r@ == "invalid masked IPv4"@,
    {
        "invalid masked IPv4"
    }
}

impl InvalidMaskedIpv6 {
    /// What went wrong, in words.
    pub fn message(&self) -> (r: &'static str)
        ensures
            r@ == "invalid masked IPv6"@,
    {
        "invalid masked IPv6"
    }
}

impl InvalidMaskedIp {
    /// What went wrong, in words.
    pub fn message(&self) -> (r: &'static str)
        ensures
            r@ == "invalid masked IP"@,
    {
        "invalid masked IP"
    }
}

/// The number of usable host addresses in a network with the given number of
/// host bits. With no host bit the one address is the host; with one host bit
/// both addresses are hosts, as on a point-to-point link; otherwise the
/// network address and the broadcast address are set aside.
pub open spec fn host_count_of(host_bits: nat) -> nat {
    if host_bits == 0 {
        1
    } else if host_bits == 1 {
        2
    } else {
        (pow2(host_bits) - 2) as nat
    }
}

/// The number of networks of prefix length `new_len` inside a network of
/// prefix length `len`: none if the new prefix is shorter, else one for every
/// value of the borrowed bits.
pub open spec fn network_count_of(len: nat, new_len: nat) -> nat {
    if new_len < len {
        0
    } else {
        pow2((new_len - len) as nat)
    }
}

/// Two to the power `n`, for `n` up to 127.
fn two_to_the(n: u8) -> (r: u128)
    requires
        n <= 127,
    ensures
        r == pow2(n as nat),
        r >= 1,
{
    let mut r: u128 = 1;
    let mut i: u8 = 0;
    proof {
        lemma2_to64();
    }
    while i < n
        invariant
            i <= n <= 127,
            r == pow2(i as nat),
            r >= 1,
        decreases n - i,
    {
        proof {
            lemma_pow2_unfold((i + 1) as nat);
            lemma_two_to_the_128();
            if i + 1 < 128 {
                lemma_pow2_strictly_increases((i + 1) as nat, 128);
            }
        }
        r = r * 2;
        i = i + 1;
    }
    r
}

/// Two to the power 128 is one more than the greatest `u128`.
pub proof fn lemma_two_to_the_128()
    ensures
        pow2(128) == 0x1_0000_0000_0000_0000_0000_0000_0000_0000,
        pow2(64) == 0x1_0000_0000_0000_0000,
        pow2(32) == 0x1_0000_0000,
{
    lemma2_to64();
    lemma_pow2_adds(64, 64);
}

impl PartialEq for MaskedIpv4 {
    fn eq(&self, other: &Self) -> (r: bool) {
        self.ip == other.ip && self.mask == other.mask
    }
}

impl PartialEqSpecImpl for MaskedIpv4 {
    open spec fn obeys_eq_spec() -> bool {
        true
    }

    open spec fn eq_spec(&self, other: &Self) -> bool {
        self.ip@ == other.ip@ && self.mask@ == other.mask@
    }
}

impl PartialEq for MaskedIpv6 {
    fn eq(&self, other: &Self) -> (r: bool) {
        self.ip == other.ip && self.mask == other.mask
    }
}

impl PartialEqSpecImpl for MaskedIpv6 {
    open spec fn obeys_eq_spec() -> bool {
        true
    }

    open spec fn eq_spec(&self, other: &Self) -> bool {
        self.ip@ == other.ip@ && self.mask@ == other.mask@
    }
}

impl PartialEq for MaskedIp {
    fn eq(&self, other: &Self) -> (r: bool) {
        match (self, other) {
            (MaskedIp::V4(a), MaskedIp::V4(b)) => a == b,
            (MaskedIp::V6(a), MaskedIp::V6(b)) => a == b,
            _ => false,
        }
    }
}

impl PartialEqSpecImpl for MaskedIp {
    open spec fn obeys_eq_spec() -> bool {
        true
    }

    open spec fn eq_spec(&self, other: &Self) -> bool {
        match (*self, *other) {
            (MaskedIp::V4(a), MaskedIp::V4(b)) => a.ip@ == b.ip@ && a.mask@ == b.mask@,
            (MaskedIp::V6(a), MaskedIp::V6(b)) => a.ip@ == b.ip@ && a.mask@ == b.mask@,
            _ => false,
        }
    }
}

impl MaskedIpv4 {
    /// The number of host bits: the bits of the address that the mask leaves
    /// out.
    pub open spec fn host_bits_spec(self) -> nat {
        (32 - self.mask.len_spec()) as nat
    }

    /// The network address: the address with every host bit clear.
    pub open spec fn network_address_spec(self) -> Seq<u8> {
        and_seq(self.ip@, self.mask@)
    }

    /// Whether the network of this masked address holds the address with the
    /// given bytes: masking both gives the same network address.
    pub open spec fn contains_spec(self, ip: Seq<u8>) -> bool {
        and_seq(self.ip@, self.mask@) == and_seq(ip, self.mask@)
    }

    /// The network of a masked address holds the address itself, its network
    /// address and its broadcast address.
    pub proof fn lemma_contains_its_edges(self)
        ensures
            self.contains_spec(self.ip@),
            self.contains_spec(self.network_address_spec()),
            self.contains_spec(self.broadcast_address_spec()),
    {
        lemma_and_absorbs(self.ip@, self.mask@);
    }

    /// Two masked addresses with the same address bytes and the same mask
    /// bytes are the same.
    pub proof fn lemma_eq_by_view(self, other: Self)
        requires
            self.ip@ == other.ip@,
            self.mask@ == other.mask@,
        ensures
            self == other,
    {
        self.ip.lemma_eq_by_view(other.ip);
        self.mask.lemma_eq_by_view(other.mask);
    }

    /// The pair of `ip` and `mask`, stored as given.
    pub fn new(ip: Ipv4Addr, mask: Ipv4Mask) -> (r: Self)
        ensures
            r.ip == ip,
            r.mask == mask,
    {
        MaskedIpv4 { ip, mask }
    }

    /// The pair of `ip` and the mask of the given length, for a length of at
    /// most 32; `None` for a greater one.
    pub fn cidr(ip: Ipv4Addr, mask_len: u8) -> (r: Option<Self>)
        ensures
            r is Some <==> mask_len <= 32,
            r matches Some(m) ==> m.ip == ip && m.mask.wf() && m.mask@ == prefix_mask(
                mask_len as nat,
                4,
            ) && m.mask.len_spec() == mask_len,
    {
        match Ipv4Mask::new(mask_len) {
            Some(mask) => Some(Self::new(ip, mask)),
            None => None,
        }
    }

    /// Reading the text of a masked address gives the masked address: in
    /// either notation when any notation is read for, and in the one
    /// notation when only that is read for.
    pub proof fn lemma_text_round_trip(self, notation: Notation)
        requires
            self.mask.wf(),
        ensures
            masked_of_text(masked_text(self.ip@, self.mask@, notation), 4) == Some(
                (self.ip@, self.mask@),
            ),
            notation == Notation::Prefix ==> cidr_of_text(
                masked_text(self.ip@, self.mask@, notation),
                4,
            ) == Some((self.ip@, self.mask@)),
            notation == Notation::Address ==> network_string_of_text(
                masked_text(self.ip@, self.mask@, notation),
                4,
            ) == Some((self.ip@, self.mask@)),
    {
        lemma_masked_round_trip(self.ip@, self.mask@, notation);
    }

    /// Reads a masked address from ASCII text in CIDR form, such as
    /// `192.168.1.1/24`: an address, a slash and a length of at most 32. The first
    /// slash ends the address.
    pub fn parse_cidr(b: &[u8]) -> (r: Option<Self>)
        ensures
            match r {
                Some(m) => m.mask.wf() && cidr_of_text(b@, 4) == Some((m.ip@, m.mask@)),
                None => cidr_of_text(b@, 4) is None,
            },
    {
        let i = find(b, SLASH);
        if i >= b.len() {
            return None;
        }
        let head = slice_subrange(b, 0, i);
        let tail = slice_subrange(b, i + 1, b.len());
        assert(head@ =~= b@.take(i as int));
        assert(tail@ =~= b@.skip(i + 1));
        let ip = match Ipv4Addr::parse_ascii(head) {
            Ok(ip) => ip,
            Err(_) => {
                return None;
            },
        };
        match Ipv4Mask::from_length_text(tail) {
            Some(mask) => Some(Self::new(ip, mask)),
            None => None,
        }
    }

    /// Reads a masked address from ASCII text in the address notation, such
    /// as `192.168.1.1 255.255.255.0`: an address, one space and a mask written as an
    /// address. The first space ends the address.
    pub fn parse_network_string(b: &[u8]) -> (r: Option<Self>)
        ensures
            match r {
                Some(m) => m.mask.wf() && network_string_of_text(b@, 4) == Some((m.ip@, m.mask@)),
                None => network_string_of_text(b@, 4) is None,
            },
    {
        let i = find(b, SPACE);
        if i >= b.len() {
            return None;
        }
        let head = slice_subrange(b, 0, i);
        let tail = slice_subrange(b, i + 1, b.len());
        assert(head@ =~= b@.take(i as int));
        assert(tail@ =~= b@.skip(i + 1));
        let ip = match Ipv4Addr::parse_ascii(head) {
            Ok(ip) => ip,
            Err(_) => {
                return None;
            },
        };
        match Ipv4Mask::from_address_text(tail) {
            Some(mask) => Some(Self::new(ip, mask)),
            None => None,
        }
    }

    /// Reads a masked address from ASCII text in either notation. The first
    /// slash or space ends the address and decides the notation.
    pub fn parse_ascii(b: &[u8]) -> (r: Option<Self>)
        ensures
            match r {
                Some(m) => m.mask.wf() && masked_of_text(b@, 4) == Some((m.ip@, m.mask@)),
                None => masked_of_text(b@, 4) is None,
            },
    {
        let slash = find(b, SLASH);
        let space = find(b, SPACE);
        let i = if slash <= space {
            slash
        } else {
            space
        };
        if i >= b.len() {
            return None;
        }
        let head = slice_subrange(b, 0, i);
        let tail = slice_subrange(b, i + 1, b.len());
        assert(head@ =~= b@.take(i as int));
        assert(tail@ =~= b@.skip(i + 1));
        let ip = match Ipv4Addr::parse_ascii(head) {
            Ok(ip) => ip,
            Err(_) => {
                return None;
            },
        };
        let mask = if b[i] == SLASH {
            Ipv4Mask::from_length_text(tail)
        } else {
            Ipv4Mask::from_address_text(tail)
        };
        match mask {
            Some(mask) => Some(Self::new(ip, mask)),
            None => None,
        }
    }

    /// Reads a masked address from a string in CIDR form. More than one
    /// slash, a length above 32 and anything after the length are refused.
    pub fn from_cidr_str(s: &str) -> (r: Option<Self>)
        ensures
            match r {
                Some(m) => m.mask.wf() && cidr_of_text(s.spec_bytes(), 4) == Some((m.ip@, m.mask@)),
                None => cidr_of_text(s.spec_bytes(), 4) is None,
            },
    {
        Self::parse_cidr(s.as_bytes())
    }

    /// Reads a masked address from a string in the address notation. There
    /// must be exactly one space between the address and the mask.
    pub fn from_network_str(s: &str) -> (r: Option<Self>)
        ensures
            match r {
                Some(m) => m.mask.wf() && network_string_of_text(s.spec_bytes(), 4) == Some(
                    (m.ip@, m.mask@),
                ),
                None => network_string_of_text(s.spec_bytes(), 4) is None,
            },
    {
        Self::parse_network_string(s.as_bytes())
    }

    /// Reads a masked address from a string in either notation.
    pub fn from_str(s: &str) -> (r: Result<Self, InvalidMaskedIpv4>)
        ensures
            match r {
                Ok(m) => m.mask.wf() && masked_of_text(s.spec_bytes(), 4) == Some((m.ip@, m.mask@)),
                Err(_) => masked_of_text(s.spec_bytes(), 4) is None,
            },
    {
        match Self::parse_ascii(s.as_bytes()) {
            Some(m) => Ok(m),
            None => Err(InvalidMaskedIpv4),
        }
    }

    /// Writes the text of the masked address in the given notation at the
    /// end of `out`.
    pub fn write(&self, out: &mut Vec<u8>, notation: Notation)
        ensures
            final(out)@ == old(out)@ + masked_text(self.ip@, self.mask@, notation),
    {
        write_v4(out, self.ip.as_octets());
        match notation {
            Notation::Address => {
                out.push(SPACE);
                write_v4(out, &self.mask.octets());
            },
            Notation::Prefix => {
                out.push(SLASH);
                write_decimal(out, self.mask.len());
            },
        }
        assert(final(out)@ =~= old(out)@ + masked_text(self.ip@, self.mask@, notation));
    }

    /// The text of the masked address in the given notation.
    pub fn format(&self, notation: Notation) -> (r: String)
        ensures
            r@ == chars_of(masked_text(self.ip@, self.mask@, notation)),
            encode_utf8(r@) == masked_text(self.ip@, self.mask@, notation),
    {
        let mut out: Vec<u8> = Vec::new();
        self.write(&mut out, notation);
        assert(out@ =~= masked_text(self.ip@, self.mask@, notation));
        proof {
            lemma_texts_are_notation(self.ip@, self.mask@, notation);
            lemma_bytes_of_chars(out@);
        }
        string_of(&out)
    }

    /// The text of the masked address in CIDR form.
    pub fn to_cidr_string(&self) -> (r: String)
        ensures
            r@ == chars_of(masked_text(self.ip@, self.mask@, Notation::Prefix)),
            encode_utf8(r@) == masked_text(self.ip@, self.mask@, Notation::Prefix),
    {
        self.format(Notation::Prefix)
    }

    /// The text of the masked address in the address notation.
    pub fn to_network_string(&self) -> (r: String)
        ensures
            r@ == chars_of(masked_text(self.ip@, self.mask@, Notation::Address)),
            encode_utf8(r@) == masked_text(self.ip@, self.mask@, Notation::Address),
    {
        self.format(Notation::Address)
    }

    /// The network address: `ip AND mask`.
    pub fn network_address(&self) -> (r: Ipv4Addr)
        ensures
            r@ == self.network_address_spec(),
    {
        self.ip.bitand(self.mask)
    }

    /// The masked address of the network address, under the same mask.
    pub fn network(&self) -> (r: MaskedIpv4)
        ensures
            r.ip@ == self.network_address_spec(),
            r.mask == self.mask,
    {
        Self::new(self.network_address(), self.mask)
    }

    /// Whether the address is the network address of a network that has one:
    /// every host bit is clear and the mask is no longer than 30. With a
    /// mask of length 31 or 32 no address is set aside for the network.
    pub fn is_network_address(&self) -> (r: bool)
        ensures
            r == (self.mask.len_spec() <= 30 && self.ip@ == self.network_address_spec()),
    {
        self.mask.len() <= 30 && self.ip == self.network_address()
    }

    /// The number of network bits: the length of the mask.
    pub fn network_bits(&self) -> (r: u8)
        ensures
            r == self.mask.len_spec(),
            r <= 32,
    {
        self.mask.len()
    }

    /// The number of host bits: the width of the address less the length of
    /// the mask.
    pub fn host_bits(&self) -> (r: u8)
        ensures
            r == self.host_bits_spec(),
            r <= 32,
    {
        32 - self.network_bits()
    }

    /// Whether the network of this masked address holds `ip`. The network
    /// address and the broadcast address are in the network too.
    pub fn contains(&self, ip: Ipv4Addr) -> (r: bool)
        ensures
            r == self.contains_spec(ip@),
    {
        self.ip.bitand(self.mask) == ip.bitand(self.mask)
    }

    /// The network of this masked address.
    pub fn to_network(&self) -> (r: NetworkV4)
        ensures
            r.wf(),
            r.ip_spec()@ == self.network_address_spec(),
            r.mask_spec() == self.mask,
    {
        NetworkV4::new(self.ip, self.mask)
    }

    /// The broadcast address of the network: the address with every host bit
    /// set.
    pub open spec fn broadcast_address_spec(self) -> Seq<u8> {
        or_seq(self.ip@, not_seq(self.mask@))
    }

    /// The broadcast address: `ip OR NOT mask`.
    pub fn broadcast_address(&self) -> (r: Ipv4Addr)
        ensures
            r@ == self.broadcast_address_spec(),
    {
        self.ip.bitor(self.mask.not())
    }

    /// Whether the address is the broadcast address of a network that has
    /// one: every host bit is set and the mask is no longer than 30.
    pub fn is_broadcast_address(&self) -> (r: bool)
        ensures
            r == (self.mask.len_spec() <= 30 && self.ip@ == self.broadcast_address_spec()),
    {
        self.mask.len() <= 30 && self.ip == self.broadcast_address()
    }

    /// The number of usable host addresses in the network. It is at most
    /// `2^32 - 2`, which every `usize` of 32 bits or more holds.
    pub fn host_count(&self) -> (r: usize)
        ensures
            r == host_count_of(self.host_bits_spec()),
    {
        let wide = self.host_count_u64();
        proof {
            use_type_invariant(&self.mask);
            self.mask.lemma_shape();
            lemma_two_to_the_128();
            if 2 <= self.host_bits_spec() < 32 {
                lemma_pow2_strictly_increases(self.host_bits_spec(), 32);
            }
            if 2 <= self.host_bits_spec() {
                lemma2_to64();
                lemma_pow2_strictly_increases(1, self.host_bits_spec());
            }
        }
        wide as usize
    }

    /// The number of usable host addresses in the network, as a `u64`.
    pub fn host_count_u64(&self) -> (r: u64)
        ensures
            r == host_count_of(self.host_bits_spec()),
    {
        let host_bits = self.host_bits();
        if host_bits == 0 {
            1
        } else if host_bits == 1 {
            2
        } else {
            let all = two_to_the(host_bits);
            proof {
                lemma_two_to_the_128();
                lemma_pow2_strictly_increases(1, host_bits as nat);
                lemma2_to64();
                if host_bits < 32 {
                    lemma_pow2_strictly_increases(host_bits as nat, 32);
                }
            }
            (all - 2) as u64
        }
    }

    /// The number of networks of prefix length `new_len` that fit in this
    /// network. A `new_len` above 32 is no prefix length, and the count must
    /// fit a `usize`: on a machine whose `usize` has 32 bits, it does not for
    /// the 32 borrowed bits of the `/32` networks in the `/0` network.
    pub fn network_count(&self, new_len: u8) -> (r: usize)
        requires
            new_len <= 32,
            network_count_of(self.mask.len_spec(), new_len as nat) <= usize::MAX,
        ensures
            r == network_count_of(self.mask.len_spec(), new_len as nat),
    {
        self.network_count_u64(new_len) as usize
    }

    /// The number of networks of prefix length `new_len` that fit in this
    /// network, as a `u64`. A `new_len` above 32 is no prefix length.
    pub fn network_count_u64(&self, new_len: u8) -> (r: u64)
        requires
            new_len <= 32,
        ensures
            r == network_count_of(self.mask.len_spec(), new_len as nat),
    {
        let curr_len = self.mask.len();
        if new_len < curr_len {
            0
        } else {
            let borrowed_bits = new_len - curr_len;
            let count = two_to_the(borrowed_bits);
            proof {
                lemma_two_to_the_128();
                if borrowed_bits < 32 {
                    lemma_pow2_strictly_increases(borrowed_bits as nat, 32);
                }
            }
            count as u64
        }
    }
}

impl MaskedIpv6 {
    /// The number of host bits: the bits of the address that the mask leaves
    /// out.
    pub open spec fn host_bits_spec(self) -> nat {
        (128 - self.mask.len_spec()) as nat
    }

    /// The network address: the address with every host bit clear.
    pub open spec fn network_address_spec(self) -> Seq<u8> {
        and_seq(self.ip@, self.mask@)
    }

    /// Whether the network of this masked address holds the address with the
    /// given bytes: masking both gives the same network address.
    pub open spec fn contains_spec(self, ip: Seq<u8>) -> bool {
        and_seq(self.ip@, self.mask@) == and_seq(ip, self.mask@)
    }

    /// The network of a masked address holds the address itself and its
    /// network address.
    pub proof fn lemma_contains_its_edges(self)
        ensures
            self.contains_spec(self.ip@),
            self.contains_spec(self.network_address_spec()),
    {
        lemma_and_absorbs(self.ip@, self.mask@);
    }

    /// Two masked addresses with the same address bytes and the same mask
    /// bytes are the same.
    pub proof fn lemma_eq_by_view(self, other: Self)
        requires
            self.ip@ == other.ip@,
            self.mask@ == other.mask@,
        ensures
            self == other,
    {
        self.ip.lemma_eq_by_view(other.ip);
        self.mask.lemma_eq_by_view(other.mask);
    }

    /// The pair of `ip` and `mask`, stored as given.
    pub fn new(ip: Ipv6Addr, mask: Ipv6Mask) -> (r: Self)
        ensures
            r.ip == ip,
            r.mask == mask,
    {
        MaskedIpv6 { ip, mask }
    }

    /// The pair of `ip` and the mask of the given length, for a length of at
    /// most 128; `None` for a greater one.
    pub fn cidr(ip: Ipv6Addr, mask_len: u8) -> (r: Option<Self>)
        ensures
            r is Some <==> mask_len <= 128,
            r matches Some(m) ==> m.ip == ip && m.mask.wf() && m.mask@ == prefix_mask(
                mask_len as nat,
                16,
            ) && m.mask.len_spec() == mask_len,
    {
        match Ipv6Mask::new(mask_len) {
            Some(mask) => Some(Self::new(ip, mask)),
            None => None,
        }
    }

    /// Reading the text of a masked address gives the masked address: in
    /// either notation when any notation is read for, and in the one
    /// notation when only that is read for.
    pub proof fn lemma_text_round_trip(self, notation: Notation)
        requires
            self.mask.wf(),
        ensures
            masked_of_text(masked_text(self.ip@, self.mask@, notation), 16) == Some(
                (self.ip@, self.mask@),
            ),
            notation == Notation::Prefix ==> cidr_of_text(
                masked_text(self.ip@, self.mask@, notation),
                16,
            ) == Some((self.ip@, self.mask@)),
            notation == Notation::Address ==> network_string_of_text(
                masked_text(self.ip@, self.mask@, notation),
                16,
            ) == Some((self.ip@, self.mask@)),
    {
        lemma_masked_round_trip(self.ip@, self.mask@, notation);
    }

    /// Reads a masked address from ASCII text in CIDR form, such as
    /// `fe80::1/10`: an address, a slash and a length of at most 128. The first
    /// slash ends the address.
    pub fn parse_cidr(b: &[u8]) -> (r: Option<Self>)
        ensures
            match r {
                Some(m) => m.mask.wf() && cidr_of_text(b@, 16) == Some((m.ip@, m.mask@)),
                None => cidr_of_text(b@, 16) is None,
            },
    {
        let i = find(b, SLASH);
        if i >= b.len() {
            return None;
        }
        let head = slice_subrange(b, 0, i);
        let tail = slice_subrange(b, i + 1, b.len());
        assert(head@ =~= b@.take(i as int));
        assert(tail@ =~= b@.skip(i + 1));
        let ip = match Ipv6Addr::parse_ascii(head) {
            Ok(ip) => ip,
            Err(_) => {
                return None;
            },
        };
        match Ipv6Mask::from_length_text(tail) {
            Some(mask) => Some(Self::new(ip, mask)),
            None => None,
        }
    }

    /// Reads a masked address from ASCII text in the address notation, such
    /// as `fe80::1 ffc0::`: an address, one space and a mask written as an
    /// address. The first space ends the address.
    pub fn parse_network_string(b: &[u8]) -> (r: Option<Self>)
        ensures
            match r {
                Some(m) => m.mask.wf() && network_string_of_text(b@, 16) == Some((m.ip@, m.mask@)),
                None => network_string_of_text(b@, 16) is None,
            },
    {
        let i = find(b, SPACE);
        if i >= b.len() {
            return None;
        }
        let head = slice_subrange(b, 0, i);
        let tail = slice_subrange(b, i + 1, b.len());
        assert(head@ =~= b@.take(i as int));
        assert(tail@ =~= b@.skip(i + 1));
        let ip = match Ipv6Addr::parse_ascii(head) {
            Ok(ip) => ip,
            Err(_) => {
                return None;
            },
        };
        match Ipv6Mask::from_address_text(tail) {
            Some(mask) => Some(Self::new(ip, mask)),
            None => None,
        }
    }

    /// Reads a masked address from ASCII text in either notation. The first
    /// slash or space ends the address and decides the notation.
    pub fn parse_ascii(b: &[u8]) -> (r: Option<Self>)
        ensures
            match r {
                Some(m) => m.mask.wf() && masked_of_text(b@, 16) == Some((m.ip@, m.mask@)),
                None => masked_of_text(b@, 16) is None,
            },
    {
        let slash = find(b, SLASH);
        let space = find(b, SPACE);
        let i = if slash <= space {
            slash
        } else {
            space
        };
        if i >= b.len() {
            return None;
        }
        let head = slice_subrange(b, 0, i);
        let tail = slice_subrange(b, i + 1, b.len());
        assert(head@ =~= b@.take(i as int));
        assert(tail@ =~= b@.skip(i + 1));
        let ip = match Ipv6Addr::parse_ascii(head) {
            Ok(ip) => ip,
            Err(_) => {
                return None;
            },
        };
        let mask = if b[i] == SLASH {
            Ipv6Mask::from_length_text(tail)
        } else {
            Ipv6Mask::from_address_text(tail)
        };
        match mask {
            Some(mask) => Some(Self::new(ip, mask)),
            None => None,
        }
    }

    /// Reads a masked address from a string in CIDR form. More than one
    /// slash, a length above 128 and anything after the length are refused.
    pub fn from_cidr_str(s: &str) -> (r: Option<Self>)
        ensures
            match r {
                Some(m) => m.mask.wf() && cidr_of_text(s.spec_bytes(), 16) == Some((m.ip@, m.mask@)),
                None => cidr_of_text(s.spec_bytes(), 16) is None,
            },
    {
        Self::parse_cidr(s.as_bytes())
    }

    /// Reads a masked address from a string in either notation.
    pub fn from_str(s: &str) -> (r: Result<Self, InvalidMaskedIpv6>)
        ensures
            match r {
                Ok(m) => m.mask.wf() && masked_of_text(s.spec_bytes(), 16) == Some((m.ip@, m.mask@)),
                Err(_) => masked_of_text(s.spec_bytes(), 16) is None,
            },
    {
        match Self::parse_ascii(s.as_bytes()) {
            Some(m) => Ok(m),
            None => Err(InvalidMaskedIpv6),
        }
    }

    /// Writes the text of the masked address in the given notation at the
    /// end of `out`.
    pub fn write(&self, out: &mut Vec<u8>, notation: Notation)
        ensures
            final(out)@ == old(out)@ + masked_text(self.ip@, self.mask@, notation),
    {
        write_v6(out, self.ip.as_octets());
        match notation {
            Notation::Address => {
                out.push(SPACE);
                write_v6(out, &self.mask.octets());
            },
            Notation::Prefix => {
                out.push(SLASH);
                write_decimal(out, self.mask.len());
            },
        }
        assert(final(out)@ =~= old(out)@ + masked_text(self.ip@, self.mask@, notation));
    }

    /// The text of the masked address in the given notation.
    pub fn format(&self, notation: Notation) -> (r: String)
        ensures
            r@ == chars_of(masked_text(self.ip@, self.mask@, notation)),
            encode_utf8(r@) == masked_text(self.ip@, self.mask@, notation),
    {
        let mut out: Vec<u8> = Vec::new();
        self.write(&mut out, notation);
        assert(out@ =~= masked_text(self.ip@, self.mask@, notation));
        proof {
            lemma_texts_are_notation(self.ip@, self.mask@, notation);
            lemma_bytes_of_chars(out@);
        }
        string_of(&out)
    }

    /// The text of the masked address in CIDR form.
    pub fn to_cidr_str(&self) -> (r: String)
        ensures
            r@ == chars_of(masked_text(self.ip@, self.mask@, Notation::Prefix)),
            encode_utf8(r@) == masked_text(self.ip@, self.mask@, Notation::Prefix),
    {
        self.format(Notation::Prefix)
    }

    /// The network address: `ip AND mask`.
    pub fn network_address(&self) -> (r: Ipv6Addr)
        ensures
            r@ == self.network_address_spec(),
    {
        self.ip.bitand(self.mask)
    }

    /// The masked address of the network address, under the same mask.
    pub fn network(&self) -> (r: MaskedIpv6)
        ensures
            r.ip@ == self.network_address_spec(),
            r.mask == self.mask,
    {
        Self::new(self.network_address(), self.mask)
    }

    /// Whether the address is the network address of a network that has one:
    /// every host bit is clear and the mask is no longer than 126. With a
    /// mask of length 127 or 128 no address is set aside for the network.
    pub fn is_network_address(&self) -> (r: bool)
        ensures
            r == (self.mask.len_spec() <= 126 && self.ip@ == self.network_address_spec()),
    {
        self.mask.len() <= 126 && self.ip == self.network_address()
    }

    /// The number of network bits: the length of the mask.
    pub fn network_bits(&self) -> (r: u8)
        ensures
            r == self.mask.len_spec(),
            r <= 128,
    {
        self.mask.len()
    }

    /// The number of host bits: the width of the address less the length of
    /// the mask.
    pub fn host_bits(&self) -> (r: u8)
        ensures
            r == self.host_bits_spec(),
            r <= 128,
    {
        128 - self.network_bits()
    }

    /// Whether the network of this masked address holds `ip`. The network
    /// address and the broadcast address are in the network too.
    pub fn contains(&self, ip: Ipv6Addr) -> (r: bool)
        ensures
            r == self.contains_spec(ip@),
    {
        self.ip.bitand(self.mask) == ip.bitand(self.mask)
    }

    /// The network of this masked address.
    pub fn to_network(&self) -> (r: NetworkV6)
        ensures
            r.wf(),
            r.ip_spec()@ == self.network_address_spec(),
            r.mask_spec() == self.mask,
    {
        NetworkV6::new(self.ip, self.mask)
    }

    /// The number of usable host addresses in the network. It is at most
    /// `2^128 - 2`, which a `u128` holds.
    pub fn host_count(&self) -> (r: u128)
        ensures
            r == host_count_of(self.host_bits_spec()),
    {
        let host_bits = self.host_bits();
        if host_bits == 0 {
            1
        } else if host_bits == 1 {
            2
        } else if host_bits == 128 {
            proof {
                lemma_two_to_the_128();
            }
            0xFFFF_FFFF_FFFF_FFFF_FFFF_FFFF_FFFF_FFFE
        } else {
            let all = two_to_the(host_bits);
            proof {
                lemma2_to64();
                lemma_pow2_strictly_increases(1, host_bits as nat);
            }
            all - 2
        }
    }

    /// The number of networks of prefix length `new_len` that fit in this
    /// network. A `new_len` above 128 is no prefix length, and the count must
    /// fit a `u128`: it does not for the 128 borrowed bits of the `/128`
    /// networks in the `/0` network.
    pub fn network_count(&self, new_len: u8) -> (r: u128)
        requires
            new_len <= 128,
            network_count_of(self.mask.len_spec(), new_len as nat) <= u128::MAX,
        ensures
            r == network_count_of(self.mask.len_spec(), new_len as nat),
    {
        let curr_len = self.mask.len();
        if new_len < curr_len {
            0
        } else {
            let borrowed_bits = new_len - curr_len;
            proof {
                lemma_two_to_the_128();
            }
            two_to_the(borrowed_bits)
        }
    }
}

impl MaskedIp {
    /// The bytes of the address and of the mask: four each for IPv4, sixteen
    /// each for IPv6.
    pub open spec fn parts(self) -> (Seq<u8>, Seq<u8>) {
        match self {
            MaskedIp::V4(m) => (m.ip@, m.mask@),
            MaskedIp::V6(m) => (m.ip@, m.mask@),
        }
    }

    /// What holds of every masked address: its mask is a prefix mask.
    pub open spec fn wf(self) -> bool {
        match self {
            MaskedIp::V4(m) => m.mask.wf(),
            MaskedIp::V6(m) => m.mask.wf(),
        }
    }

    /// Reads a masked address of either family from a string in CIDR form.
    /// The family is IPv4 if the text before the slash is an IPv4 address,
    /// else IPv6.
    pub fn from_cidr_str(s: &str) -> (r: Option<Self>)
        ensures
            match r {
                Some(m) => any_cidr_of_text(s.spec_bytes()) == Some(m.parts()) && (m is V4
                    <==> is_v4_cidr_text(s.spec_bytes())),
                None => any_cidr_of_text(s.spec_bytes()) is None,
            },
    {
        let b = s.as_bytes();
        let i = find(b, SLASH);
        let v4 = if i < b.len() {
            let head = slice_subrange(b, 0, i);
            assert(head@ =~= b@.take(i as int));
            parse_v4(head).is_some()
        } else {
            false
        };
        if v4 {
            match MaskedIpv4::parse_cidr(b) {
                Some(m) => Some(MaskedIp::V4(m)),
                None => None,
            }
        } else {
            match MaskedIpv6::parse_cidr(b) {
                Some(m) => Some(MaskedIp::V6(m)),
                None => None,
            }
        }
    }

    /// Reads a masked address of either family from a string in either
    /// notation. The family is IPv4 if the string is a masked IPv4 address,
    /// else IPv6.
    pub fn from_str(s: &str) -> (r: Result<Self, InvalidMaskedIp>)
        ensures
            match r {
                Ok(m) => any_masked_of_text(s.spec_bytes()) == Some(m.parts()) && (m is V4
                    <==> masked_of_text(s.spec_bytes(), 4) is Some),
                Err(_) => any_masked_of_text(s.spec_bytes()) is None,
            },
    {
        let b = s.as_bytes();
        match MaskedIpv4::parse_ascii(b) {
            Some(m) => Ok(MaskedIp::V4(m)),
            None => match MaskedIpv6::parse_ascii(b) {
                Some(m) => Ok(MaskedIp::V6(m)),
                None => Err(InvalidMaskedIp),
            },
        }
    }

    /// The text of the masked address in the given notation.
    pub fn format(&self, notation: Notation) -> (r: String)
        ensures
            r@ == chars_of(masked_text(self.parts().0, self.parts().1, notation)),
            encode_utf8(r@) == masked_text(self.parts().0, self.parts().1, notation),
    {
        match self {
            MaskedIp::V4(m) => m.format(notation),
            MaskedIp::V6(m) => m.format(notation),
        }
    }

    /// The text of the masked address in CIDR form.
    pub fn to_cidr_string(&self) -> (r: String)
        ensures
            r@ == chars_of(masked_text(self.parts().0, self.parts().1, Notation::Prefix)),
            encode_utf8(r@) == masked_text(self.parts().0, self.parts().1, Notation::Prefix),
    {
        self.format(Notation::Prefix)
    }

    /// Reading the text of a masked address of either family gives the
    /// masked address, in either notation when any notation is read for,
    /// and in CIDR form when that is read for.
    pub proof fn lemma_text_round_trip(self, notation: Notation)
        requires
            self.wf(),
        ensures
            any_masked_of_text(masked_text(self.parts().0, self.parts().1, notation)) == Some(
                self.parts(),
            ),
            any_cidr_of_text(masked_text(self.parts().0, self.parts().1, Notation::Prefix)) == Some(
                self.parts(),
            ),
            is_v4_cidr_text(masked_text(self.parts().0, self.parts().1, Notation::Prefix))
                <==> self is V4,
    {
        lemma_any_masked_round_trip(self.parts().0, self.parts().1, notation);
    }

    /// The network address, in the address's own family.
    pub fn network_address(&self) -> (r: IpAddr)
        ensures
            match *self {
                MaskedIp::V4(m) => r matches IpAddr::V4(a) && a@ == m.network_address_spec(),
                MaskedIp::V6(m) => r matches IpAddr::V6(a) && a@ == m.network_address_spec(),
            },
    {
        match self {
            MaskedIp::V4(m) => IpAddr::V4(m.network_address()),
            MaskedIp::V6(m) => IpAddr::V6(m.network_address()),
        }
    }

    /// The masked address of the network address, under the same mask.
    pub fn network(&self) -> (r: Self)
        ensures
            match *self {
                MaskedIp::V4(m) => r matches MaskedIp::V4(n) && n.ip@ == m.network_address_spec()
                    && n.mask == m.mask,
                MaskedIp::V6(m) => r matches MaskedIp::V6(n) && n.ip@ == m.network_address_spec()
                    && n.mask == m.mask,
            },
    {
        match self {
            MaskedIp::V4(m) => MaskedIp::V4(m.network()),
            MaskedIp::V6(m) => MaskedIp::V6(m.network()),
        }
    }

    /// Whether the address is the network address of a network that has one.
    pub fn is_network_address(&self) -> (r: bool)
        ensures
            r == match *self {
                MaskedIp::V4(m) => m.mask.len_spec() <= 30 && m.ip@ == m.network_address_spec(),
                MaskedIp::V6(m) => m.mask.len_spec() <= 126 && m.ip@ == m.network_address_spec(),
            },
    {
        match self {
            MaskedIp::V4(m) => m.is_network_address(),
            MaskedIp::V6(m) => m.is_network_address(),
        }
    }

    /// Whether the address is the broadcast address of a network that has
    /// one. IPv6 has no broadcast, so there the answer is always `false`.
    pub fn is_broadcast_address(&self) -> (r: bool)
        ensures
            r == match *self {
                MaskedIp::V4(m) => m.mask.len_spec() <= 30 && m.ip@ == m.broadcast_address_spec(),
                MaskedIp::V6(_) => false,
            },
    {
        match self {
            MaskedIp::V4(m) => m.is_broadcast_address(),
            MaskedIp::V6(_) => false,
        }
    }

    /// The number of network bits: the length of the mask.
    pub fn network_bits(&self) -> (r: u8)
        ensures
            r == match *self {
                MaskedIp::V4(m) => m.mask.len_spec(),
                MaskedIp::V6(m) => m.mask.len_spec(),
            },
    {
        match self {
            MaskedIp::V4(m) => m.network_bits(),
            MaskedIp::V6(m) => m.network_bits(),
        }
    }

    /// The number of host bits.
    pub fn host_bits(&self) -> (r: u8)
        ensures
            r == match *self {
                MaskedIp::V4(m) => m.host_bits_spec(),
                MaskedIp::V6(m) => m.host_bits_spec(),
            },
    {
        match self {
            MaskedIp::V4(m) => m.host_bits(),
            MaskedIp::V6(m) => m.host_bits(),
        }
    }

    /// The number of usable host addresses in the network.
    pub fn host_count(&self) -> (r: u128)
        ensures
            r == match *self {
                MaskedIp::V4(m) => host_count_of(m.host_bits_spec()),
                MaskedIp::V6(m) => host_count_of(m.host_bits_spec()),
            },
    {
        match self {
            MaskedIp::V4(m) => m.host_count_u64() as u128,
            MaskedIp::V6(m) => m.host_count(),
        }
    }

    /// The number of networks of prefix length `len` that fit in this
    /// network. A `len` above the family's width is no prefix length, and the
    /// count must fit a `u128`.
    pub fn network_count(&self, len: u8) -> (r: u128)
        requires
            match *self {
                MaskedIp::V4(m) => len <= 32,
                MaskedIp::V6(m) => len <= 128 && network_count_of(m.mask.len_spec(), len as nat)
                    <= u128::MAX,
            },
        ensures
            r == match *self {
                MaskedIp::V4(m) => network_count_of(m.mask.len_spec(), len as nat),
                MaskedIp::V6(m) => network_count_of(m.mask.len_spec(), len as nat),
            },
    {
        match self {
            MaskedIp::V4(m) => m.network_count_u64(len) as u128,
            MaskedIp::V6(m) => m.network_count(len),
        }
    }

    /// Whether the network holds `ip`. An address of the other family is
    /// never in the network.
    pub fn contains(&self, ip: IpAddr) -> (r: bool)
        ensures
            r == match (*self, ip) {
                (MaskedIp::V4(m), IpAddr::V4(a)) => m.contains_spec(a@),
                (MaskedIp::V6(m), IpAddr::V6(a)) => m.contains_spec(a@),
                _ => false,
            },
    {
        match (self, ip) {
            (MaskedIp::V4(m), IpAddr::V4(ip)) => m.contains(ip),
            (MaskedIp::V6(m), IpAddr::V6(ip)) => m.contains(ip),
            _ => false,
        }
    }
}

} // verus!
