//! Networks: an address and a prefix mask in which the address is always the
//! network address, with every host bit clear.

use crate::addrs::{Ipv4Addr, Ipv6Addr};
use crate::bits::{and_seq, lemma_and_absorbs};
use crate::mask::{Ipv4Mask, Ipv6Mask};
use crate::masked::{MaskedIpv4, MaskedIpv6};
use crate::ops::IpBitwiseExt;
use crate::prefix::prefix_mask;
use crate::text::ascii::chars_of;
use crate::text::notation::{lemma_network_round_trip, masked_text, network_of_text, Notation};
use vstd::prelude::*;
use vstd::std_specs::cmp::PartialEqSpecImpl;
use vstd::string::StringSliceAdditionalSpecFns;
use vstd::utf8::encode_utf8;

verus! {

/// An IPv4 network: a network address and its mask.
#[derive(Copy, Clone, Eq, Hash, Debug)]
pub struct NetworkV4 {
    ip: Ipv4Addr,
    mask: Ipv4Mask,
}

/// An IPv6 network: a network address and its mask.
#[derive(Copy, Clone, Eq, Hash, Debug)]
pub struct NetworkV6 {
    ip: Ipv6Addr,
    mask: Ipv6Mask,
}

/// The error for a text or an encoding that is no IPv4 network.
#[derive(Copy, Clone, PartialEq, Eq, Structural, Debug)]
pub struct InvalidNetworkV4;

/// The error for a text or an encoding that is no IPv6 network.
#[derive(Copy, Clone, PartialEq, Eq, Structural, Debug)]
pub struct InvalidNetworkV6;

impl InvalidNetworkV4 {
    /// What went wrong, in words.
    pub fn message(&self) -> (r: &'static str)
        ensures
            r@ == "invalid IPv4 network"@,
    {
        "invalid IPv4 network"
    }
}

impl InvalidNetworkV6 {
    /// What went wrong, in words.
    pub fn message(&self) -> (r: &'static str)
        ensures
            r@ == "invalid IPv6 network"@,
    {
        "invalid IPv6 network"
    }
}

impl PartialEq for NetworkV4 {
    fn eq(&self, other: &Self) -> (r: bool) {
        self.ip == other.ip && self.mask == other.mask
    }
}

impl PartialEqSpecImpl for NetworkV4 {
    open spec fn obeys_eq_spec() -> bool {
        true
    }

    open spec fn eq_spec(&self, other: &Self) -> bool {
        self.ip_spec()@ == other.ip_spec()@ && self.mask_spec()@ == other.mask_spec()@
    }
}

impl PartialEq for NetworkV6 {
    fn eq(&self, other: &Self) -> (r: bool) {
        self.ip == other.ip && self.mask == other.mask
    }
}

impl PartialEqSpecImpl for NetworkV6 {
    open spec fn obeys_eq_spec() -> bool {
        true
    }

    open spec fn eq_spec(&self, other: &Self) -> bool {
        self.ip_spec()@ == other.ip_spec()@ && self.mask_spec()@ == other.mask_spec()@
    }
}

impl NetworkV4 {
    /// The network address, for specifications.
    pub closed spec fn ip_spec(self) -> Ipv4Addr {
        self.ip
    }

    /// The mask, for specifications.
    pub closed spec fn mask_spec(self) -> Ipv4Mask {
        self.mask
    }

    /// What holds of every network: its mask is a prefix mask and its address
    /// has no bit set outside the mask.
    #[verifier::type_invariant]
    pub open spec fn wf(self) -> bool {
        &&& self.mask_spec().wf()
        &&& self.ip_spec()@ == and_seq(self.ip_spec()@, self.mask_spec()@)
    }

    /// Two networks with the same address bytes and the same mask bytes are
    /// the same network.
    pub proof fn lemma_eq_by_view(self, other: Self)
        requires
            self.ip_spec()@ == other.ip_spec()@,
            self.mask_spec()@ == other.mask_spec()@,
        ensures
            self == other,
    {
        self.ip.lemma_eq_by_view(other.ip);
        self.mask.lemma_eq_by_view(other.mask);
    }

    /// The network that holds `ip` under `mask`: its address is `ip AND mask`.
    pub fn new(ip: Ipv4Addr, mask: Ipv4Mask) -> (r: Self)
        ensures
            r.wf(),
            r.ip_spec()@ == and_seq(ip@, mask@),
            r.mask_spec() == mask,
    {
        proof {
            use_type_invariant(&mask);
            lemma_and_absorbs(ip@, mask@);
        }
        let ip = ip.bitand(mask);
        NetworkV4 { ip, mask }
    }

    /// The network that holds `ip` under the mask of the given length, for a
    /// length of at most 32; `None` for a greater one.
    pub fn cidr(ip: Ipv4Addr, len: u8) -> (r: Option<Self>)
        ensures
            r is Some <==> len <= 32,
            r matches Some(n) ==> n.wf() && n.mask_spec()@ == prefix_mask(len as nat, 4)
                && n.mask_spec().len_spec() == len && n.ip_spec()@ == and_seq(
                ip@,
                prefix_mask(len as nat, 4),
            ),
    {
        match Ipv4Mask::new(len) {
            Some(mask) => Some(Self::new(ip, mask)),
            None => None,
        }
    }

    /// Reading the text of a network, in either notation, gives the
    /// network.
    pub proof fn lemma_text_round_trip(self, notation: Notation)
        requires
            self.wf(),
        ensures
            network_of_text(masked_text(self.ip_spec()@, self.mask_spec()@, notation), 4) == Some(
                (self.ip_spec()@, self.mask_spec()@),
            ),
    {
        lemma_network_round_trip(self.ip_spec()@, self.mask_spec()@, notation);
    }

    /// The masked address with this network's address and mask.
    pub fn to_masked(&self) -> (r: MaskedIpv4)
        ensures
            r.ip == self.ip_spec(),
            r.mask == self.mask_spec(),
    {
        MaskedIpv4::new(self.ip, self.mask)
    }

    /// Reads a network from ASCII text in either notation. The address of
    /// the text may be any address of the network: its host bits are
    /// cleared.
    pub fn parse_ascii(b: &[u8]) -> (r: Result<Self, InvalidNetworkV4>)
        ensures
            match r {
                Ok(net) => net.wf() && network_of_text(b@, 4) == Some(
                    (net.ip_spec()@, net.mask_spec()@),
                ),
                Err(_) => network_of_text(b@, 4) is None,
            },
    {
        match MaskedIpv4::parse_ascii(b) {
            Some(m) => Ok(m.to_network()),
            None => Err(InvalidNetworkV4),
        }
    }

    /// Reads a network from a string in either notation.
    pub fn from_str(s: &str) -> (r: Result<Self, InvalidNetworkV4>)
        ensures
            match r {
                Ok(net) => net.wf() && network_of_text(s.spec_bytes(), 4) == Some(
                    (net.ip_spec()@, net.mask_spec()@),
                ),
                Err(_) => network_of_text(s.spec_bytes(), 4) is None,
            },
    {
        Self::parse_ascii(s.as_bytes())
    }

    /// The text of the network in the given notation.
    pub fn format(&self, notation: Notation) -> (r: String)
        ensures
            r@ == chars_of(masked_text(self.ip_spec()@, self.mask_spec()@, notation)),
            encode_utf8(r@) == masked_text(self.ip_spec()@, self.mask_spec()@, notation),
    {
        self.to_masked().format(notation)
    }

    /// The network address.
    pub fn ip(&self) -> (r: Ipv4Addr)
        ensures
            r == self.ip_spec(),
            r@ == and_seq(r@, self.mask_spec()@),
    {
        proof {
            use_type_invariant(self);
        }
        self.ip
    }

    /// The mask.
    pub fn mask(&self) -> (r: Ipv4Mask)
        ensures
            r == self.mask_spec(),
            r.wf(),
    {
        proof {
            use_type_invariant(self);
        }
        self.mask
    }
}

impl NetworkV6 {
    /// The network address, for specifications.
    pub closed spec fn ip_spec(self) -> Ipv6Addr {
        self.ip
    }

    /// The mask, for specifications.
    pub closed spec fn mask_spec(self) -> Ipv6Mask {
        self.mask
    }

    /// What holds of every network: its mask is a prefix mask and its address
    /// has no bit set outside the mask.
    #[verifier::type_invariant]
    pub open spec fn wf(self) -> bool {
        &&& self.mask_spec().wf()
        &&& self.ip_spec()@ == and_seq(self.ip_spec()@, self.mask_spec()@)
    }

    /// Two networks with the same address bytes and the same mask bytes are
    /// the same network.
    pub proof fn lemma_eq_by_view(self, other: Self)
        requires
            self.ip_spec()@ == other.ip_spec()@,
            self.mask_spec()@ == other.mask_spec()@,
        ensures
            self == other,
    {
        self.ip.lemma_eq_by_view(other.ip);
        self.mask.lemma_eq_by_view(other.mask);
    }

    /// The network that holds `ip` under `mask`: its address is `ip AND mask`.
    pub fn new(ip: Ipv6Addr, mask: Ipv6Mask) -> (r: Self)
        ensures
            r.wf(),
            r.ip_spec()@ == and_seq(ip@, mask@),
            r.mask_spec() == mask,
    {
        proof {
            use_type_invariant(&mask);
            lemma_and_absorbs(ip@, mask@);
        }
        let ip = ip.bitand(mask);
        NetworkV6 { ip, mask }
    }

    /// The network that holds `ip` under the mask of the given length, for a
    /// length of at most 128; `None` for a greater one.
    pub fn cidr(ip: Ipv6Addr, len: u8) -> (r: Option<Self>)
        ensures
            r is Some <==> len <= 128,
            r matches Some(n) ==> n.wf() && n.mask_spec()@ == prefix_mask(len as nat, 16)
                && n.mask_spec().len_spec() == len && n.ip_spec()@ == and_seq(
                ip@,
                prefix_mask(len as nat, 16),
            ),
    {
        match Ipv6Mask::new(len) {
            Some(mask) => Some(Self::new(ip, mask)),
            None => None,
        }
    }

    /// Reading the text of a network, in either notation, gives the
    /// network.
    pub proof fn lemma_text_round_trip(self, notation: Notation)
        requires
            self.wf(),
        ensures
            network_of_text(masked_text(self.ip_spec()@, self.mask_spec()@, notation), 16) == Some(
                (self.ip_spec()@, self.mask_spec()@),
            ),
    {
        lemma_network_round_trip(self.ip_spec()@, self.mask_spec()@, notation);
    }

    /// The masked address with this network's address and mask.
    pub fn to_masked(&self) -> (r: MaskedIpv6)
        ensures
            r.ip == self.ip_spec(),
            r.mask == self.mask_spec(),
    {
        MaskedIpv6::new(self.ip, self.mask)
    }

    /// Reads a network from ASCII text in either notation. The address of
    /// the text may be any address of the network: its host bits are
    /// cleared.
    pub fn parse_ascii(b: &[u8]) -> (r: Result<Self, InvalidNetworkV6>)
        ensures
            match r {
                Ok(net) => net.wf() && network_of_text(b@, 16) == Some(
                    (net.ip_spec()@, net.mask_spec()@),
                ),
                Err(_) => network_of_text(b@, 16) is None,
            },
    {
        match MaskedIpv6::parse_ascii(b) {
            Some(m) => Ok(m.to_network()),
            None => Err(InvalidNetworkV6),
        }
    }

    /// Reads a network from a string in either notation.
    pub fn from_str(s: &str) -> (r: Result<Self, InvalidNetworkV6>)
        ensures
            match r {
                Ok(net) => net.wf() && network_of_text(s.spec_bytes(), 16) == Some(
                    (net.ip_spec()@, net.mask_spec()@),
                ),
                Err(_) => network_of_text(s.spec_bytes(), 16) is None,
            },
    {
        Self::parse_ascii(s.as_bytes())
    }

    /// The text of the network in the given notation.
    pub fn format(&self, notation: Notation) -> (r: String)
        ensures
            r@ == chars_of(masked_text(self.ip_spec()@, self.mask_spec()@, notation)),
            encode_utf8(r@) == masked_text(self.ip_spec()@, self.mask_spec()@, notation),
    {
        self.to_masked().format(notation)
    }

    /// The network address.
    pub fn ip(&self) -> (r: Ipv6Addr)
        ensures
            r == self.ip_spec(),
            r@ == and_seq(r@, self.mask_spec()@),
    {
        proof {
            use_type_invariant(self);
        }
        self.ip
    }

    /// The mask.
    pub fn mask(&self) -> (r: Ipv6Mask)
        ensures
            r == self.mask_spec(),
            r.wf(),
    {
        proof {
            use_type_invariant(self);
        }
        self.mask
    }
}

} // verus!
