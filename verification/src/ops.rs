//! Bitwise operations on addresses: an address combined with a block of the
//! same width, given as bytes, as another address, as a mask, as segments or
//! as a number. A number or a list of segments is first written out as bytes,
//! most significant first, so the result does not depend on the host's byte
//! order.

use crate::addrs::{Ipv4Addr, Ipv6Addr};
use crate::bits::{
    and_bytes, and_seq, be_bytes, be_value, bytes_of_segment_array, bytes_of_segments,
    bytes_of_value, lemma_value_of_combination_u128, lemma_value_of_combination_u32,
    lemma_value_of_complement_as_number, not_bytes, not_seq, or_bytes, or_seq, xor_bytes, xor_seq,
};
use crate::mask::{Ipv4Mask, Ipv6Mask};
use vstd::prelude::*;

verus! {

/// Bitwise binary operations of an address with a right-hand side of the same
/// width.
pub trait IpBitwiseExt<Rhs = Self> {
    /// The type of the result.
    type Output;

    /// Bitwise AND.
    fn bitand(self, rhs: Rhs) -> Self::Output;

    /// Bitwise OR.
    fn bitor(self, rhs: Rhs) -> Self::Output;

    /// Bitwise XOR.
    fn bitxor(self, rhs: Rhs) -> Self::Output;
}

/// The bitwise complement of an address.
pub trait IpBitwiseNotExt {
    /// Bitwise NOT.
    fn bitnot(self) -> Self;
}

impl IpBitwiseNotExt for Ipv4Addr {
    fn bitnot(self) -> (r: Self)
        ensures
            r@ == not_seq(self@),
            be_value(r@) == !(be_value(self@) as u32),
    {
        proof {
            lemma_value_of_complement_as_number(self@);
        }
        Ipv4Addr::from_octets(not_bytes(self.as_octets()))
    }
}

impl IpBitwiseNotExt for Ipv6Addr {
    fn bitnot(self) -> (r: Self)
        ensures
            r@ == not_seq(self@),
            be_value(r@) == !(be_value(self@) as u128),
    {
        proof {
            lemma_value_of_complement_as_number(self@);
        }
        Ipv6Addr::from_octets(not_bytes(self.as_octets()))
    }
}

/// An IPv4 address with four bytes.
impl IpBitwiseExt<[u8; 4]> for Ipv4Addr {
    type Output = Ipv4Addr;

    fn bitand(self, rhs: [u8; 4]) -> (r: Ipv4Addr)
        ensures
            r@ == and_seq(self@, rhs@),
    {
        Ipv4Addr::from_octets(and_bytes(self.as_octets(), &rhs))
    }

    fn bitor(self, rhs: [u8; 4]) -> (r: Ipv4Addr)
        ensures
            r@ == or_seq(self@, rhs@),
    {
        Ipv4Addr::from_octets(or_bytes(self.as_octets(), &rhs))
    }

    fn bitxor(self, rhs: [u8; 4]) -> (r: Ipv4Addr)
        ensures
            r@ == xor_seq(self@, rhs@),
    {
        Ipv4Addr::from_octets(xor_bytes(self.as_octets(), &rhs))
    }
}

/// An IPv4 address with another.
impl IpBitwiseExt<Ipv4Addr> for Ipv4Addr {
    type Output = Ipv4Addr;

    fn bitand(self, rhs: Ipv4Addr) -> (r: Ipv4Addr)
        ensures
            r@ == and_seq(self@, rhs@),
    {
        Ipv4Addr::from_octets(and_bytes(self.as_octets(), &rhs.octets()))
    }

    fn bitor(self, rhs: Ipv4Addr) -> (r: Ipv4Addr)
        ensures
            r@ == or_seq(self@, rhs@),
    {
        Ipv4Addr::from_octets(or_bytes(self.as_octets(), &rhs.octets()))
    }

    fn bitxor(self, rhs: Ipv4Addr) -> (r: Ipv4Addr)
        ensures
            r@ == xor_seq(self@, rhs@),
    {
        Ipv4Addr::from_octets(xor_bytes(self.as_octets(), &rhs.octets()))
    }
}

/// An IPv4 address with a mask.
impl IpBitwiseExt<Ipv4Mask> for Ipv4Addr {
    type Output = Ipv4Addr;

    fn bitand(self, rhs: Ipv4Mask) -> (r: Ipv4Addr)
        ensures
            r@ == and_seq(self@, rhs@),
    {
        Ipv4Addr::from_octets(and_bytes(self.as_octets(), &rhs.octets()))
    }

    fn bitor(self, rhs: Ipv4Mask) -> (r: Ipv4Addr)
        ensures
            r@ == or_seq(self@, rhs@),
    {
        Ipv4Addr::from_octets(or_bytes(self.as_octets(), &rhs.octets()))
    }

    fn bitxor(self, rhs: Ipv4Mask) -> (r: Ipv4Addr)
        ensures
            r@ == xor_seq(self@, rhs@),
    {
        Ipv4Addr::from_octets(xor_bytes(self.as_octets(), &rhs.octets()))
    }
}

/// An IPv4 address with a number, taken most significant byte first.
impl IpBitwiseExt<u32> for Ipv4Addr {
    type Output = Ipv4Addr;

    fn bitand(self, rhs: u32) -> (r: Ipv4Addr)
        ensures
            r@ == and_seq(self@, be_bytes(rhs as nat, 4)),
            be_value(r@) == (be_value(self@) as u32) & rhs,
    {
        proof {
            lemma_value_of_combination_u32(self@, rhs);
        }
        Ipv4Addr::from_octets(and_bytes(self.as_octets(), &bytes_of_value::<4>(rhs as u128)))
    }

    fn bitor(self, rhs: u32) -> (r: Ipv4Addr)
        ensures
            r@ == or_seq(self@, be_bytes(rhs as nat, 4)),
            be_value(r@) == (be_value(self@) as u32) | rhs,
    {
        proof {
            lemma_value_of_combination_u32(self@, rhs);
        }
        Ipv4Addr::from_octets(or_bytes(self.as_octets(), &bytes_of_value::<4>(rhs as u128)))
    }

    fn bitxor(self, rhs: u32) -> (r: Ipv4Addr)
        ensures
            r@ == xor_seq(self@, be_bytes(rhs as nat, 4)),
            be_value(r@) == (be_value(self@) as u32) ^ rhs,
    {
        proof {
            lemma_value_of_combination_u32(self@, rhs);
        }
        Ipv4Addr::from_octets(xor_bytes(self.as_octets(), &bytes_of_value::<4>(rhs as u128)))
    }
}

/// An IPv6 address with sixteen bytes.
impl IpBitwiseExt<[u8; 16]> for Ipv6Addr {
    type Output = Ipv6Addr;

    fn bitand(self, rhs: [u8; 16]) -> (r: Ipv6Addr)
        ensures
            r@ == and_seq(self@, rhs@),
    {
        Ipv6Addr::from_octets(and_bytes(self.as_octets(), &rhs))
    }

    fn bitor(self, rhs: [u8; 16]) -> (r: Ipv6Addr)
        ensures
            r@ == or_seq(self@, rhs@),
    {
        Ipv6Addr::from_octets(or_bytes(self.as_octets(), &rhs))
    }

    fn bitxor(self, rhs: [u8; 16]) -> (r: Ipv6Addr)
        ensures
            r@ == xor_seq(self@, rhs@),
    {
        Ipv6Addr::from_octets(xor_bytes(self.as_octets(), &rhs))
    }
}

/// An IPv6 address with another.
impl IpBitwiseExt<Ipv6Addr> for Ipv6Addr {
    type Output = Ipv6Addr;

    fn bitand(self, rhs: Ipv6Addr) -> (r: Ipv6Addr)
        ensures
            r@ == and_seq(self@, rhs@),
    {
        Ipv6Addr::from_octets(and_bytes(self.as_octets(), &rhs.octets()))
    }

    fn bitor(self, rhs: Ipv6Addr) -> (r: Ipv6Addr)
        ensures
            r@ == or_seq(self@, rhs@),
    {
        Ipv6Addr::from_octets(or_bytes(self.as_octets(), &rhs.octets()))
    }

    fn bitxor(self, rhs: Ipv6Addr) -> (r: Ipv6Addr)
        ensures
            r@ == xor_seq(self@, rhs@),
    {
        Ipv6Addr::from_octets(xor_bytes(self.as_octets(), &rhs.octets()))
    }
}

/// An IPv6 address with a mask.
impl IpBitwiseExt<Ipv6Mask> for Ipv6Addr {
    type Output = Ipv6Addr;

    fn bitand(self, rhs: Ipv6Mask) -> (r: Ipv6Addr)
        ensures
            r@ == and_seq(self@, rhs@),
    {
        Ipv6Addr::from_octets(and_bytes(self.as_octets(), &rhs.octets()))
    }

    fn bitor(self, rhs: Ipv6Mask) -> (r: Ipv6Addr)
        ensures
            r@ == or_seq(self@, rhs@),
    {
        Ipv6Addr::from_octets(or_bytes(self.as_octets(), &rhs.octets()))
    }

    fn bitxor(self, rhs: Ipv6Mask) -> (r: Ipv6Addr)
        ensures
            r@ == xor_seq(self@, rhs@),
    {
        Ipv6Addr::from_octets(xor_bytes(self.as_octets(), &rhs.octets()))
    }
}

/// An IPv6 address with eight 16-bit segments.
impl IpBitwiseExt<[u16; 8]> for Ipv6Addr {
    type Output = Ipv6Addr;

    fn bitand(self, rhs: [u16; 8]) -> (r: Ipv6Addr)
        ensures
            r@ == and_seq(self@, bytes_of_segments(rhs@)),
    {
        Ipv6Addr::from_octets(and_bytes(self.as_octets(), &bytes_of_segment_array(&rhs)))
    }

    fn bitor(self, rhs: [u16; 8]) -> (r: Ipv6Addr)
        ensures
            r@ == or_seq(self@, bytes_of_segments(rhs@)),
    {
        Ipv6Addr::from_octets(or_bytes(self.as_octets(), &bytes_of_segment_array(&rhs)))
    }

    fn bitxor(self, rhs: [u16; 8]) -> (r: Ipv6Addr)
        ensures
            r@ == xor_seq(self@, bytes_of_segments(rhs@)),
    {
        Ipv6Addr::from_octets(xor_bytes(self.as_octets(), &bytes_of_segment_array(&rhs)))
    }
}

/// An IPv6 address with a number, taken most significant byte first.
impl IpBitwiseExt<u128> for Ipv6Addr {
    type Output = Ipv6Addr;

    fn bitand(self, rhs: u128) -> (r: Ipv6Addr)
        ensures
            r@ == and_seq(self@, be_bytes(rhs as nat, 16)),
            be_value(r@) == (be_value(self@) as u128) & rhs,
    {
        proof {
            lemma_value_of_combination_u128(self@, rhs);
        }
        Ipv6Addr::from_octets(and_bytes(self.as_octets(), &bytes_of_value::<16>(rhs)))
    }

    fn bitor(self, rhs: u128) -> (r: Ipv6Addr)
        ensures
            r@ == or_seq(self@, be_bytes(rhs as nat, 16)),
            be_value(r@) == (be_value(self@) as u128) | rhs,
    {
        proof {
            lemma_value_of_combination_u128(self@, rhs);
        }
        Ipv6Addr::from_octets(or_bytes(self.as_octets(), &bytes_of_value::<16>(rhs)))
    }

    fn bitxor(self, rhs: u128) -> (r: Ipv6Addr)
        ensures
            r@ == xor_seq(self@, be_bytes(rhs as nat, 16)),
            be_value(r@) == (be_value(self@) as u128) ^ rhs,
    {
        proof {
            lemma_value_of_combination_u128(self@, rhs);
        }
        Ipv6Addr::from_octets(xor_bytes(self.as_octets(), &bytes_of_value::<16>(rhs)))
    }
}

} // verus!
