//! The operators `&`, `|`, `^` and `!` on addresses, and `!` on masks. Each
//! binary operator takes, on its right, a block of the address's width: another
//! address, a mask, bytes, segments, or a number, which is first written out as
//! bytes, most significant first.

use crate::addrs::{Ipv4Addr, Ipv6Addr};
use crate::bits::{
    and_bytes, and_seq, be_bytes, be_value, bytes_of_segment_array, bytes_of_segments,
    bytes_of_value, lemma_value_of_combination_u128, lemma_value_of_combination_u32,
    lemma_value_of_complement_as_number, not_bytes, not_seq, or_bytes, or_seq, xor_bytes, xor_seq,
};
use crate::mask::{Ipv4Mask, Ipv6Mask};
use core::ops::{BitAnd, BitOr, BitXor, Not};
use vstd::prelude::*;
use vstd::std_specs::ops::{BitAndSpecImpl, BitOrSpecImpl, BitXorSpecImpl, NotSpecImpl};

verus! {

impl BitAnd<Ipv4Addr> for Ipv4Addr {
    type Output = Ipv4Addr;

    /// Bytewise AND of the address and the right-hand side.
    fn bitand(self, rhs: Ipv4Addr) -> (r: Ipv4Addr)
        ensures
            r@ == and_seq(self@, rhs@),
    {
        let r = Ipv4Addr::from_octets(and_bytes(self.as_octets(), &rhs.octets()));
        proof {
            r.lemma_of_bytes();
        }
        r
    }
}

impl BitAndSpecImpl<Ipv4Addr> for Ipv4Addr {
    open spec fn obeys_bitand_spec() -> bool {
        true
    }

    open spec fn bitand_req(self, rhs: Ipv4Addr) -> bool {
        true
    }

    open spec fn bitand_spec(self, rhs: Ipv4Addr) -> Ipv4Addr {
        Ipv4Addr::of_bytes(and_seq(self@, rhs@))
    }
}

impl BitOr<Ipv4Addr> for Ipv4Addr {
    type Output = Ipv4Addr;

    /// Bytewise OR of the address and the right-hand side.
    fn bitor(self, rhs: Ipv4Addr) -> (r: Ipv4Addr)
        ensures
            r@ == or_seq(self@, rhs@),
    {
        let r = Ipv4Addr::from_octets(or_bytes(self.as_octets(), &rhs.octets()));
        proof {
            r.lemma_of_bytes();
        }
        r
    }
}

impl BitOrSpecImpl<Ipv4Addr> for Ipv4Addr {
    open spec fn obeys_bitor_spec() -> bool {
        true
    }

    open spec fn bitor_req(self, rhs: Ipv4Addr) -> bool {
        true
    }

    open spec fn bitor_spec(self, rhs: Ipv4Addr) -> Ipv4Addr {
        Ipv4Addr::of_bytes(or_seq(self@, rhs@))
    }
}

impl BitXor<Ipv4Addr> for Ipv4Addr {
    type Output = Ipv4Addr;

    /// Bytewise XOR of the address and the right-hand side.
    fn bitxor(self, rhs: Ipv4Addr) -> (r: Ipv4Addr)
        ensures
            r@ == xor_seq(self@, rhs@),
    {
        let r = Ipv4Addr::from_octets(xor_bytes(self.as_octets(), &rhs.octets()));
        proof {
            r.lemma_of_bytes();
        }
        r
    }
}

impl BitXorSpecImpl<Ipv4Addr> for Ipv4Addr {
    open spec fn obeys_bitxor_spec() -> bool {
        true
    }

    open spec fn bitxor_req(self, rhs: Ipv4Addr) -> bool {
        true
    }

    open spec fn bitxor_spec(self, rhs: Ipv4Addr) -> Ipv4Addr {
        Ipv4Addr::of_bytes(xor_seq(self@, rhs@))
    }
}

impl BitAnd<Ipv4Mask> for Ipv4Addr {
    type Output = Ipv4Addr;

    /// Bytewise AND of the address and the right-hand side.
    fn bitand(self, rhs: Ipv4Mask) -> (r: Ipv4Addr)
        ensures
            r@ == and_seq(self@, rhs@),
    {
        let r = Ipv4Addr::from_octets(and_bytes(self.as_octets(), &rhs.octets()));
        proof {
            r.lemma_of_bytes();
        }
        r
    }
}

impl BitAndSpecImpl<Ipv4Mask> for Ipv4Addr {
    open spec fn obeys_bitand_spec() -> bool {
        true
    }

    open spec fn bitand_req(self, rhs: Ipv4Mask) -> bool {
        true
    }

    open spec fn bitand_spec(self, rhs: Ipv4Mask) -> Ipv4Addr {
        Ipv4Addr::of_bytes(and_seq(self@, rhs@))
    }
}

impl BitOr<Ipv4Mask> for Ipv4Addr {
    type Output = Ipv4Addr;

    /// Bytewise OR of the address and the right-hand side.
    fn bitor(self, rhs: Ipv4Mask) -> (r: Ipv4Addr)
        ensures
            r@ == or_seq(self@, rhs@),
    {
        let r = Ipv4Addr::from_octets(or_bytes(self.as_octets(), &rhs.octets()));
        proof {
            r.lemma_of_bytes();
        }
        r
    }
}

impl BitOrSpecImpl<Ipv4Mask> for Ipv4Addr {
    open spec fn obeys_bitor_spec() -> bool {
        true
    }

    open spec fn bitor_req(self, rhs: Ipv4Mask) -> bool {
        true
    }

    open spec fn bitor_spec(self, rhs: Ipv4Mask) -> Ipv4Addr {
        Ipv4Addr::of_bytes(or_seq(self@, rhs@))
    }
}

impl BitXor<Ipv4Mask> for Ipv4Addr {
    type Output = Ipv4Addr;

    /// Bytewise XOR of the address and the right-hand side.
    fn bitxor(self, rhs: Ipv4Mask) -> (r: Ipv4Addr)
        ensures
            r@ == xor_seq(self@, rhs@),
    {
        let r = Ipv4Addr::from_octets(xor_bytes(self.as_octets(), &rhs.octets()));
        proof {
            r.lemma_of_bytes();
        }
        r
    }
}

impl BitXorSpecImpl<Ipv4Mask> for Ipv4Addr {
    open spec fn obeys_bitxor_spec() -> bool {
        true
    }

    open spec fn bitxor_req(self, rhs: Ipv4Mask) -> bool {
        true
    }

    open spec fn bitxor_spec(self, rhs: Ipv4Mask) -> Ipv4Addr {
        Ipv4Addr::of_bytes(xor_seq(self@, rhs@))
    }
}

impl BitAnd<[u8; 4]> for Ipv4Addr {
    type Output = Ipv4Addr;

    /// Bytewise AND of the address and the right-hand side.
    fn bitand(self, rhs: [u8; 4]) -> (r: Ipv4Addr)
        ensures
            r@ == and_seq(self@, rhs@),
    {
        let r = Ipv4Addr::from_octets(and_bytes(self.as_octets(), &rhs));
        proof {
            r.lemma_of_bytes();
        }
        r
    }
}

impl BitAndSpecImpl<[u8; 4]> for Ipv4Addr {
    open spec fn obeys_bitand_spec() -> bool {
        true
    }

    open spec fn bitand_req(self, rhs: [u8; 4]) -> bool {
        true
    }

    open spec fn bitand_spec(self, rhs: [u8; 4]) -> Ipv4Addr {
        Ipv4Addr::of_bytes(and_seq(self@, rhs@))
    }
}

impl BitOr<[u8; 4]> for Ipv4Addr {
    type Output = Ipv4Addr;

    /// Bytewise OR of the address and the right-hand side.
    fn bitor(self, rhs: [u8; 4]) -> (r: Ipv4Addr)
        ensures
            r@ == or_seq(self@, rhs@),
    {
        let r = Ipv4Addr::from_octets(or_bytes(self.as_octets(), &rhs));
        proof {
            r.lemma_of_bytes();
        }
        r
    }
}

impl BitOrSpecImpl<[u8; 4]> for Ipv4Addr {
    open spec fn obeys_bitor_spec() -> bool {
        true
    }

    open spec fn bitor_req(self, rhs: [u8; 4]) -> bool {
        true
    }

    open spec fn bitor_spec(self, rhs: [u8; 4]) -> Ipv4Addr {
        Ipv4Addr::of_bytes(or_seq(self@, rhs@))
    }
}

impl BitXor<[u8; 4]> for Ipv4Addr {
    type Output = Ipv4Addr;

    /// Bytewise XOR of the address and the right-hand side.
    fn bitxor(self, rhs: [u8; 4]) -> (r: Ipv4Addr)
        ensures
            r@ == xor_seq(self@, rhs@),
    {
        let r = Ipv4Addr::from_octets(xor_bytes(self.as_octets(), &rhs));
        proof {
            r.lemma_of_bytes();
        }
        r
    }
}

impl BitXorSpecImpl<[u8; 4]> for Ipv4Addr {
    open spec fn obeys_bitxor_spec() -> bool {
        true
    }

    open spec fn bitxor_req(self, rhs: [u8; 4]) -> bool {
        true
    }

    open spec fn bitxor_spec(self, rhs: [u8; 4]) -> Ipv4Addr {
        Ipv4Addr::of_bytes(xor_seq(self@, rhs@))
    }
}

impl BitAnd<u32> for Ipv4Addr {
    type Output = Ipv4Addr;

    /// Bytewise AND of the address and the right-hand side.
    fn bitand(self, rhs: u32) -> (r: Ipv4Addr)
        ensures
            r@ == and_seq(self@, be_bytes(rhs as nat, 4)),
            be_value(r@) == (be_value(self@) as u32) & rhs,
    {
        proof {
            lemma_value_of_combination_u32(self@, rhs);
        }
        let r = Ipv4Addr::from_octets(and_bytes(self.as_octets(), &bytes_of_value::<4>(rhs as u128)));
        proof {
            r.lemma_of_bytes();
        }
        r
    }
}

impl BitAndSpecImpl<u32> for Ipv4Addr {
    open spec fn obeys_bitand_spec() -> bool {
        true
    }

    open spec fn bitand_req(self, rhs: u32) -> bool {
        true
    }

    open spec fn bitand_spec(self, rhs: u32) -> Ipv4Addr {
        Ipv4Addr::of_bytes(and_seq(self@, be_bytes(rhs as nat, 4)))
    }
}

impl BitOr<u32> for Ipv4Addr {
    type Output = Ipv4Addr;

    /// Bytewise OR of the address and the right-hand side.
    fn bitor(self, rhs: u32) -> (r: Ipv4Addr)
        ensures
            r@ == or_seq(self@, be_bytes(rhs as nat, 4)),
            be_value(r@) == (be_value(self@) as u32) | rhs,
    {
        proof {
            lemma_value_of_combination_u32(self@, rhs);
        }
        let r = Ipv4Addr::from_octets(or_bytes(self.as_octets(), &bytes_of_value::<4>(rhs as u128)));
        proof {
            r.lemma_of_bytes();
        }
        r
    }
}

impl BitOrSpecImpl<u32> for Ipv4Addr {
    open spec fn obeys_bitor_spec() -> bool {
        true
    }

    open spec fn bitor_req(self, rhs: u32) -> bool {
        true
    }

    open spec fn bitor_spec(self, rhs: u32) -> Ipv4Addr {
        Ipv4Addr::of_bytes(or_seq(self@, be_bytes(rhs as nat, 4)))
    }
}

impl BitXor<u32> for Ipv4Addr {
    type Output = Ipv4Addr;

    /// Bytewise XOR of the address and the right-hand side.
    fn bitxor(self, rhs: u32) -> (r: Ipv4Addr)
        ensures
            r@ == xor_seq(self@, be_bytes(rhs as nat, 4)),
            be_value(r@) == (be_value(self@) as u32) ^ rhs,
    {
        proof {
            lemma_value_of_combination_u32(self@, rhs);
        }
        let r = Ipv4Addr::from_octets(xor_bytes(self.as_octets(), &bytes_of_value::<4>(rhs as u128)));
        proof {
            r.lemma_of_bytes();
        }
        r
    }
}

impl BitXorSpecImpl<u32> for Ipv4Addr {
    open spec fn obeys_bitxor_spec() -> bool {
        true
    }

    open spec fn bitxor_req(self, rhs: u32) -> bool {
        true
    }

    open spec fn bitxor_spec(self, rhs: u32) -> Ipv4Addr {
        Ipv4Addr::of_bytes(xor_seq(self@, be_bytes(rhs as nat, 4)))
    }
}

impl Not for Ipv4Addr {
    type Output = Ipv4Addr;

    /// Bytewise complement of the address.
    fn not(self) -> (r: Ipv4Addr)
        ensures
            r@ == not_seq(self@),
            be_value(r@) == !(be_value(self@) as u32),
    {
        proof {
            lemma_value_of_complement_as_number(self@);
        }
        let r = Ipv4Addr::from_octets(not_bytes(self.as_octets()));
        proof {
            r.lemma_of_bytes();
        }
        r
    }
}

impl NotSpecImpl for Ipv4Addr {
    open spec fn obeys_not_spec() -> bool {
        true
    }

    open spec fn not_req(self) -> bool {
        true
    }

    open spec fn not_spec(self) -> Ipv4Addr {
        Ipv4Addr::of_bytes(not_seq(self@))
    }
}

impl BitAnd<Ipv6Addr> for Ipv6Addr {
    type Output = Ipv6Addr;

    /// Bytewise AND of the address and the right-hand side.
    fn bitand(self, rhs: Ipv6Addr) -> (r: Ipv6Addr)
        ensures
            r@ == and_seq(self@, rhs@),
    {
        let r = Ipv6Addr::from_octets(and_bytes(self.as_octets(), &rhs.octets()));
        proof {
            r.lemma_of_bytes();
        }
        r
    }
}

impl BitAndSpecImpl<Ipv6Addr> for Ipv6Addr {
    open spec fn obeys_bitand_spec() -> bool {
        true
    }

    open spec fn bitand_req(self, rhs: Ipv6Addr) -> bool {
        true
    }

    open spec fn bitand_spec(self, rhs: Ipv6Addr) -> Ipv6Addr {
        Ipv6Addr::of_bytes(and_seq(self@, rhs@))
    }
}

impl BitOr<Ipv6Addr> for Ipv6Addr {
    type Output = Ipv6Addr;

    /// Bytewise OR of the address and the right-hand side.
    fn bitor(self, rhs: Ipv6Addr) -> (r: Ipv6Addr)
        ensures
            r@ == or_seq(self@, rhs@),
    {
        let r = Ipv6Addr::from_octets(or_bytes(self.as_octets(), &rhs.octets()));
        proof {
            r.lemma_of_bytes();
        }
        r
    }
}

impl BitOrSpecImpl<Ipv6Addr> for Ipv6Addr {
    open spec fn obeys_bitor_spec() -> bool {
        true
    }

    open spec fn bitor_req(self, rhs: Ipv6Addr) -> bool {
        true
    }

    open spec fn bitor_spec(self, rhs: Ipv6Addr) -> Ipv6Addr {
        Ipv6Addr::of_bytes(or_seq(self@, rhs@))
    }
}

impl BitXor<Ipv6Addr> for Ipv6Addr {
    type Output = Ipv6Addr;

    /// Bytewise XOR of the address and the right-hand side.
    fn bitxor(self, rhs: Ipv6Addr) -> (r: Ipv6Addr)
        ensures
            r@ == xor_seq(self@, rhs@),
    {
        let r = Ipv6Addr::from_octets(xor_bytes(self.as_octets(), &rhs.octets()));
        proof {
            r.lemma_of_bytes();
        }
        r
    }
}

impl BitXorSpecImpl<Ipv6Addr> for Ipv6Addr {
    open spec fn obeys_bitxor_spec() -> bool {
        true
    }

    open spec fn bitxor_req(self, rhs: Ipv6Addr) -> bool {
        true
    }

    open spec fn bitxor_spec(self, rhs: Ipv6Addr) -> Ipv6Addr {
        Ipv6Addr::of_bytes(xor_seq(self@, rhs@))
    }
}

impl BitAnd<Ipv6Mask> for Ipv6Addr {
    type Output = Ipv6Addr;

    /// Bytewise AND of the address and the right-hand side.
    fn bitand(self, rhs: Ipv6Mask) -> (r: Ipv6Addr)
        ensures
            r@ == and_seq(self@, rhs@),
    {
        let r = Ipv6Addr::from_octets(and_bytes(self.as_octets(), &rhs.octets()));
        proof {
            r.lemma_of_bytes();
        }
        r
    }
}

impl BitAndSpecImpl<Ipv6Mask> for Ipv6Addr {
    open spec fn obeys_bitand_spec() -> bool {
        true
    }

    open spec fn bitand_req(self, rhs: Ipv6Mask) -> bool {
        true
    }

    open spec fn bitand_spec(self, rhs: Ipv6Mask) -> Ipv6Addr {
        Ipv6Addr::of_bytes(and_seq(self@, rhs@))
    }
}

impl BitOr<Ipv6Mask> for Ipv6Addr {
    type Output = Ipv6Addr;

    /// Bytewise OR of the address and the right-hand side.
    fn bitor(self, rhs: Ipv6Mask) -> (r: Ipv6Addr)
        ensures
            r@ == or_seq(self@, rhs@),
    {
        let r = Ipv6Addr::from_octets(or_bytes(self.as_octets(), &rhs.octets()));
        proof {
            r.lemma_of_bytes();
        }
        r
    }
}

impl BitOrSpecImpl<Ipv6Mask> for Ipv6Addr {
    open spec fn obeys_bitor_spec() -> bool {
        true
    }

    open spec fn bitor_req(self, rhs: Ipv6Mask) -> bool {
        true
    }

    open spec fn bitor_spec(self, rhs: Ipv6Mask) -> Ipv6Addr {
        Ipv6Addr::of_bytes(or_seq(self@, rhs@))
    }
}

impl BitXor<Ipv6Mask> for Ipv6Addr {
    type Output = Ipv6Addr;

    /// Bytewise XOR of the address and the right-hand side.
    fn bitxor(self, rhs: Ipv6Mask) -> (r: Ipv6Addr)
        ensures
            r@ == xor_seq(self@, rhs@),
    {
        let r = Ipv6Addr::from_octets(xor_bytes(self.as_octets(), &rhs.octets()));
        proof {
            r.lemma_of_bytes();
        }
        r
    }
}

impl BitXorSpecImpl<Ipv6Mask> for Ipv6Addr {
    open spec fn obeys_bitxor_spec() -> bool {
        true
    }

    open spec fn bitxor_req(self, rhs: Ipv6Mask) -> bool {
        true
    }

    open spec fn bitxor_spec(self, rhs: Ipv6Mask) -> Ipv6Addr {
        Ipv6Addr::of_bytes(xor_seq(self@, rhs@))
    }
}

impl BitAnd<[u8; 16]> for Ipv6Addr {
    type Output = Ipv6Addr;

    /// Bytewise AND of the address and the right-hand side.
    fn bitand(self, rhs: [u8; 16]) -> (r: Ipv6Addr)
        ensures
            r@ == and_seq(self@, rhs@),
    {
        let r = Ipv6Addr::from_octets(and_bytes(self.as_octets(), &rhs));
        proof {
            r.lemma_of_bytes();
        }
        r
    }
}

impl BitAndSpecImpl<[u8; 16]> for Ipv6Addr {
    open spec fn obeys_bitand_spec() -> bool {
        true
    }

    open spec fn bitand_req(self, rhs: [u8; 16]) -> bool {
        true
    }

    open spec fn bitand_spec(self, rhs: [u8; 16]) -> Ipv6Addr {
        Ipv6Addr::of_bytes(and_seq(self@, rhs@))
    }
}

impl BitOr<[u8; 16]> for Ipv6Addr {
    type Output = Ipv6Addr;

    /// Bytewise OR of the address and the right-hand side.
    fn bitor(self, rhs: [u8; 16]) -> (r: Ipv6Addr)
        ensures
            r@ == or_seq(self@, rhs@),
    {
        let r = Ipv6Addr::from_octets(or_bytes(self.as_octets(), &rhs));
        proof {
            r.lemma_of_bytes();
        }
        r
    }
}

impl BitOrSpecImpl<[u8; 16]> for Ipv6Addr {
    open spec fn obeys_bitor_spec() -> bool {
        true
    }

    open spec fn bitor_req(self, rhs: [u8; 16]) -> bool {
        true
    }

    open spec fn bitor_spec(self, rhs: [u8; 16]) -> Ipv6Addr {
        Ipv6Addr::of_bytes(or_seq(self@, rhs@))
    }
}

impl BitXor<[u8; 16]> for Ipv6Addr {
    type Output = Ipv6Addr;

    /// Bytewise XOR of the address and the right-hand side.
    fn bitxor(self, rhs: [u8; 16]) -> (r: Ipv6Addr)
        ensures
            r@ == xor_seq(self@, rhs@),
    {
        let r = Ipv6Addr::from_octets(xor_bytes(self.as_octets(), &rhs));
        proof {
            r.lemma_of_bytes();
        }
        r
    }
}

impl BitXorSpecImpl<[u8; 16]> for Ipv6Addr {
    open spec fn obeys_bitxor_spec() -> bool {
        true
    }

    open spec fn bitxor_req(self, rhs: [u8; 16]) -> bool {
        true
    }

    open spec fn bitxor_spec(self, rhs: [u8; 16]) -> Ipv6Addr {
        Ipv6Addr::of_bytes(xor_seq(self@, rhs@))
    }
}

impl BitAnd<[u16; 8]> for Ipv6Addr {
    type Output = Ipv6Addr;

    /// Bytewise AND of the address and the right-hand side.
    fn bitand(self, rhs: [u16; 8]) -> (r: Ipv6Addr)
        ensures
            r@ == and_seq(self@, bytes_of_segments(rhs@)),
    {
        let r = Ipv6Addr::from_octets(and_bytes(self.as_octets(), &bytes_of_segment_array(&rhs)));
        proof {
            r.lemma_of_bytes();
        }
        r
    }
}

impl BitAndSpecImpl<[u16; 8]> for Ipv6Addr {
    open spec fn obeys_bitand_spec() -> bool {
        true
    }

    open spec fn bitand_req(self, rhs: [u16; 8]) -> bool {
        true
    }

    open spec fn bitand_spec(self, rhs: [u16; 8]) -> Ipv6Addr {
        Ipv6Addr::of_bytes(and_seq(self@, bytes_of_segments(rhs@)))
    }
}

impl BitOr<[u16; 8]> for Ipv6Addr {
    type Output = Ipv6Addr;

    /// Bytewise OR of the address and the right-hand side.
    fn bitor(self, rhs: [u16; 8]) -> (r: Ipv6Addr)
        ensures
            r@ == or_seq(self@, bytes_of_segments(rhs@)),
    {
        let r = Ipv6Addr::from_octets(or_bytes(self.as_octets(), &bytes_of_segment_array(&rhs)));
        proof {
            r.lemma_of_bytes();
        }
        r
    }
}

impl BitOrSpecImpl<[u16; 8]> for Ipv6Addr {
    open spec fn obeys_bitor_spec() -> bool {
        true
    }

    open spec fn bitor_req(self, rhs: [u16; 8]) -> bool {
        true
    }

    open spec fn bitor_spec(self, rhs: [u16; 8]) -> Ipv6Addr {
        Ipv6Addr::of_bytes(or_seq(self@, bytes_of_segments(rhs@)))
    }
}

impl BitXor<[u16; 8]> for Ipv6Addr {
    type Output = Ipv6Addr;

    /// Bytewise XOR of the address and the right-hand side.
    fn bitxor(self, rhs: [u16; 8]) -> (r: Ipv6Addr)
        ensures
            r@ == xor_seq(self@, bytes_of_segments(rhs@)),
    {
        let r = Ipv6Addr::from_octets(xor_bytes(self.as_octets(), &bytes_of_segment_array(&rhs)));
        proof {
            r.lemma_of_bytes();
        }
        r
    }
}

impl BitXorSpecImpl<[u16; 8]> for Ipv6Addr {
    open spec fn obeys_bitxor_spec() -> bool {
        true
    }

    open spec fn bitxor_req(self, rhs: [u16; 8]) -> bool {
        true
    }

    open spec fn bitxor_spec(self, rhs: [u16; 8]) -> Ipv6Addr {
        Ipv6Addr::of_bytes(xor_seq(self@, bytes_of_segments(rhs@)))
    }
}

impl BitAnd<u128> for Ipv6Addr {
    type Output = Ipv6Addr;

    /// Bytewise AND of the address and the right-hand side.
    fn bitand(self, rhs: u128) -> (r: Ipv6Addr)
        ensures
            r@ == and_seq(self@, be_bytes(rhs as nat, 16)),
            be_value(r@) == (be_value(self@) as u128) & rhs,
    {
        proof {
            lemma_value_of_combination_u128(self@, rhs);
        }
        let r = Ipv6Addr::from_octets(and_bytes(self.as_octets(), &bytes_of_value::<16>(rhs)));
        proof {
            r.lemma_of_bytes();
        }
        r
    }
}

impl BitAndSpecImpl<u128> for Ipv6Addr {
    open spec fn obeys_bitand_spec() -> bool {
        true
    }

    open spec fn bitand_req(self, rhs: u128) -> bool {
        true
    }

    open spec fn bitand_spec(self, rhs: u128) -> Ipv6Addr {
        Ipv6Addr::of_bytes(and_seq(self@, be_bytes(rhs as nat, 16)))
    }
}

impl BitOr<u128> for Ipv6Addr {
    type Output = Ipv6Addr;

    /// Bytewise OR of the address and the right-hand side.
    fn bitor(self, rhs: u128) -> (r: Ipv6Addr)
        ensures
            r@ == or_seq(self@, be_bytes(rhs as nat, 16)),
            be_value(r@) == (be_value(self@) as u128) | rhs,
    {
        proof {
            lemma_value_of_combination_u128(self@, rhs);
        }
        let r = Ipv6Addr::from_octets(or_bytes(self.as_octets(), &bytes_of_value::<16>(rhs)));
        proof {
            r.lemma_of_bytes();
        }
        r
    }
}

impl BitOrSpecImpl<u128> for Ipv6Addr {
    open spec fn obeys_bitor_spec() -> bool {
        true
    }

    open spec fn bitor_req(self, rhs: u128) -> bool {
        true
    }

    open spec fn bitor_spec(self, rhs: u128) -> Ipv6Addr {
        Ipv6Addr::of_bytes(or_seq(self@, be_bytes(rhs as nat, 16)))
    }
}

impl BitXor<u128> for Ipv6Addr {
    type Output = Ipv6Addr;

    /// Bytewise XOR of the address and the right-hand side.
    fn bitxor(self, rhs: u128) -> (r: Ipv6Addr)
        ensures
            r@ == xor_seq(self@, be_bytes(rhs as nat, 16)),
            be_value(r@) == (be_value(self@) as u128) ^ rhs,
    {
        proof {
            lemma_value_of_combination_u128(self@, rhs);
        }
        let r = Ipv6Addr::from_octets(xor_bytes(self.as_octets(), &bytes_of_value::<16>(rhs)));
        proof {
            r.lemma_of_bytes();
        }
        r
    }
}

impl BitXorSpecImpl<u128> for Ipv6Addr {
    open spec fn obeys_bitxor_spec() -> bool {
        true
    }

    open spec fn bitxor_req(self, rhs: u128) -> bool {
        true
    }

    open spec fn bitxor_spec(self, rhs: u128) -> Ipv6Addr {
        Ipv6Addr::of_bytes(xor_seq(self@, be_bytes(rhs as nat, 16)))
    }
}

impl Not for Ipv6Addr {
    type Output = Ipv6Addr;

    /// Bytewise complement of the address.
    fn not(self) -> (r: Ipv6Addr)
        ensures
            r@ == not_seq(self@),
            be_value(r@) == !(be_value(self@) as u128),
    {
        proof {
            lemma_value_of_complement_as_number(self@);
        }
        let r = Ipv6Addr::from_octets(not_bytes(self.as_octets()));
        proof {
            r.lemma_of_bytes();
        }
        r
    }
}

impl NotSpecImpl for Ipv6Addr {
    open spec fn obeys_not_spec() -> bool {
        true
    }

    open spec fn not_req(self) -> bool {
        true
    }

    open spec fn not_spec(self) -> Ipv6Addr {
        Ipv6Addr::of_bytes(not_seq(self@))
    }
}

impl Not for Ipv4Mask {
    type Output = [u8; 4];

    /// Bytewise complement of the mask: the host bits. The result is a plain
    /// block of bytes, since in general it is no prefix mask.
    fn not(self) -> (r: [u8; 4])
        ensures
            r@ == not_seq(self@),
    {
        let r = not_bytes(&self.octets());
        assert(r =~= [!self@[0], !self@[1], !self@[2], !self@[3]]);
        r
    }
}

impl NotSpecImpl for Ipv4Mask {
    open spec fn obeys_not_spec() -> bool {
        true
    }

    open spec fn not_req(self) -> bool {
        true
    }

    open spec fn not_spec(self) -> [u8; 4] {
        [!self@[0], !self@[1], !self@[2], !self@[3]]
    }
}

impl Not for Ipv6Mask {
    type Output = [u8; 16];

    /// Bytewise complement of the mask: the host bits. The result is a plain
    /// block of bytes, since in general it is no prefix mask.
    fn not(self) -> (r: [u8; 16])
        ensures
            r@ == not_seq(self@),
    {
        let r = not_bytes(&self.octets());
        assert(r =~= [!self@[0], !self@[1], !self@[2], !self@[3], !self@[4], !self@[5], !self@[6], !self@[7], !self@[8], !self@[9], !self@[10], !self@[11], !self@[12], !self@[13], !self@[14], !self@[15]]);
        r
    }
}

impl NotSpecImpl for Ipv6Mask {
    open spec fn obeys_not_spec() -> bool {
        true
    }

    open spec fn not_req(self) -> bool {
        true
    }

    open spec fn not_spec(self) -> [u8; 16] {
        [!self@[0], !self@[1], !self@[2], !self@[3], !self@[4], !self@[5], !self@[6], !self@[7], !self@[8], !self@[9], !self@[10], !self@[11], !self@[12], !self@[13], !self@[14], !self@[15]]
    }
}

} // verus!
