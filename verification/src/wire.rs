//! The compact binary encodings. A mask is one byte, its length. A masked
//! address is the length of its mask followed by all the bytes of its
//! address. A network is the length of its mask followed by only as many
//! bytes of its address as the mask reaches into: the bytes after them are
//! zero in every network, and are not written.

use crate::addrs::{Ipv4Addr, Ipv6Addr};
use crate::bits::and_seq;
use crate::mask::{InvalidIpv4Mask, InvalidIpv6Mask, Ipv4Mask, Ipv6Mask};
use crate::masked::{InvalidMaskedIpv4, InvalidMaskedIpv6, MaskedIpv4, MaskedIpv6};
use crate::network::{InvalidNetworkV4, InvalidNetworkV6, NetworkV4, NetworkV6};
use crate::prefix::{
    count_ones, is_prefix_mask, lemma_mask_byte_counts, lemma_prefix_mask_shape, prefix_mask,
};
use vstd::prelude::*;

verus! {

/// The encoding of a mask: one byte, the length of the mask.
pub open spec fn mask_wire(mask: Seq<u8>) -> Seq<u8> {
    seq![count_ones(mask) as u8]
}

/// The mask of `n` bytes that an encoding denotes: the encoding must be one
/// byte, and the byte a length of at most the width in bits.
pub open spec fn mask_of_wire(b: Seq<u8>, n: nat) -> Option<Seq<u8>> {
    if b.len() == 1 && b[0] <= 8 * n {
        Some(prefix_mask(b[0] as nat, n))
    } else {
        None
    }
}

/// The encoding of a masked address: the length of the mask, then the bytes
/// of the address.
pub open spec fn masked_wire(ip: Seq<u8>, mask: Seq<u8>) -> Seq<u8> {
    seq![count_ones(mask) as u8] + ip
}

/// The address and the mask, of `n` bytes each, that an encoding denotes:
/// the encoding must be a length of at most the width in bits, then `n`
/// bytes.
pub open spec fn masked_of_wire(b: Seq<u8>, n: nat) -> Option<(Seq<u8>, Seq<u8>)> {
    if b.len() == 1 + n && b[0] <= 8 * n {
        Some((b.skip(1), prefix_mask(b[0] as nat, n)))
    } else {
        None
    }
}

/// The number of bytes that a mask of the given length reaches into: the
/// length divided by 8, rounded up.
pub open spec fn significant_bytes(len: nat) -> nat {
    (len + 7) / 8
}

/// `n` bytes that are zero.
pub open spec fn zero_bytes(n: nat) -> Seq<u8> {
    Seq::new(n, |i: int| 0u8)
}

/// The encoding of a network: the length of the mask, then the significant
/// bytes of the network address.
pub open spec fn network_wire(ip: Seq<u8>, mask: Seq<u8>) -> Seq<u8> {
    seq![count_ones(mask) as u8] + ip.take(significant_bytes(count_ones(mask)) as int)
}

/// The network address and the mask, of `n` bytes each, that an encoding
/// denotes: the encoding must be a length of at most the width in bits, then
/// exactly the significant bytes for that length. Zero bytes fill the
/// address up, and its host bits are cleared.
pub open spec fn network_of_wire(b: Seq<u8>, n: nat) -> Option<(Seq<u8>, Seq<u8>)> {
    if b.len() >= 1 && b[0] <= 8 * n && b.len() == 1 + significant_bytes(b[0] as nat) {
        let mask = prefix_mask(b[0] as nat, n);
        let ip = b.skip(1) + zero_bytes((n - significant_bytes(b[0] as nat)) as nat);
        Some((and_seq(ip, mask), mask))
    } else {
        None
    }
}

/// The number of bytes that a mask of the given length reaches into.
pub fn significant_byte_count(len: u8) -> (r: usize)
    ensures
        r == significant_bytes(len as nat),
{
    (len as usize + 7) / 8
}

/// Decoding the encoding of a mask gives the mask, and the encoding is the
/// one byte of its length.
pub proof fn lemma_mask_wire_round_trip(mask: Seq<u8>)
    requires
        mask.len() == 4 || mask.len() == 16,
        is_prefix_mask(mask),
    ensures
        mask_of_wire(mask_wire(mask), mask.len()) == Some(mask),
        mask_wire(mask) == seq![count_ones(mask) as u8],
        count_ones(mask) <= 8 * mask.len(),
{
    lemma_prefix_mask_shape(mask);
}

/// Decoding the encoding of a masked address gives the address and the
/// mask, and the encoding is one byte longer than the address.
pub proof fn lemma_masked_wire_round_trip(ip: Seq<u8>, mask: Seq<u8>)
    requires
        ip.len() == 4 || ip.len() == 16,
        mask.len() == ip.len(),
        is_prefix_mask(mask),
    ensures
        masked_of_wire(masked_wire(ip, mask), ip.len()) == Some((ip, mask)),
        masked_wire(ip, mask).len() == 1 + ip.len(),
{
    lemma_prefix_mask_shape(mask);
    assert(masked_wire(ip, mask).skip(1) =~= ip);
}

/// The address of a network is zero after the bytes that its mask reaches
/// into.
pub proof fn lemma_network_tail_is_zero(ip: Seq<u8>, mask: Seq<u8>)
    requires
        mask.len() == ip.len(),
        is_prefix_mask(mask),
        ip == and_seq(ip, mask),
    ensures
        significant_bytes(count_ones(mask)) <= ip.len(),
        forall|i: int| significant_bytes(count_ones(mask)) <= i < ip.len() ==> #[trigger] ip[i] == 0,
{
    lemma_prefix_mask_shape(mask);
    let len = count_ones(mask);
    assert forall|i: int| significant_bytes(len) <= i < ip.len() implies #[trigger] ip[i] == 0 by {
        lemma_mask_byte_counts(len - 8 * i);
        assert(mask[i] == 0);
        assert(ip[i] == and_seq(ip, mask)[i]);
        let x = ip[i];
        assert(x & 0 == 0) by (bit_vector);
    }
}

/// Decoding the encoding of a network gives the network, and the encoding
/// is one byte longer than the number of bytes that the mask reaches into.
pub proof fn lemma_network_wire_round_trip(ip: Seq<u8>, mask: Seq<u8>)
    requires
        ip.len() == 4 || ip.len() == 16,
        mask.len() == ip.len(),
        is_prefix_mask(mask),
        ip == and_seq(ip, mask),
    ensures
        network_of_wire(network_wire(ip, mask), ip.len()) == Some((ip, mask)),
        network_wire(ip, mask).len() == 1 + (count_ones(mask) + 7) / 8,
{
    lemma_prefix_mask_shape(mask);
    lemma_network_tail_is_zero(ip, mask);
    let len = count_ones(mask);
    let k = significant_bytes(len);
    let b = network_wire(ip, mask);
    assert(b.skip(1) =~= ip.take(k as int));
    assert(b.skip(1) + zero_bytes((ip.len() - k) as nat) =~= ip);
}

impl Ipv4Mask {
    /// Decoding the encoding of a mask gives the mask.
    pub proof fn lemma_wire_round_trip(self)
        requires
            self.wf(),
        ensures
            mask_of_wire(mask_wire(self@), 4) == Some(self@),
    {
        lemma_mask_wire_round_trip(self@);
    }

    /// The encoding of the mask: the one byte of its length.
    pub fn encode(self) -> (r: Vec<u8>)
        ensures
            r@ == mask_wire(self@),
            r@ == seq![self.len_spec() as u8],
    {
        let mut out: Vec<u8> = Vec::new();
        out.push(self.len());
        assert(out@ =~= mask_wire(self@));
        out
    }

    /// Decodes a mask: the one byte must be a length of at most 32.
    pub fn decode(bytes: &[u8]) -> (r: Result<Self, InvalidIpv4Mask>)
        ensures
            match r {
                Ok(m) => m.wf() && mask_of_wire(bytes@, 4) == Some(m@),
                Err(_) => mask_of_wire(bytes@, 4) is None,
            },
    {
        if bytes.len() != 1 {
            return Err(InvalidIpv4Mask);
        }
        match Self::new(bytes[0]) {
            Some(m) => Ok(m),
            None => Err(InvalidIpv4Mask),
        }
    }
}

impl MaskedIpv4 {
    /// Decoding the encoding of a masked address gives the masked address.
    pub proof fn lemma_wire_round_trip(self)
        requires
            self.mask.wf(),
        ensures
            masked_of_wire(masked_wire(self.ip@, self.mask@), 4) == Some((self.ip@, self.mask@)),
    {
        lemma_masked_wire_round_trip(self.ip@, self.mask@);
    }

    /// The encoding of the masked address: the length of the mask, then the
    /// 4 bytes of the address.
    pub fn encode(&self) -> (r: Vec<u8>)
        ensures
            r@ == masked_wire(self.ip@, self.mask@),
            r@.len() == 5,
    {
        let mut out: Vec<u8> = Vec::new();
        out.push(self.mask.len());
        let octets = self.ip.as_octets();
        let mut i: usize = 0;
        while i < 4
            invariant
                i <= 4,
                octets@ == self.ip@,
                out@ == seq![self.mask.len_spec() as u8] + self.ip@.take(i as int),
            decreases 4 - i,
        {
            out.push(octets[i]);
            assert(out@ =~= seq![self.mask.len_spec() as u8] + self.ip@.take(i + 1));
            i = i + 1;
        }
        assert(self.ip@.take(4) =~= self.ip@);
        out
    }

    /// Decodes a masked address: a length of at most 32, then 4 bytes.
    pub fn decode(bytes: &[u8]) -> (r: Result<Self, InvalidMaskedIpv4>)
        ensures
            match r {
                Ok(m) => m.mask.wf() && masked_of_wire(bytes@, 4) == Some((m.ip@, m.mask@)),
                Err(_) => masked_of_wire(bytes@, 4) is None,
            },
    {
        if bytes.len() != 5 {
            return Err(InvalidMaskedIpv4);
        }
        let mask = match Ipv4Mask::new(bytes[0]) {
            Some(mask) => mask,
            None => {
                return Err(InvalidMaskedIpv4);
            },
        };
        let mut octets: [u8; 4] = [0u8; 4];
        let mut i: usize = 0;
        while i < 4
            invariant
                i <= 4,
                bytes.len() == 5,
                forall|j: int| 0 <= j < i ==> octets@[j] == bytes@[j + 1],
            decreases 4 - i,
        {
            octets[i] = bytes[i + 1];
            i = i + 1;
        }
        assert(octets@ =~= bytes@.skip(1));
        Ok(MaskedIpv4::new(Ipv4Addr::from_octets(octets), mask))
    }
}

impl NetworkV4 {
    /// Decoding the encoding of a network gives the network, and the
    /// encoding has one byte for the length and one for every eight bits of
    /// it, rounded up.
    pub proof fn lemma_wire_round_trip(self)
        requires
            self.wf(),
        ensures
            network_of_wire(network_wire(self.ip_spec()@, self.mask_spec()@), 4) == Some(
                (self.ip_spec()@, self.mask_spec()@),
            ),
            network_wire(self.ip_spec()@, self.mask_spec()@).len() == 1 + (
            self.mask_spec().len_spec() + 7) / 8,
    {
        lemma_network_wire_round_trip(self.ip_spec()@, self.mask_spec()@);
    }

    /// The encoding of the network: the length of the mask, then the bytes
    /// of the network address that the mask reaches into, which are the
    /// length divided by 8, rounded up.
    pub fn encode(&self) -> (r: Vec<u8>)
        ensures
            r@ == network_wire(self.ip_spec()@, self.mask_spec()@),
            r@.len() == 1 + (self.mask_spec().len_spec() + 7) / 8,
            r@[0] == self.mask_spec().len_spec(),
            forall|i: int| 1 <= i < r@.len() ==> r@[i] == self.ip_spec()@[i - 1],
    {
        let ip = self.ip();
        let mask = self.mask();
        proof {
            mask.lemma_shape();
        }
        let len = mask.len();
        let count: usize = significant_byte_count(len);
        let mut out: Vec<u8> = Vec::new();
        out.push(len);
        let octets = ip.as_octets();
        let mut i: usize = 0;
        while i < count
            invariant
                i <= count <= 4,
                octets@ == ip@,
                out@ == seq![len] + ip@.take(i as int),
            decreases count - i,
        {
            out.push(octets[i]);
            assert(out@ =~= seq![len] + ip@.take(i + 1));
            i = i + 1;
        }
        out
    }

    /// Decodes a network: a length of at most 32, then exactly the bytes
    /// that a mask of that length reaches into. The bytes after them are
    /// zero, and the host bits of the last of them are cleared.
    pub fn decode(bytes: &[u8]) -> (r: Result<Self, InvalidNetworkV4>)
        ensures
            match r {
                Ok(net) => net.wf() && network_of_wire(bytes@, 4) == Some(
                    (net.ip_spec()@, net.mask_spec()@),
                ),
                Err(_) => network_of_wire(bytes@, 4) is None,
            },
    {
        if bytes.len() < 1 {
            return Err(InvalidNetworkV4);
        }
        let len = bytes[0];
        let mask = match Ipv4Mask::new(len) {
            Some(mask) => mask,
            None => {
                return Err(InvalidNetworkV4);
            },
        };
        let count: usize = significant_byte_count(len);
        if bytes.len() - 1 != count {
            return Err(InvalidNetworkV4);
        }
        let mut octets: [u8; 4] = [0u8; 4];
        let mut i: usize = 0;
        while i < count
            invariant
                i <= count <= 4,
                bytes.len() == count + 1,
                forall|j: int| 0 <= j < i ==> octets@[j] == bytes@[j + 1],
                forall|j: int| i <= j < 4 ==> octets@[j] == 0,
            decreases count - i,
        {
            octets[i] = bytes[i + 1];
            i = i + 1;
        }
        assert(octets@ =~= bytes@.skip(1) + zero_bytes((4 - count) as nat));
        Ok(NetworkV4::new(Ipv4Addr::from_octets(octets), mask))
    }
}

impl Ipv6Mask {
    /// Decoding the encoding of a mask gives the mask.
    pub proof fn lemma_wire_round_trip(self)
        requires
            self.wf(),
        ensures
            mask_of_wire(mask_wire(self@), 16) == Some(self@),
    {
        lemma_mask_wire_round_trip(self@);
    }

    /// The encoding of the mask: the one byte of its length.
    pub fn encode(self) -> (r: Vec<u8>)
        ensures
            r@ == mask_wire(self@),
            r@ == seq![self.len_spec() as u8],
    {
        let mut out: Vec<u8> = Vec::new();
        out.push(self.len());
        assert(out@ =~= mask_wire(self@));
        out
    }

    /// Decodes a mask: the one byte must be a length of at most 128.
    pub fn decode(bytes: &[u8]) -> (r: Result<Self, InvalidIpv6Mask>)
        ensures
            match r {
                Ok(m) => m.wf() && mask_of_wire(bytes@, 16) == Some(m@),
                Err(_) => mask_of_wire(bytes@, 16) is None,
            },
    {
        if bytes.len() != 1 {
            return Err(InvalidIpv6Mask);
        }
        match Self::new(bytes[0]) {
            Some(m) => Ok(m),
            None => Err(InvalidIpv6Mask),
        }
    }
}

impl MaskedIpv6 {
    /// Decoding the encoding of a masked address gives the masked address.
    pub proof fn lemma_wire_round_trip(self)
        requires
            self.mask.wf(),
        ensures
            masked_of_wire(masked_wire(self.ip@, self.mask@), 16) == Some((self.ip@, self.mask@)),
    {
        lemma_masked_wire_round_trip(self.ip@, self.mask@);
    }

    /// The encoding of the masked address: the length of the mask, then the
    /// 16 bytes of the address.
    pub fn encode(&self) -> (r: Vec<u8>)
        ensures
            r@ == masked_wire(self.ip@, self.mask@),
            r@.len() == 17,
    {
        let mut out: Vec<u8> = Vec::new();
        out.push(self.mask.len());
        let octets = self.ip.as_octets();
        let mut i: usize = 0;
        while i < 16
            invariant
                i <= 16,
                octets@ == self.ip@,
                out@ == seq![self.mask.len_spec() as u8] + self.ip@.take(i as int),
            decreases 16 - i,
        {
            out.push(octets[i]);
            assert(out@ =~= seq![self.mask.len_spec() as u8] + self.ip@.take(i + 1));
            i = i + 1;
        }
        assert(self.ip@.take(16) =~= self.ip@);
        out
    }

    /// Decodes a masked address: a length of at most 128, then 16 bytes.
    pub fn decode(bytes: &[u8]) -> (r: Result<Self, InvalidMaskedIpv6>)
        ensures
            match r {
                Ok(m) => m.mask.wf() && masked_of_wire(bytes@, 16) == Some((m.ip@, m.mask@)),
                Err(_) => masked_of_wire(bytes@, 16) is None,
            },
    {
        if bytes.len() != 17 {
            return Err(InvalidMaskedIpv6);
        }
        let mask = match Ipv6Mask::new(bytes[0]) {
            Some(mask) => mask,
            None => {
                return Err(InvalidMaskedIpv6);
            },
        };
        let mut octets: [u8; 16] = [0u8; 16];
        let mut i: usize = 0;
        while i < 16
            invariant
                i <= 16,
                bytes.len() == 17,
                forall|j: int| 0 <= j < i ==> octets@[j] == bytes@[j + 1],
            decreases 16 - i,
        {
            octets[i] = bytes[i + 1];
            i = i + 1;
        }
        assert(octets@ =~= bytes@.skip(1));
        Ok(MaskedIpv6::new(Ipv6Addr::from_octets(octets), mask))
    }
}

impl NetworkV6 {
    /// Decoding the encoding of a network gives the network, and the
    /// encoding has one byte for the length and one for every eight bits of
    /// it, rounded up.
    pub proof fn lemma_wire_round_trip(self)
        requires
            self.wf(),
        ensures
            network_of_wire(network_wire(self.ip_spec()@, self.mask_spec()@), 16) == Some(
                (self.ip_spec()@, self.mask_spec()@),
            ),
            network_wire(self.ip_spec()@, self.mask_spec()@).len() == 1 + (
            self.mask_spec().len_spec() + 7) / 8,
    {
        lemma_network_wire_round_trip(self.ip_spec()@, self.mask_spec()@);
    }

    /// The encoding of the network: the length of the mask, then the bytes
    /// of the network address that the mask reaches into, which are the
    /// length divided by 8, rounded up.
    pub fn encode(&self) -> (r: Vec<u8>)
        ensures
            r@ == network_wire(self.ip_spec()@, self.mask_spec()@),
            r@.len() == 1 + (self.mask_spec().len_spec() + 7) / 8,
            r@[0] == self.mask_spec().len_spec(),
            forall|i: int| 1 <= i < r@.len() ==> r@[i] == self.ip_spec()@[i - 1],
    {
        let ip = self.ip();
        let mask = self.mask();
        proof {
            mask.lemma_shape();
        }
        let len = mask.len();
        let count: usize = significant_byte_count(len);
        let mut out: Vec<u8> = Vec::new();
        out.push(len);
        let octets = ip.as_octets();
        let mut i: usize = 0;
        while i < count
            invariant
                i <= count <= 16,
                octets@ == ip@,
                out@ == seq![len] + ip@.take(i as int),
            decreases count - i,
        {
            out.push(octets[i]);
            assert(out@ =~= seq![len] + ip@.take(i + 1));
            i = i + 1;
        }
        out
    }

    /// Decodes a network: a length of at most 128, then exactly the bytes
    /// that a mask of that length reaches into. The bytes after them are
    /// zero, and the host bits of the last of them are cleared.
    pub fn decode(bytes: &[u8]) -> (r: Result<Self, InvalidNetworkV6>)
        ensures
            match r {
                Ok(net) => net.wf() && network_of_wire(bytes@, 16) == Some(
                    (net.ip_spec()@, net.mask_spec()@),
                ),
                Err(_) => network_of_wire(bytes@, 16) is None,
            },
    {
        if bytes.len() < 1 {
            return Err(InvalidNetworkV6);
        }
        let len = bytes[0];
        let mask = match Ipv6Mask::new(len) {
            Some(mask) => mask,
            None => {
                return Err(InvalidNetworkV6);
            },
        };
        let count: usize = significant_byte_count(len);
        if bytes.len() - 1 != count {
            return Err(InvalidNetworkV6);
        }
        let mut octets: [u8; 16] = [0u8; 16];
        let mut i: usize = 0;
        while i < count
            invariant
                i <= count <= 16,
                bytes.len() == count + 1,
                forall|j: int| 0 <= j < i ==> octets@[j] == bytes@[j + 1],
                forall|j: int| i <= j < 16 ==> octets@[j] == 0,
            decreases count - i,
        {
            octets[i] = bytes[i + 1];
            i = i + 1;
        }
        assert(octets@ =~= bytes@.skip(1) + zero_bytes((16 - count) as nat));
        Ok(NetworkV6::new(Ipv6Addr::from_octets(octets), mask))
    }
}

} // verus!
