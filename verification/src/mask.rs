//! Prefix masks for IPv4 and IPv6: byte blocks that are some number of leading
//! one-bits followed only by zero-bits. A value of either type is always such
//! a block.

use crate::addrs::{Ipv4Addr, Ipv6Addr};
use crate::bits::{
    be_bytes, be_value, bytes_of_segment_array, bytes_of_segments, bytes_of_value, eq_bytes,
    lemma_be_bytes_of_value, lemma_be_value_bound, lemma_be_value_of_bytes,
    lemma_bytes_of_segments_of, lemma_pow256_values, lemma_segments_of_bytes_of,
    segment_array_of_bytes, segments_of, value_of_bytes,
};
use crate::prefix::{
    count_ones, count_ones_in, is_prefix_array, is_prefix_mask, lemma_mask_byte_counts,
    lemma_prefix_mask_counts, lemma_prefix_mask_shape, prefix_array, prefix_mask, trailing_zeros,
};
use crate::text::ascii::{chars_of, lemma_bytes_of_chars, string_of};
use crate::text::notation::{
    lemma_mask_round_trip, lemma_texts_are_notation, mask_of_address_text, mask_of_length_text,
    mask_of_text, mask_text, Notation, SLASH,
};
use crate::text::numeral::{parse_small_number, write_decimal};
use crate::text::v4::{parse_v4, write_v4};
use crate::text::v6::{parse_v6, write_v6};
use vstd::prelude::*;
use vstd::slice::slice_subrange;
use vstd::std_specs::cmp::PartialEqSpecImpl;
use vstd::string::StringSliceAdditionalSpecFns;
use vstd::utf8::encode_utf8;

verus! {

/// An IPv4 prefix mask: four bytes, most significant first.
#[derive(Copy, Clone, Eq, PartialOrd, Ord, Hash, Debug)]
pub struct Ipv4Mask {
    mask: [u8; 4],
}

/// An IPv6 prefix mask: sixteen bytes, most significant first.
#[derive(Copy, Clone, Eq, PartialOrd, Ord, Hash, Debug)]
pub struct Ipv6Mask {
    mask: [u8; 16],
}

/// The error for a text or an encoding that is no IPv4 prefix mask.
#[derive(Copy, Clone, PartialEq, Eq, Structural, Debug)]
pub struct InvalidIpv4Mask;

/// The error for a text or an encoding that is no IPv6 prefix mask.
#[derive(Copy, Clone, PartialEq, Eq, Structural, Debug)]
pub struct InvalidIpv6Mask;

impl InvalidIpv4Mask {
    /// What went wrong, in words.
    pub fn message(&self) -> (r: &'static str)
        ensures
            r@ == "invalid IPv4 mask"@,
    {
        "invalid IPv4 mask"
    }
}

impl InvalidIpv6Mask {
    /// What went wrong, in words.
    pub fn message(&self) -> (r: &'static str)
        ensures
            r@ == "invalid IPv6 mask"@,
    {
        "invalid IPv6 mask"
    }
}

impl View for Ipv4Mask {
    type V = Seq<u8>;

    /// The four bytes of the mask.
    open spec fn view(&self) -> Seq<u8> {
        self.octets_spec()@
    }
}

impl View for Ipv6Mask {
    type V = Seq<u8>;

    /// The sixteen bytes of the mask.
    open spec fn view(&self) -> Seq<u8> {
        self.octets_spec()@
    }
}

impl PartialEq for Ipv4Mask {
    fn eq(&self, other: &Self) -> (r: bool) {
        eq_bytes(&self.mask, &other.mask)
    }
}

impl PartialEqSpecImpl for Ipv4Mask {
    open spec fn obeys_eq_spec() -> bool {
        true
    }

    open spec fn eq_spec(&self, other: &Self) -> bool {
        self@ == other@
    }
}

impl PartialEq for Ipv6Mask {
    fn eq(&self, other: &Self) -> (r: bool) {
        eq_bytes(&self.mask, &other.mask)
    }
}

impl PartialEqSpecImpl for Ipv6Mask {
    open spec fn obeys_eq_spec() -> bool {
        true
    }

    open spec fn eq_spec(&self, other: &Self) -> bool {
        self@ == other@
    }
}

impl Ipv4Mask {
    /// The width of an IPv4 mask in bits.
    pub const BITS: u8 = 32;

    /// The mask as an array, for specifications.
    pub closed spec fn octets_spec(self) -> [u8; 4] {
        self.mask
    }

    /// What holds of every mask: its bytes are a prefix mask.
    #[verifier::type_invariant]
    pub open spec fn wf(self) -> bool {
        is_prefix_mask(self@)
    }

    /// The length of the mask: the number of its one-bits.
    pub open spec fn len_spec(self) -> nat {
        count_ones(self@)
    }

    /// A mask is the block with `len_spec()` leading one-bits, and its length
    /// is at most 32.
    pub proof fn lemma_shape(self)
        requires
            self.wf(),
        ensures
            self@ == prefix_mask(self.len_spec(), 4),
            self.len_spec() <= 32,
            trailing_zeros(self@) == 32 - self.len_spec(),
    {
        lemma_prefix_mask_shape(self@);
    }

    /// Two masks with the same bytes are the same mask.
    pub proof fn lemma_eq_by_view(self, other: Self)
        requires
            self@ == other@,
        ensures
            self == other,
    {
        assert(self.mask =~= other.mask);
    }

    /// The mask of the given length, for a length of at most 32; `None` for a
    /// greater one.
    pub fn new(len: u8) -> (r: Option<Self>)
        ensures
            r is Some <==> len <= 32,
            r matches Some(m) ==> m.wf() && m@ == prefix_mask(len as nat, 4) && m.len_spec() == len
                && trailing_zeros(m@) == 32 - len,
    {
        if len <= 32 {
            Some(Self::new_unchecked(len))
        } else {
            None
        }
    }

    /// The mask of the given length, which the caller knows to be at most 32.
    pub fn new_unchecked(len: u8) -> (r: Self)
        requires
            len <= 32,
        ensures
            r.wf(),
            r@ == prefix_mask(len as nat, 4),
            r.len_spec() == len,
            trailing_zeros(r@) == 32 - len,
    {
        Self::new_saturating(len)
    }

    /// The mask of the given length, a length above 32 counting as 32.
    pub fn new_saturating(len: u8) -> (r: Self)
        ensures
            r.wf(),
            r@ == prefix_mask(len as nat, 4),
            r.len_spec() == (if len <= 32 { len as nat } else { 32 }),
            trailing_zeros(r@) == 32 - r.len_spec(),
    {
        proof {
            lemma_prefix_mask_counts(len as nat, 4);
        }
        Ipv4Mask { mask: prefix_array::<4>(len as usize) }
    }

    /// The mask with the given bytes, if they are a prefix mask.
    pub fn from_bytes(bytes: [u8; 4]) -> (r: Option<Self>)
        ensures
            r is Some <==> is_prefix_mask(bytes@),
            r matches Some(m) ==> m.wf() && m@ == bytes@,
    {
        if is_prefix_array(&bytes) {
            Some(Ipv4Mask { mask: bytes })
        } else {
            None
        }
    }

    /// The mask whose bytes are those of `x`, most significant first, if they
    /// are a prefix mask.
    pub fn from_u32(x: u32) -> (r: Option<Self>)
        ensures
            r is Some <==> is_prefix_mask(be_bytes(x as nat, 4)),
            r matches Some(m) ==> m.wf() && m@ == be_bytes(x as nat, 4) && be_value(m@) == x,
    {
        proof {
            lemma_pow256_values();
            lemma_be_value_of_bytes(x as nat, 4);
        }
        Self::from_bytes(bytes_of_value::<4>(x as u128))
    }

    /// The mask with the bytes of the given address, if they are a prefix
    /// mask.
    pub fn from_ip(ip: Ipv4Addr) -> (r: Option<Self>)
        ensures
            r is Some <==> is_prefix_mask(ip@),
            r matches Some(m) ==> m.wf() && m@ == ip@,
    {
        Self::from_bytes(ip.octets())
    }

    /// The bytes of the mask.
    pub fn octets(self) -> (r: [u8; 4])
        ensures
            r@ == self@,
    {
        self.mask
    }

    /// The number that the four bytes denote, most significant first.
    pub fn as_u32(self) -> (r: u32)
        ensures
            r as nat == be_value(self@),
            be_bytes(r as nat, 4) == self@,
    {
        proof {
            lemma_be_value_bound(self@);
            lemma_pow256_values();
            lemma_be_bytes_of_value(self@);
        }
        value_of_bytes::<4>(&self.mask) as u32
    }

    /// The length of the mask: the number of its one-bits, counted from the
    /// bytes.
    pub fn len(self) -> (r: u8)
        ensures
            r == self.len_spec(),
            r <= 32,
    {
        count_ones_in(&self.mask) as u8
    }

    /// Whether the mask has length 0.
    pub fn is_empty(self) -> (r: bool)
        ensures
            r == (self.len_spec() == 0),
    {
        proof {
            use_type_invariant(&self);
            lemma_prefix_mask_shape(self@);
            lemma_mask_byte_counts(self.len_spec() as int);
        }
        self.mask[0] == 0
    }

    /// Whether the mask has length 32.
    pub fn is_full(self) -> (r: bool)
        ensures
            r == (self.len_spec() == 32),
    {
        proof {
            use_type_invariant(&self);
            lemma_prefix_mask_shape(self@);
            lemma_mask_byte_counts(self.len_spec() - 24);
        }
        self.mask[3] == 255
    }

    /// Reading the text of a mask, in either notation, gives the mask.
    pub proof fn lemma_text_round_trip(self, notation: Notation)
        requires
            self.wf(),
        ensures
            mask_of_text(mask_text(self@, notation), 4) == Some(self@),
    {
        lemma_mask_round_trip(self@, notation);
    }

    /// Reads a mask from the text of its length, such as `24`.
    pub fn from_length_text(b: &[u8]) -> (r: Option<Self>)
        ensures
            match r {
                Some(m) => m.wf() && mask_of_length_text(b@, 4) == Some(m@),
                None => mask_of_length_text(b@, 4) is None,
            },
    {
        match parse_small_number(b) {
            Some(len) => Self::new(len),
            None => None,
        }
    }

    /// Reads a mask from its text as an address, such as `255.255.255.0`.
    pub fn from_address_text(b: &[u8]) -> (r: Option<Self>)
        ensures
            match r {
                Some(m) => m.wf() && mask_of_address_text(b@, 4) == Some(m@),
                None => mask_of_address_text(b@, 4) is None,
            },
    {
        match parse_v4(b) {
            Some(bytes) => Self::from_bytes(bytes),
            None => None,
        }
    }

    /// Reads a mask from ASCII text in either notation: after a leading
    /// slash its length, else the mask as an address.
    pub fn parse_ascii(b: &[u8]) -> (r: Result<Self, InvalidIpv4Mask>)
        ensures
            match r {
                Ok(m) => m.wf() && mask_of_text(b@, 4) == Some(m@),
                Err(_) => mask_of_text(b@, 4) is None,
            },
    {
        let found = if b.len() > 0 && b[0] == SLASH {
            let digits = slice_subrange(b, 1, b.len());
            assert(digits@ =~= b@.skip(1));
            Self::from_length_text(digits)
        } else {
            Self::from_address_text(b)
        };
        match found {
            Some(m) => Ok(m),
            None => Err(InvalidIpv4Mask),
        }
    }

    /// Reads a mask from a string in either notation. A length above 32, a
    /// length that is no number, and an address that is no prefix mask are
    /// errors.
    pub fn from_str(s: &str) -> (r: Result<Self, InvalidIpv4Mask>)
        ensures
            match r {
                Ok(m) => m.wf() && mask_of_text(s.spec_bytes(), 4) == Some(m@),
                Err(_) => mask_of_text(s.spec_bytes(), 4) is None,
            },
    {
        Self::parse_ascii(s.as_bytes())
    }

    /// Writes the text of the mask in the given notation at the end of
    /// `out`.
    pub fn write(self, out: &mut Vec<u8>, notation: Notation)
        ensures
            final(out)@ == old(out)@ + mask_text(self@, notation),
    {
        match notation {
            Notation::Address => {
                write_v4(out, &self.mask);
            },
            Notation::Prefix => {
                out.push(SLASH);
                write_decimal(out, self.len());
                assert(final(out)@ =~= old(out)@ + mask_text(self@, notation));
            },
        }
    }

    /// The text of the mask in the given notation.
    pub fn format(self, notation: Notation) -> (r: String)
        ensures
            r@ == chars_of(mask_text(self@, notation)),
            encode_utf8(r@) == mask_text(self@, notation),
    {
        let mut out: Vec<u8> = Vec::new();
        self.write(&mut out, notation);
        assert(out@ =~= mask_text(self@, notation));
        proof {
            lemma_texts_are_notation(self@, self@, notation);
            lemma_bytes_of_chars(out@);
        }
        string_of(&out)
    }
}

impl Ipv6Mask {
    /// The width of an IPv6 mask in bits.
    pub const BITS: u8 = 128;

    /// The mask as an array, for specifications.
    pub closed spec fn octets_spec(self) -> [u8; 16] {
        self.mask
    }

    /// What holds of every mask: its bytes are a prefix mask.
    #[verifier::type_invariant]
    pub open spec fn wf(self) -> bool {
        is_prefix_mask(self@)
    }

    /// The length of the mask: the number of its one-bits.
    pub open spec fn len_spec(self) -> nat {
        count_ones(self@)
    }

    /// A mask is the block with `len_spec()` leading one-bits, and its length
    /// is at most 128.
    pub proof fn lemma_shape(self)
        requires
            self.wf(),
        ensures
            self@ == prefix_mask(self.len_spec(), 16),
            self.len_spec() <= 128,
            trailing_zeros(self@) == 128 - self.len_spec(),
    {
        lemma_prefix_mask_shape(self@);
    }

    /// Two masks with the same bytes are the same mask.
    pub proof fn lemma_eq_by_view(self, other: Self)
        requires
            self@ == other@,
        ensures
            self == other,
    {
        assert(self.mask =~= other.mask);
    }

    /// The mask of the given length, for a length of at most 128; `None` for
    /// a greater one.
    pub fn new(len: u8) -> (r: Option<Self>)
        ensures
            r is Some <==> len <= 128,
            r matches Some(m) ==> m.wf() && m@ == prefix_mask(len as nat, 16) && m.len_spec() == len
                && trailing_zeros(m@) == 128 - len,
    {
        if len <= 128 {
            Some(Self::new_unchecked(len))
        } else {
            None
        }
    }

    /// The mask of the given length, a length above 128 counting as 128.
    pub fn new_unchecked(len: u8) -> (r: Self)
        ensures
            r.wf(),
            r@ == prefix_mask(len as nat, 16),
            r.len_spec() == (if len <= 128 { len as nat } else { 128 }),
            trailing_zeros(r@) == 128 - r.len_spec(),
    {
        proof {
            lemma_prefix_mask_counts(len as nat, 16);
        }
        Ipv6Mask { mask: prefix_array::<16>(len as usize) }
    }

    /// The mask with the given eight 16-bit segments, if their bytes are a
    /// prefix mask.
    pub fn from_segments(segments: [u16; 8]) -> (r: Option<Self>)
        ensures
            r is Some <==> is_prefix_mask(bytes_of_segments(segments@)),
            r matches Some(m) ==> m.wf() && m@ == bytes_of_segments(segments@) && segments_of(m@)
                == segments@,
    {
        proof {
            lemma_segments_of_bytes_of(segments@);
        }
        Self::from_bytes(bytes_of_segment_array(&segments))
    }

    /// The mask with the given bytes, if they are a prefix mask.
    pub fn from_bytes(bytes: [u8; 16]) -> (r: Option<Self>)
        ensures
            r is Some <==> is_prefix_mask(bytes@),
            r matches Some(m) ==> m.wf() && m@ == bytes@,
    {
        if is_prefix_array(&bytes) {
            Some(Ipv6Mask { mask: bytes })
        } else {
            None
        }
    }

    /// The mask whose bytes are those of `x`, most significant first, if they
    /// are a prefix mask.
    pub fn from_u128(x: u128) -> (r: Option<Self>)
        ensures
            r is Some <==> is_prefix_mask(be_bytes(x as nat, 16)),
            r matches Some(m) ==> m.wf() && m@ == be_bytes(x as nat, 16) && be_value(m@) == x,
    {
        proof {
            lemma_pow256_values();
            lemma_be_value_of_bytes(x as nat, 16);
        }
        Self::from_bytes(bytes_of_value::<16>(x))
    }

    /// The mask with the bytes of the given address, if they are a prefix
    /// mask.
    pub fn from_ip(ip: Ipv6Addr) -> (r: Option<Self>)
        ensures
            r is Some <==> is_prefix_mask(ip@),
            r matches Some(m) ==> m.wf() && m@ == ip@,
    {
        Self::from_bytes(ip.octets())
    }

    /// The bytes of the mask.
    pub fn octets(self) -> (r: [u8; 16])
        ensures
            r@ == self@,
    {
        self.mask
    }

    /// The eight 16-bit segments of the mask.
    pub fn segments(self) -> (r: [u16; 8])
        ensures
            r@ == segments_of(self@),
            bytes_of_segments(r@) == self@,
    {
        proof {
            lemma_bytes_of_segments_of(self@);
        }
        segment_array_of_bytes(&self.mask)
    }

    /// The number that the sixteen bytes denote, most significant first.
    pub fn as_u128(self) -> (r: u128)
        ensures
            r as nat == be_value(self@),
            be_bytes(r as nat, 16) == self@,
    {
        proof {
            lemma_be_bytes_of_value(self@);
        }
        value_of_bytes::<16>(&self.mask)
    }

    /// The length of the mask: the number of its one-bits, counted from the
    /// bytes.
    pub fn len(self) -> (r: u8)
        ensures
            r == self.len_spec(),
            r <= 128,
    {
        count_ones_in(&self.mask) as u8
    }

    /// Whether the mask has length 0.
    pub fn is_empty(self) -> (r: bool)
        ensures
            r == (self.len_spec() == 0),
    {
        proof {
            use_type_invariant(&self);
            lemma_prefix_mask_shape(self@);
            lemma_mask_byte_counts(self.len_spec() as int);
        }
        self.mask[0] == 0
    }

    /// Whether the mask has length 128.
    pub fn is_full(self) -> (r: bool)
        ensures
            r == (self.len_spec() == 128),
    {
        proof {
            use_type_invariant(&self);
            lemma_prefix_mask_shape(self@);
            lemma_mask_byte_counts(self.len_spec() - 120);
        }
        self.mask[15] == 255
    }

    /// Reading the text of a mask, in either notation, gives the mask.
    pub proof fn lemma_text_round_trip(self, notation: Notation)
        requires
            self.wf(),
        ensures
            mask_of_text(mask_text(self@, notation), 16) == Some(self@),
    {
        lemma_mask_round_trip(self@, notation);
    }

    /// Reads a mask from the text of its length, such as `24`.
    pub fn from_length_text(b: &[u8]) -> (r: Option<Self>)
        ensures
            match r {
                Some(m) => m.wf() && mask_of_length_text(b@, 16) == Some(m@),
                None => mask_of_length_text(b@, 16) is None,
            },
    {
        match parse_small_number(b) {
            Some(len) => Self::new(len),
            None => None,
        }
    }

    /// Reads a mask from its text as an address, such as `ffff:ff80::`.
    pub fn from_address_text(b: &[u8]) -> (r: Option<Self>)
        ensures
            match r {
                Some(m) => m.wf() && mask_of_address_text(b@, 16) == Some(m@),
                None => mask_of_address_text(b@, 16) is None,
            },
    {
        match parse_v6(b) {
            Some(bytes) => Self::from_bytes(bytes),
            None => None,
        }
    }

    /// Reads a mask from ASCII text in either notation: after a leading
    /// slash its length, else the mask as an address.
    pub fn parse_ascii(b: &[u8]) -> (r: Result<Self, InvalidIpv6Mask>)
        ensures
            match r {
                Ok(m) => m.wf() && mask_of_text(b@, 16) == Some(m@),
                Err(_) => mask_of_text(b@, 16) is None,
            },
    {
        let found = if b.len() > 0 && b[0] == SLASH {
            let digits = slice_subrange(b, 1, b.len());
            assert(digits@ =~= b@.skip(1));
            Self::from_length_text(digits)
        } else {
            Self::from_address_text(b)
        };
        match found {
            Some(m) => Ok(m),
            None => Err(InvalidIpv6Mask),
        }
    }

    /// Reads a mask from a string in either notation. A length above 128, a
    /// length that is no number, and an address that is no prefix mask are
    /// errors.
    pub fn from_str(s: &str) -> (r: Result<Self, InvalidIpv6Mask>)
        ensures
            match r {
                Ok(m) => m.wf() && mask_of_text(s.spec_bytes(), 16) == Some(m@),
                Err(_) => mask_of_text(s.spec_bytes(), 16) is None,
            },
    {
        Self::parse_ascii(s.as_bytes())
    }

    /// Writes the text of the mask in the given notation at the end of
    /// `out`.
    pub fn write(self, out: &mut Vec<u8>, notation: Notation)
        ensures
            final(out)@ == old(out)@ + mask_text(self@, notation),
    {
        match notation {
            Notation::Address => {
                write_v6(out, &self.mask);
            },
            Notation::Prefix => {
                out.push(SLASH);
                write_decimal(out, self.len());
                assert(final(out)@ =~= old(out)@ + mask_text(self@, notation));
            },
        }
    }

    /// The text of the mask in the given notation.
    pub fn format(self, notation: Notation) -> (r: String)
        ensures
            r@ == chars_of(mask_text(self@, notation)),
            encode_utf8(r@) == mask_text(self@, notation),
    {
        let mut out: Vec<u8> = Vec::new();
        self.write(&mut out, notation);
        assert(out@ =~= mask_text(self@, notation));
        proof {
            lemma_texts_are_notation(self@, self@, notation);
            lemma_bytes_of_chars(out@);
        }
        string_of(&out)
    }
}

} // verus!
