//! The two notations of masks and of masked addresses, for both families.
//!
//! In the address notation a mask is written as an address (`255.255.255.0`)
//! and a masked address as address, one space, mask
//! (`192.168.1.1 255.255.255.0`). In the prefix notation a mask is written as
//! a slash and its length (`/24`) and a masked address in CIDR form
//! (`192.168.1.1/24`).
//!
//! The spec functions here take the width of the family in bytes: 4 for
//! IPv4, 16 for IPv6.

use crate::bits::and_seq;
use crate::prefix::{count_ones, is_prefix_mask, lemma_prefix_mask_shape, prefix_mask};
use crate::text::ascii::{
    all_address, all_notation, is_address_byte, lemma_address_bytes, lemma_all_notation_concat,
};
use crate::text::numeral::{
    decimal_text, is_digit, lemma_decimal_text, lemma_small_number_text, small_number_of_text,
};
use crate::text::pieces::{first_index, lemma_first_index, lemma_first_index_at};
use crate::text::v4::{lemma_v4_round_trip, lemma_v4_text_address, v4_of_text, v4_text};
use crate::text::v6::{
    lemma_v6_round_trip, lemma_v6_text_address, lemma_v6_text_is_no_v4, v6_of_text, v6_text,
};
use vstd::prelude::*;

verus! {

/// The slash before a prefix length.
pub const SLASH: u8 = 0x2F;

/// The space between an address and a mask.
pub const SPACE: u8 = 0x20;

/// Which of the two notations a text is written in.
#[derive(Copy, Clone, PartialEq, Eq, Structural, Debug)]
pub enum Notation {
    /// The default notation: a mask as an address, a masked address as
    /// address, space, mask.
    Address,
    /// The alternate notation: a mask as a slash and its length, a masked
    /// address in CIDR form.
    Prefix,
}

/// The text of an address of either family, told by the number of its
/// bytes.
pub open spec fn address_text(a: Seq<u8>) -> Seq<u8> {
    if a.len() == 4 {
        v4_text(a)
    } else {
        v6_text(a)
    }
}

/// The bytes of the address of `n` bytes that a text denotes.
pub open spec fn address_of_text(s: Seq<u8>, n: nat) -> Option<Seq<u8>> {
    if n == 4 {
        v4_of_text(s)
    } else {
        v6_of_text(s)
    }
}

/// The text of a mask in the given notation.
pub open spec fn mask_text(mask: Seq<u8>, notation: Notation) -> Seq<u8> {
    match notation {
        Notation::Address => address_text(mask),
        Notation::Prefix => seq![SLASH] + decimal_text(count_ones(mask)),
    }
}

/// The mask of `n` bytes whose length a text denotes: the text must be that
/// of a number, and the number at most the width in bits.
pub open spec fn mask_of_length_text(s: Seq<u8>, n: nat) -> Option<Seq<u8>> {
    match small_number_of_text(s) {
        Some(len) => if len <= 8 * n {
            Some(prefix_mask(len as nat, n))
        } else {
            None
        },
        None => None,
    }
}

/// The mask of `n` bytes that a text denotes as an address: the text must be
/// that of an address, and the address a prefix mask.
pub open spec fn mask_of_address_text(s: Seq<u8>, n: nat) -> Option<Seq<u8>> {
    match address_of_text(s, n) {
        Some(a) => if is_prefix_mask(a) {
            Some(a)
        } else {
            None
        },
        None => None,
    }
}

/// The mask of `n` bytes that a text denotes in either notation: after a
/// leading slash a length, else an address.
pub open spec fn mask_of_text(s: Seq<u8>, n: nat) -> Option<Seq<u8>> {
    if s.len() > 0 && s[0] == SLASH {
        mask_of_length_text(s.skip(1), n)
    } else {
        mask_of_address_text(s, n)
    }
}

/// The text of a masked address in the given notation.
pub open spec fn masked_text(ip: Seq<u8>, mask: Seq<u8>, notation: Notation) -> Seq<u8> {
    match notation {
        Notation::Address => address_text(ip) + seq![SPACE] + address_text(mask),
        Notation::Prefix => address_text(ip) + seq![SLASH] + decimal_text(count_ones(mask)),
    }
}

/// The address and the mask, of `n` bytes each, that a text denotes in CIDR
/// form: an address, the first slash of the text, and a length.
pub open spec fn cidr_of_text(s: Seq<u8>, n: nat) -> Option<(Seq<u8>, Seq<u8>)> {
    let i = first_index(s, SLASH) as int;
    if i >= s.len() {
        None
    } else {
        match (address_of_text(s.take(i), n), mask_of_length_text(s.skip(i + 1), n)) {
            (Some(ip), Some(mask)) => Some((ip, mask)),
            _ => None,
        }
    }
}

/// The address and the mask, of `n` bytes each, that a text denotes in the
/// address notation: an address, the first space of the text, and a mask
/// written as an address.
pub open spec fn network_string_of_text(s: Seq<u8>, n: nat) -> Option<(Seq<u8>, Seq<u8>)> {
    let i = first_index(s, SPACE) as int;
    if i >= s.len() {
        None
    } else {
        match (address_of_text(s.take(i), n), mask_of_address_text(s.skip(i + 1), n)) {
            (Some(ip), Some(mask)) => Some((ip, mask)),
            _ => None,
        }
    }
}

/// The index of the first slash or space of a text, or its length if it
/// holds neither.
pub open spec fn first_separator(s: Seq<u8>) -> nat {
    if first_index(s, SLASH) <= first_index(s, SPACE) {
        first_index(s, SLASH)
    } else {
        first_index(s, SPACE)
    }
}

/// The address and the mask, of `n` bytes each, that a text denotes in
/// either notation. The first slash or space of the text ends the address
/// and decides the notation: after a slash comes a length, after a space a
/// mask written as an address.
pub open spec fn masked_of_text(s: Seq<u8>, n: nat) -> Option<(Seq<u8>, Seq<u8>)> {
    let i = first_separator(s) as int;
    if i >= s.len() {
        None
    } else {
        let mask = if s[i] == SLASH {
            mask_of_length_text(s.skip(i + 1), n)
        } else {
            mask_of_address_text(s.skip(i + 1), n)
        };
        match (address_of_text(s.take(i), n), mask) {
            (Some(ip), Some(mask)) => Some((ip, mask)),
            _ => None,
        }
    }
}

/// The network address and the mask, of `n` bytes each, that a text denotes
/// in either notation: the address of the text with its host bits cleared.
pub open spec fn network_of_text(s: Seq<u8>, n: nat) -> Option<(Seq<u8>, Seq<u8>)> {
    match masked_of_text(s, n) {
        Some((ip, mask)) => Some((and_seq(ip, mask), mask)),
        None => None,
    }
}

/// Whether the text before the first slash of a text is an IPv4 address.
pub open spec fn is_v4_cidr_text(s: Seq<u8>) -> bool {
    let i = first_index(s, SLASH) as int;
    i < s.len() && v4_of_text(s.take(i)) is Some
}

/// The address and the mask that a text denotes in CIDR form, the family
/// being that of the address: IPv4 if the text before the slash is an IPv4
/// address, else IPv6.
pub open spec fn any_cidr_of_text(s: Seq<u8>) -> Option<(Seq<u8>, Seq<u8>)> {
    if is_v4_cidr_text(s) {
        cidr_of_text(s, 4)
    } else {
        cidr_of_text(s, 16)
    }
}

/// The address and the mask that a text denotes in either notation, the
/// family being IPv4 if the text is a masked IPv4 address, else IPv6.
pub open spec fn any_masked_of_text(s: Seq<u8>) -> Option<(Seq<u8>, Seq<u8>)> {
    if masked_of_text(s, 4) is Some {
        masked_of_text(s, 4)
    } else {
        masked_of_text(s, 16)
    }
}

/// The address of either family that a text denotes: IPv4 if the text is an
/// IPv4 address, else IPv6.
pub open spec fn any_address_of_text(s: Seq<u8>) -> Option<Seq<u8>> {
    if v4_of_text(s) is Some {
        v4_of_text(s)
    } else {
        v6_of_text(s)
    }
}

/// Reading the text of an address gives the address, and the text is
/// written with address bytes only.
pub proof fn lemma_address_round_trip(a: Seq<u8>)
    requires
        a.len() == 4 || a.len() == 16,
    ensures
        address_of_text(address_text(a), a.len()) == Some(a),
        all_address(address_text(a)),
{
    if a.len() == 4 {
        lemma_v4_round_trip(a);
        lemma_v4_text_address(a);
    } else {
        lemma_v6_round_trip(a);
        lemma_v6_text_address(a);
    }
}

/// Reading the text of a length gives the mask of that length.
pub proof fn lemma_length_round_trip(mask: Seq<u8>)
    requires
        mask.len() == 4 || mask.len() == 16,
        is_prefix_mask(mask),
    ensures
        mask_of_length_text(decimal_text(count_ones(mask)), mask.len()) == Some(mask),
{
    lemma_prefix_mask_shape(mask);
    lemma_small_number_text(count_ones(mask) as u8);
}

/// Reading the text of a mask gives the mask, in either notation.
pub proof fn lemma_mask_round_trip(mask: Seq<u8>, notation: Notation)
    requires
        mask.len() == 4 || mask.len() == 16,
        is_prefix_mask(mask),
    ensures
        mask_of_text(mask_text(mask, notation), mask.len()) == Some(mask),
{
    let t = mask_text(mask, notation);
    match notation {
        Notation::Address => {
            lemma_address_round_trip(mask);
            if t.len() > 0 {
                assert(is_address_byte(t[0]));
            }
        },
        Notation::Prefix => {
            lemma_length_round_trip(mask);
            assert(t.skip(1) =~= decimal_text(count_ones(mask)));
        },
    }
}

/// Where the text of a masked address is cut: at the end of the address,
/// whichever notation it is written in and whichever separator is looked
/// for.
pub proof fn lemma_masked_text_cut(ip: Seq<u8>, mask: Seq<u8>, notation: Notation)
    requires
        ip.len() == 4 || ip.len() == 16,
        mask.len() == ip.len(),
    ensures
        first_separator(masked_text(ip, mask, notation)) == address_text(ip).len(),
        notation == Notation::Prefix ==> first_index(masked_text(ip, mask, notation), SLASH)
            == address_text(ip).len(),
        notation == Notation::Address ==> first_index(masked_text(ip, mask, notation), SPACE)
            == address_text(ip).len(),
        address_text(ip).len() < masked_text(ip, mask, notation).len(),
        masked_text(ip, mask, notation)[address_text(ip).len() as int] == (match notation {
            Notation::Address => SPACE,
            Notation::Prefix => SLASH,
        }),
        masked_text(ip, mask, notation).take(address_text(ip).len() as int) == address_text(ip),
        masked_text(ip, mask, notation).skip(address_text(ip).len() as int + 1) == (match notation {
            Notation::Address => address_text(mask),
            Notation::Prefix => decimal_text(count_ones(mask)),
        }),
{
    let s = masked_text(ip, mask, notation);
    let head = address_text(ip);
    let i = head.len() as int;
    lemma_address_round_trip(ip);
    lemma_address_bytes(head);
    assert forall|j: int| 0 <= j < i implies #[trigger] s[j] != SLASH && s[j] != SPACE by {
        assert(s[j] == head[j]);
    }
    lemma_first_index(s, SLASH);
    lemma_first_index(s, SPACE);
    match notation {
        Notation::Address => {
            assert(s[i] == SPACE);
            lemma_first_index_at(s, SPACE, i);
            assert(s.take(i) =~= head);
            assert(s.skip(i + 1) =~= address_text(mask));
        },
        Notation::Prefix => {
            assert(s[i] == SLASH);
            lemma_first_index_at(s, SLASH, i);
            assert(s.take(i) =~= head);
            assert(s.skip(i + 1) =~= decimal_text(count_ones(mask)));
        },
    }
}

/// Reading the text of a masked address gives the address and the mask, in
/// either notation; and so does reading it as the one notation that it is
/// written in.
pub proof fn lemma_masked_round_trip(ip: Seq<u8>, mask: Seq<u8>, notation: Notation)
    requires
        ip.len() == 4 || ip.len() == 16,
        mask.len() == ip.len(),
        is_prefix_mask(mask),
    ensures
        masked_of_text(masked_text(ip, mask, notation), ip.len()) == Some((ip, mask)),
        notation == Notation::Prefix ==> cidr_of_text(masked_text(ip, mask, notation), ip.len())
            == Some((ip, mask)),
        notation == Notation::Address ==> network_string_of_text(
            masked_text(ip, mask, notation),
            ip.len(),
        ) == Some((ip, mask)),
{
    lemma_masked_text_cut(ip, mask, notation);
    lemma_address_round_trip(ip);
    match notation {
        Notation::Address => {
            lemma_address_round_trip(mask);
        },
        Notation::Prefix => {
            lemma_length_round_trip(mask);
        },
    }
}

/// Reading the text of a masked address without naming its family gives
/// the address and the mask, and so the family: the text of an address of
/// one family is never the text of an address of the other.
pub proof fn lemma_any_masked_round_trip(ip: Seq<u8>, mask: Seq<u8>, notation: Notation)
    requires
        ip.len() == 4 || ip.len() == 16,
        mask.len() == ip.len(),
        is_prefix_mask(mask),
    ensures
        any_masked_of_text(masked_text(ip, mask, notation)) == Some((ip, mask)),
        is_v4_cidr_text(masked_text(ip, mask, Notation::Prefix)) <==> ip.len() == 4,
        any_cidr_of_text(masked_text(ip, mask, Notation::Prefix)) == Some((ip, mask)),
{
    lemma_masked_round_trip(ip, mask, notation);
    lemma_masked_round_trip(ip, mask, Notation::Prefix);
    lemma_masked_text_cut(ip, mask, notation);
    lemma_masked_text_cut(ip, mask, Notation::Prefix);
    if ip.len() == 4 {
        lemma_v4_round_trip(ip);
    } else {
        lemma_v6_text_is_no_v4(ip);
    }
}

/// Reading the text of a network gives the network, in either notation: a
/// network's address has no host bit set, so clearing the host bits of what
/// was read changes nothing.
pub proof fn lemma_network_round_trip(ip: Seq<u8>, mask: Seq<u8>, notation: Notation)
    requires
        ip.len() == 4 || ip.len() == 16,
        mask.len() == ip.len(),
        is_prefix_mask(mask),
        ip == and_seq(ip, mask),
    ensures
        network_of_text(masked_text(ip, mask, notation), ip.len()) == Some((ip, mask)),
{
    lemma_masked_round_trip(ip, mask, notation);
}

/// The text of a mask or of a masked address is written with notation
/// bytes.
pub proof fn lemma_texts_are_notation(ip: Seq<u8>, mask: Seq<u8>, notation: Notation)
    requires
        ip.len() == 4 || ip.len() == 16,
        mask.len() == ip.len(),
    ensures
        all_notation(address_text(ip)),
        all_notation(mask_text(mask, notation)),
        all_notation(masked_text(ip, mask, notation)),
{
    lemma_address_round_trip(ip);
    lemma_address_round_trip(mask);
    lemma_address_bytes(address_text(ip));
    lemma_address_bytes(address_text(mask));
    lemma_decimal_text(count_ones(mask));
    let digits = decimal_text(count_ones(mask));
    assert forall|i: int| 0 <= i < digits.len() implies is_address_byte(#[trigger] digits[i]) by {
        assert(is_digit(digits[i]));
    }
    lemma_address_bytes(digits);
    assert(all_notation(seq![SLASH]));
    assert(all_notation(seq![SPACE]));
    lemma_all_notation_concat(seq![SLASH], digits);
    lemma_all_notation_concat(address_text(ip), seq![SLASH]);
    lemma_all_notation_concat(address_text(ip) + seq![SLASH], digits);
    lemma_all_notation_concat(address_text(ip), seq![SPACE]);
    lemma_all_notation_concat(address_text(ip) + seq![SPACE], address_text(mask));
}

} // verus!
