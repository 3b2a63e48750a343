//! IPv4 addresses as text: four decimal octets with a dot between each two,
//! such as `192.168.1.1`. An octet is written without leading zeros, and a
//! text with a leading zero before another digit is no address.

use crate::text::ascii::{all_address, is_address_byte};
use crate::text::numeral::{
    decimal_text, decimal_value, is_digit, is_octet_text, lemma_decimal_text, lemma_octet_text,
    lemma_octet_text_is_canonical, parse_octet, write_decimal,
};
use crate::text::pieces::{
    find, free_of, join, lemma_join_free_of, lemma_join_split, lemma_split_first, lemma_split_join,
    split,
};
use vstd::prelude::*;
use vstd::slice::slice_subrange;

verus! {

/// The dot between two octets.
pub const DOT: u8 = 0x2E;

/// The decimal texts of the bytes of a block, one for each byte.
pub open spec fn octet_texts(a: Seq<u8>) -> Seq<Seq<u8>> {
    Seq::new(a.len(), |k: int| decimal_text(a[k] as nat))
}

/// The text of the IPv4 address with the bytes `a`.
pub open spec fn v4_text(a: Seq<u8>) -> Seq<u8> {
    join(octet_texts(a), DOT)
}

/// The bytes of the IPv4 address that a text denotes: the text must consist
/// of exactly four pieces between dots, each the text of an octet. `None`
/// for any other text.
pub open spec fn v4_of_text(s: Seq<u8>) -> Option<Seq<u8>> {
    let parts = split(s, DOT);
    if parts.len() == 4 && (forall|k: int| 0 <= k < 4 ==> is_octet_text(#[trigger] parts[k])) {
        Some(Seq::new(4, |k: int| decimal_value(parts[k]) as u8))
    } else {
        None
    }
}

/// The text of an address holds nothing but digits and dots.
pub proof fn lemma_v4_text_free_of(a: Seq<u8>, other: u8)
    requires
        other != DOT,
        !is_digit(other),
    ensures
        free_of(v4_text(a), other),
{
    let parts = octet_texts(a);
    assert forall|k: int| 0 <= k < parts.len() implies free_of(#[trigger] parts[k], other) by {
        lemma_decimal_text(a[k] as nat);
        let p = parts[k];
        assert forall|i: int| 0 <= i < p.len() implies #[trigger] p[i] != other by {
            assert(is_digit(p[i]));
        }
    }
    lemma_join_free_of(parts, DOT, other);
}

/// Reading the text of an address gives the address: the notation loses
/// nothing.
pub proof fn lemma_v4_round_trip(a: Seq<u8>)
    requires
        a.len() == 4,
    ensures
        v4_of_text(v4_text(a)) == Some(a),
{
    let parts = octet_texts(a);
    assert forall|k: int| 0 <= k < parts.len() implies free_of(#[trigger] parts[k], DOT) by {
        lemma_decimal_text(a[k] as nat);
        let p = parts[k];
        assert forall|i: int| 0 <= i < p.len() implies #[trigger] p[i] != DOT by {
            assert(is_digit(p[i]));
        }
    }
    lemma_split_join(parts, DOT);
    assert forall|k: int| 0 <= k < 4 implies is_octet_text(#[trigger] parts[k]) && decimal_value(
        parts[k],
    ) as u8 == a[k] by {
        lemma_octet_text(a[k]);
    }
    assert(Seq::new(4, |k: int| decimal_value(parts[k]) as u8) =~= a);
}

/// A text that denotes an address is the text of that address: an address
/// has one text only.
pub proof fn lemma_v4_text_is_canonical(s: Seq<u8>)
    requires
        v4_of_text(s) is Some,
    ensures
        v4_text(v4_of_text(s)->0) == s,
        v4_of_text(s)->0.len() == 4,
{
    let parts = split(s, DOT);
    let a = v4_of_text(s)->0;
    lemma_join_split(s, DOT);
    assert forall|k: int| 0 <= k < 4 implies #[trigger] octet_texts(a)[k] == parts[k] by {
        assert(is_octet_text(parts[k]));
        lemma_octet_text_is_canonical(parts[k]);
    }
    assert(octet_texts(a) =~= parts);
}

/// Reads the text of an IPv4 address.
pub fn parse_v4(s: &[u8]) -> (r: Option<[u8; 4]>)
    ensures
        match r {
            Some(a) => v4_of_text(s@) == Some(a@),
            None => v4_of_text(s@) is None,
        },
{
    let mut out: [u8; 4] = [0u8; 4];
    let mut rest: &[u8] = s;
    let mut k: usize = 0;
    let ghost mut done: Seq<Seq<u8>> = Seq::empty();
    assert(done + split(rest@, DOT) =~= split(s@, DOT));
    while k < 4
        invariant
            k < 4,
            done.len() == k,
            split(s@, DOT) == done + split(rest@, DOT),
            forall|j: int| 0 <= j < k ==> is_octet_text(#[trigger] done[j]) && out@[j] == decimal_value(done[j]),
        decreases 4 - k,
    {
        let q = find(rest, DOT);
        let part = slice_subrange(rest, 0, q);
        let ghost parts = split(s@, DOT);
        proof {
            lemma_split_first(rest@, DOT);
            assert(part@ =~= rest@.take(q as int));
            assert(parts[k as int] == part@);
        }
        let octet = match parse_octet(part) {
            Some(octet) => octet,
            None => {
                assert(!is_octet_text(parts[k as int]));
                return None;
            },
        };
        out[k] = octet;
        if q == rest.len() {
            proof {
                assert(parts =~= done.push(part@));
                if k == 3 {
                    assert forall|j: int| 0 <= j < 4 implies is_octet_text(#[trigger] parts[j]) by {
                        if j < 3 {
                            assert(parts[j] == done[j]);
                        }
                    }
                    assert(Seq::new(4, |j: int| decimal_value(parts[j]) as u8) =~= out@);
                }
            }
            return if k == 3 {
                Some(out)
            } else {
                None
            };
        }
        if k == 3 {
            proof {
                lemma_split_first(rest@.skip(q + 1), DOT);
                assert(parts.len() >= 5);
            }
            return None;
        }
        proof {
            let before = done;
            done = done.push(part@);
            assert(before + (seq![part@] + split(rest@.skip(q + 1), DOT)) =~= done + split(
                rest@.skip(q + 1),
                DOT,
            ));
        }
        let ghost before = rest@;
        rest = slice_subrange(rest, q + 1, rest.len());
        assert(rest@ =~= before.skip(q + 1));
        k = k + 1;
    }
    None
}

/// Writes the text of the IPv4 address with the bytes `a` at the end of
/// `out`.
pub fn write_v4(out: &mut Vec<u8>, a: &[u8; 4])
    ensures
        final(out)@ == old(out)@ + v4_text(a@),
{
    write_decimal(out, a[0]);
    out.push(DOT);
    write_decimal(out, a[1]);
    out.push(DOT);
    write_decimal(out, a[2]);
    out.push(DOT);
    write_decimal(out, a[3]);
    proof {
        let parts = octet_texts(a@);
        reveal_with_fuel(join, 4);
        let second_on = parts.skip(1);
        let third_on = second_on.skip(1);
        let fourth_on = third_on.skip(1);
        assert(second_on[0] == parts[1]);
        assert(third_on[0] == parts[2]);
        assert(fourth_on[0] == parts[3]);
        assert(v4_text(a@) =~= parts[0] + seq![DOT] + (parts[1] + seq![DOT] + (parts[2] + seq![DOT]
            + parts[3])));
        assert(final(out)@ =~= old(out)@ + v4_text(a@));
    }
}

/// The text of an address is written with digits and dots only.
pub proof fn lemma_v4_text_address(a: Seq<u8>)
    ensures
        all_address(v4_text(a)),
{
    let t = v4_text(a);
    assert forall|i: int| 0 <= i < t.len() implies is_address_byte(#[trigger] t[i]) by {
        if !is_address_byte(t[i]) {
            lemma_v4_text_free_of(a, t[i]);
        }
    }
}

} // verus!
