//! IPv6 addresses as text: eight hexadecimal segments with a colon between
//! each two, such as `fe80:0:0:0:0:0:0:1`; at most once, `::` may stand for
//! one or more segments that are zero, as in `fe80::1`; and the last two
//! segments may be written as an IPv4 address, as in `::ffff:192.0.2.1`.

use crate::addrs::{is_mapped, Ipv6Addr};
use crate::bits::{
    bytes_of_segment_array, bytes_of_segments, lemma_bytes_of_segments_of, segment_array_of_bytes,
    segments_of,
};
use crate::text::ascii::{all_address, is_address_byte, lemma_all_address_concat};
use crate::text::numeral::{
    hex_text, hex_value, is_lower_hex_digit, is_segment_text, lemma_hex_text, lemma_segment_text,
    parse_segment, write_hex,
};
use crate::text::pieces::{
    find, find_pair, first_pair, free_of, join, lemma_first_index_at, lemma_first_pair_at,
    lemma_join_push, lemma_join_shape, lemma_split_first, lemma_split_join, split,
};
use crate::text::v4::{
    lemma_v4_round_trip, lemma_v4_text_address, lemma_v4_text_free_of, lemma_v4_text_is_canonical,
    parse_v4, v4_of_text, v4_text, write_v4, DOT,
};
use vstd::prelude::*;
use vstd::slice::slice_subrange;

verus! {

/// The colon between two segments.
pub const COLON: u8 = 0x3A;

/// The segments that a list of pieces denotes, if every piece is the text of
/// a segment.
pub open spec fn segments_of_parts(parts: Seq<Seq<u8>>) -> Option<Seq<u16>> {
    if forall|k: int| 0 <= k < parts.len() ==> is_segment_text(#[trigger] parts[k]) {
        Some(Seq::new(parts.len(), |k: int| hex_value(parts[k]) as u16))
    } else {
        None
    }
}

/// The segments that a list of pieces at the end of an address denotes.
/// There the last piece may be the text of an IPv4 address, which stands for
/// two segments.
pub open spec fn segments_of_last_parts(parts: Seq<Seq<u8>>) -> Option<Seq<u16>> {
    if parts.len() >= 1 && v4_of_text(parts.last()) is Some {
        match segments_of_parts(parts.drop_last()) {
            Some(g) => Some(g + segments_of(v4_of_text(parts.last())->0)),
            None => None,
        }
    } else {
        segments_of_parts(parts)
    }
}

/// The segments written before a `::`: none for the empty text.
pub open spec fn segments_before_gap(s: Seq<u8>) -> Option<Seq<u16>> {
    if s.len() == 0 {
        Some(Seq::empty())
    } else {
        segments_of_parts(split(s, COLON))
    }
}

/// The segments written after a `::`: none for the empty text.
pub open spec fn segments_after_gap(s: Seq<u8>) -> Option<Seq<u16>> {
    if s.len() == 0 {
        Some(Seq::empty())
    } else {
        segments_of_last_parts(split(s, COLON))
    }
}

/// `n` segments that are zero.
pub open spec fn zero_segments(n: nat) -> Seq<u16> {
    Seq::new(n, |k: int| 0u16)
}

/// The eight segments of the IPv6 address that a text denotes. Without a
/// `::` the text must give all eight. With one, the text before its first
/// `::` and the text after it must together give at most seven, and the gap
/// stands for the missing ones. `None` for any other text.
pub open spec fn v6_segments_of_text(s: Seq<u8>) -> Option<Seq<u16>> {
    let i = first_pair(s, COLON);
    if i >= s.len() {
        match segments_of_last_parts(split(s, COLON)) {
            Some(g) => if g.len() == 8 {
                Some(g)
            } else {
                None
            },
            None => None,
        }
    } else {
        match (segments_before_gap(s.take(i as int)), segments_after_gap(s.skip(i as int + 2))) {
            (Some(h), Some(t)) => if h.len() + t.len() <= 7 {
                Some(h + zero_segments((8 - h.len() - t.len()) as nat) + t)
            } else {
                None
            },
            _ => None,
        }
    }
}

/// The sixteen bytes of the IPv6 address that a text denotes.
pub open spec fn v6_of_text(s: Seq<u8>) -> Option<Seq<u8>> {
    match v6_segments_of_text(s) {
        Some(g) => Some(bytes_of_segments(g)),
        None => None,
    }
}

/// Reads a list of segments with a colon between each two. With
/// `last_may_be_v4`, the last piece may be the text of an IPv4 address.
fn parse_segments(s: &[u8], last_may_be_v4: bool) -> (r: Option<Vec<u16>>)
    ensures
        match r {
            Some(v) => Some(v@),
            None => None,
        } == (if last_may_be_v4 {
            segments_of_last_parts(split(s@, COLON))
        } else {
            segments_of_parts(split(s@, COLON))
        }),
{
    let mut out: Vec<u16> = Vec::new();
    let mut rest: &[u8] = s;
    let ghost mut done: Seq<Seq<u8>> = Seq::empty();
    assert(done + split(rest@, COLON) =~= split(s@, COLON));
    loop
        invariant
            split(s@, COLON) == done + split(rest@, COLON),
            done.len() == out@.len(),
            forall|j: int|
                0 <= j < done.len() ==> is_segment_text(#[trigger] done[j]) && out@[j] == hex_value(
                    done[j],
                ) as u16,
        decreases rest.len(),
    {
        let q = find(rest, COLON);
        let part = slice_subrange(rest, 0, q);
        let ghost parts = split(s@, COLON);
        let ghost k = done.len() as int;
        proof {
            lemma_split_first(rest@, COLON);
            assert(part@ =~= rest@.take(q as int));
            assert(parts[k] == part@);
        }
        if q == rest.len() {
            proof {
                assert(parts =~= done.push(part@));
                assert(parts.drop_last() =~= done);
                assert(parts.last() == part@);
                assert(segments_of_parts(done) == Some(out@)) by {
                    assert(Seq::new(done.len(), |j: int| hex_value(done[j]) as u16) =~= out@);
                }
            }
            if last_may_be_v4 {
                match parse_v4(part) {
                    Some(a) => {
                        let ghost before = out@;
                        out.push(a[0] as u16 * 256 + a[1] as u16);
                        out.push(a[2] as u16 * 256 + a[3] as u16);
                        assert(out@ =~= before + segments_of(a@));
                        return Some(out);
                    },
                    None => {},
                }
            }
            return match parse_segment(part) {
                Some(g) => {
                    out.push(g);
                    proof {
                        assert forall|j: int| 0 <= j < parts.len() implies is_segment_text(
                            #[trigger] parts[j],
                        ) by {
                            if j < k {
                                assert(parts[j] == done[j]);
                            }
                        }
                        assert(Seq::new(parts.len(), |j: int| hex_value(parts[j]) as u16) =~= out@);
                    }
                    Some(out)
                },
                None => {
                    assert(!is_segment_text(parts[k]));
                    None
                },
            };
        }
        let g = match parse_segment(part) {
            Some(g) => g,
            None => {
                proof {
                    lemma_split_first(rest@.skip(q + 1), COLON);
                    assert(parts.len() >= k + 2);
                    assert(!is_segment_text(parts[k]));
                    assert(parts.drop_last()[k] == parts[k]);
                }
                return None;
            },
        };
        out.push(g);
        proof {
            let before = done;
            done = done.push(part@);
            assert(before + (seq![part@] + split(rest@.skip(q + 1), COLON)) =~= done + split(
                rest@.skip(q + 1),
                COLON,
            ));
        }
        let ghost old_rest = rest@;
        rest = slice_subrange(rest, q + 1, rest.len());
        assert(rest@ =~= old_rest.skip(q + 1));
    }
}

/// Reads the text of an IPv6 address.
pub fn parse_v6(s: &[u8]) -> (r: Option<[u8; 16]>)
    ensures
        match r {
            Some(a) => v6_of_text(s@) == Some(a@),
            None => v6_of_text(s@) is None,
        },
{
    let gap = find_pair(s, COLON);
    let mut segments: [u16; 8] = [0u16; 8];
    if gap == s.len() {
        let all = match parse_segments(s, true) {
            Some(all) => all,
            None => {
                return None;
            },
        };
        if all.len() != 8 {
            return None;
        }
        let mut k: usize = 0;
        while k < 8
            invariant
                k <= 8,
                all@.len() == 8,
                forall|j: int| 0 <= j < k ==> segments@[j] == all@[j],
            decreases 8 - k,
        {
            segments[k] = all[k];
            k = k + 1;
        }
        assert(segments@ =~= all@);
    } else {
        let head = slice_subrange(s, 0, gap);
        let tail = slice_subrange(s, gap + 2, s.len());
        assert(head@ =~= s@.take(gap as int));
        assert(tail@ =~= s@.skip(gap + 2));
        let before = if head.len() == 0 {
            Vec::new()
        } else {
            match parse_segments(head, false) {
                Some(before) => before,
                None => {
                    return None;
                },
            }
        };
        let after = if tail.len() == 0 {
            Vec::new()
        } else {
            match parse_segments(tail, true) {
                Some(after) => after,
                None => {
                    return None;
                },
            }
        };
        assert(segments_before_gap(head@) == Some(before@));
        assert(segments_after_gap(tail@) == Some(after@));
        if before.len() > 7 || after.len() > 7 - before.len() {
            return None;
        }
        let missing: usize = 8 - before.len() - after.len();
        let ghost want = before@ + zero_segments(missing as nat) + after@;
        let mut k: usize = 0;
        while k < before.len()
            invariant
                k <= before.len() <= 7,
                forall|j: int| 0 <= j < 8 ==> segments@[j] == (if j < k {
                    before@[j]
                } else {
                    0u16
                }),
            decreases before.len() - k,
        {
            segments[k] = before[k];
            k = k + 1;
        }
        let start: usize = before.len() + missing;
        let mut k: usize = 0;
        while k < after.len()
            invariant
                k <= after.len(),
                start == before.len() + missing,
                start + after.len() == 8,
                forall|j: int| 0 <= j < 8 ==> segments@[j] == (if j < before.len() {
                    before@[j]
                } else if start <= j < start + k {
                    after@[j - start]
                } else {
                    0u16
                }),
            decreases after.len() - k,
        {
            segments[start + k] = after[k];
            k = k + 1;
        }
        assert(segments@ =~= want);
    }
    Some(bytes_of_segment_array(&segments))
}

/// The number of segments that are zero from index `i` on, up to the first
/// that is not.
pub open spec fn zero_run(g: Seq<u16>, i: int) -> nat
    decreases g.len() - i,
{
    if 0 <= i < g.len() && g[i] == 0 {
        1 + zero_run(g, i + 1)
    } else {
        0
    }
}

/// The index below `k` at which the longest run of zero segments begins: the
/// first such index if several runs are as long. Index 0 if `k` is 0.
pub open spec fn longest_run_start(g: Seq<u16>, k: nat) -> int
    decreases k,
{
    if k == 0 {
        0
    } else {
        let best = longest_run_start(g, (k - 1) as nat);
        if zero_run(g, k - 1) > zero_run(g, best) {
            k - 1
        } else {
            best
        }
    }
}

/// The hexadecimal texts of a list of segments, one for each segment.
pub open spec fn segment_texts(g: Seq<u16>) -> Seq<Seq<u8>> {
    Seq::new(g.len(), |k: int| hex_text(g[k] as nat))
}

/// The texts of a list of segments with a colon between each two.
pub open spec fn segments_text(g: Seq<u16>) -> Seq<u8> {
    join(segment_texts(g), COLON)
}

/// The text of the IPv6 address with the bytes `a`. An IPv4-mapped address
/// is written as `::ffff:` and the IPv4 address. In any other address the
/// longest run of two or more zero segments, the first of them if several
/// are as long, is written as `::`. Segments are written in lower case
/// without leading zeros.
pub open spec fn v6_text(a: Seq<u8>) -> Seq<u8> {
    let g = segments_of(a);
    if is_mapped(a) {
        seq![COLON, COLON] + hex_text(0xFFFF) + seq![COLON] + v4_text(a.skip(12))
    } else {
        let start = longest_run_start(g, 8);
        let len = zero_run(g, start);
        if len >= 2 {
            segments_text(g.take(start)) + seq![COLON, COLON] + segments_text(g.skip(start + len))
        } else {
            segments_text(g)
        }
    }
}

/// A run of zero segments ends within the list, and holds zero segments
/// only.
pub proof fn lemma_zero_run(g: Seq<u16>, i: int)
    requires
        0 <= i <= g.len(),
    ensures
        i + zero_run(g, i) <= g.len(),
        forall|k: int| i <= k < i + zero_run(g, i) ==> #[trigger] g[k] == 0,
    decreases g.len() - i,
{
    if i < g.len() && g[i] == 0 {
        lemma_zero_run(g, i + 1);
    }
}

/// The longest run begins at an index below `k`, or at 0.
pub proof fn lemma_longest_run_start(g: Seq<u16>, k: nat)
    ensures
        0 <= longest_run_start(g, k) <= k,
        k > 0 ==> longest_run_start(g, k) < k,
    decreases k,
{
    if k > 0 {
        lemma_longest_run_start(g, (k - 1) as nat);
    }
}

/// The text of a segment holds hexadecimal digits only, so no colon and no
/// dot, and is no IPv4 address.
pub proof fn lemma_segment_text_plain(x: u16)
    ensures
        free_of(hex_text(x as nat), COLON),
        free_of(hex_text(x as nat), DOT),
        hex_text(x as nat).len() > 0,
        v4_of_text(hex_text(x as nat)) is None,
        all_address(hex_text(x as nat)),
{
    let t = hex_text(x as nat);
    lemma_hex_text(x as nat);
    assert forall|i: int| 0 <= i < t.len() implies #[trigger] t[i] != COLON && t[i] != DOT
        && is_address_byte(t[i]) by {
        assert(is_lower_hex_digit(t[i]));
    }
    lemma_first_index_at(t, DOT, t.len() as int);
    lemma_split_first(t, DOT);
}

/// What holds of the text of one or more segments: cut at its colons, it
/// gives the segments back; it is not empty; it neither begins nor ends with
/// a colon, and has no two colons in a row.
pub proof fn lemma_segments_text(g: Seq<u16>)
    requires
        g.len() >= 1,
    ensures
        split(segments_text(g), COLON) == segment_texts(g),
        segments_of_parts(segment_texts(g)) == Some(g),
        segments_of_last_parts(segment_texts(g)) == Some(g),
        segments_text(g).len() > 0,
        segments_text(g)[0] != COLON,
        segments_text(g).last() != COLON,
        forall|j: int|
            0 <= j && j + 1 < segments_text(g).len() ==> !(#[trigger] segments_text(g)[j] == COLON
                && segments_text(g)[j + 1] == COLON),
{
    let parts = segment_texts(g);
    assert forall|k: int| 0 <= k < parts.len() implies free_of(#[trigger] parts[k], COLON)
        && parts[k].len() > 0 && is_segment_text(parts[k]) && hex_value(parts[k]) as u16 == g[k] by {
        lemma_segment_text_plain(g[k]);
        lemma_segment_text(g[k]);
    }
    lemma_split_join(parts, COLON);
    lemma_join_shape(parts, COLON);
    assert(Seq::new(parts.len(), |k: int| hex_value(parts[k]) as u16) =~= g);
    lemma_segment_text_plain(g[g.len() - 1]);
    assert(parts.last() == hex_text(g[g.len() - 1] as nat));
}

/// The text of a list of segments is written with address bytes.
pub proof fn lemma_segments_text_address(g: Seq<u16>)
    ensures
        all_address(segments_text(g)),
    decreases g.len(),
{
    let parts = segment_texts(g);
    if g.len() == 1 {
        lemma_segment_text_plain(g[0]);
    } else if g.len() > 1 {
        lemma_segment_text_plain(g[0]);
        let rest = g.skip(1);
        lemma_segments_text_address(rest);
        assert(parts.skip(1) =~= segment_texts(rest));
        lemma_all_address_concat(parts[0], seq![COLON]);
        lemma_all_address_concat(parts[0] + seq![COLON], segments_text(rest));
    }
}

/// Reading `::ffff:` and the text of an IPv4 address gives five zero
/// segments, the segment `ffff` and the two segments of the IPv4 address.
proof fn lemma_read_mapped(v4: Seq<u8>)
    requires
        v4.len() == 4,
    ensures
        v6_segments_of_text(seq![COLON, COLON] + hex_text(0xFFFF) + seq![COLON] + v4_text(v4))
            == Some(zero_segments(5) + seq![0xFFFFu16] + segments_of(v4)),
{
    let marker = hex_text(0xFFFF);
    let last = v4_text(v4);
    let tail = marker + seq![COLON] + last;
    let s = seq![COLON, COLON] + marker + seq![COLON] + last;
    assert(s =~= seq![COLON, COLON] + tail);
    lemma_segment_text_plain(0xFFFF);
    lemma_segment_text(0xFFFF);
    lemma_v4_text_free_of(v4, COLON);
    lemma_v4_round_trip(v4);
    assert(first_pair(s, COLON) == 0) by {
        lemma_first_pair_at(s, COLON, 0);
    }
    assert(s.take(0) =~= Seq::<u8>::empty());
    assert(s.skip(2) =~= tail);
    let parts = seq![marker, last];
    assert(split(tail, COLON) == parts) by {
        assert(parts.skip(1) =~= seq![last]);
        assert(join(parts.skip(1), COLON) == last);
        assert(join(parts, COLON) == tail);
        lemma_split_join(parts, COLON);
    }
    let t = seq![0xFFFFu16] + segments_of(v4);
    assert(segments_of_last_parts(parts) == Some(t)) by {
        assert(parts.last() == last);
        assert(parts.drop_last() =~= seq![marker]);
        assert(is_segment_text(marker));
        assert(Seq::new(1, |k: int| hex_value(seq![marker][k]) as u16) =~= seq![0xFFFFu16]);
    }
    assert(tail.len() > 0);
    assert(segments_after_gap(tail) == Some(t));
    assert(segments_before_gap(s.take(0)) == Some(Seq::<u16>::empty()));
    assert(t.len() == 3);
    assert(Seq::<u16>::empty() + zero_segments(5) + t =~= zero_segments(5) + seq![0xFFFFu16]
        + segments_of(v4));
}

/// Reading a text with a `::` for a run of zero segments gives the segments
/// back.
proof fn lemma_read_gap(g: Seq<u16>, start: int, len: int)
    requires
        g.len() == 8,
        0 <= start,
        2 <= len,
        start + len <= 8,
        forall|k: int| start <= k < start + len ==> #[trigger] g[k] == 0,
    ensures
        v6_segments_of_text(
            segments_text(g.take(start)) + seq![COLON, COLON] + segments_text(g.skip(start + len)),
        ) == Some(g),
{
    let before = g.take(start);
    let after = g.skip(start + len);
    let head = segments_text(before);
    let tail = segments_text(after);
    let s = head + seq![COLON, COLON] + tail;
    let i = head.len() as int;
    assert(segments_before_gap(head) == Some(before)) by {
        if before.len() > 0 {
            lemma_segments_text(before);
        } else {
            assert(segment_texts(before) =~= Seq::<Seq<u8>>::empty());
        }
    }
    assert(segments_after_gap(tail) == Some(after)) by {
        if after.len() > 0 {
            lemma_segments_text(after);
        } else {
            assert(segment_texts(after) =~= Seq::<Seq<u8>>::empty());
        }
    }
    assert(first_pair(s, COLON) == i) by {
        if before.len() > 0 {
            lemma_segments_text(before);
        } else {
            assert(segment_texts(before) =~= Seq::<Seq<u8>>::empty());
        }
        assert forall|j: int| 0 <= j < i && j + 1 < s.len() implies !(#[trigger] s[j] == COLON
            && s[j + 1] == COLON) by {
            assert(s[j] == head[j]);
            if j + 1 < i {
                assert(s[j + 1] == head[j + 1]);
            }
        }
        assert(s[i] == COLON && s[i + 1] == COLON);
        lemma_first_pair_at(s, COLON, i);
    }
    assert(s.take(i) =~= head);
    assert(s.skip(i + 2) =~= tail);
    assert(before + zero_segments((8 - before.len() - after.len()) as nat) + after =~= g);
}

/// Reading the text of eight segments without a `::` gives the segments
/// back.
proof fn lemma_read_plain(g: Seq<u16>)
    requires
        g.len() == 8,
    ensures
        v6_segments_of_text(segments_text(g)) == Some(g),
{
    let s = segments_text(g);
    lemma_segments_text(g);
    lemma_first_pair_at(s, COLON, s.len() as int);
}

/// The segments of an IPv4-mapped address: five that are zero, the segment
/// `ffff`, and the two segments of the IPv4 address in the last four bytes.
proof fn lemma_mapped_segments(a: Seq<u8>)
    requires
        a.len() == 16,
        is_mapped(a),
    ensures
        segments_of(a) == zero_segments(5) + seq![0xFFFFu16] + segments_of(a.skip(12)),
{
    let g = segments_of(a);
    let all = zero_segments(5) + seq![0xFFFFu16] + segments_of(a.skip(12));
    assert(all.len() == 8);
    assert forall|k: int| 0 <= k < 8 implies all[k] == g[k] by {
        if k < 5 {
            assert(a[2 * k] == 0 && a[2 * k + 1] == 0);
        } else if k == 5 {
            assert(a[10] == 0xFF && a[11] == 0xFF);
        } else {
            assert(a.skip(12)[2 * (k - 6)] == a[2 * k]);
            assert(a.skip(12)[2 * (k - 6) + 1] == a[2 * k + 1]);
        }
    }
    assert(all =~= g);
}

/// Reading the text of an address gives its segments.
proof fn lemma_read_text(a: Seq<u8>)
    requires
        a.len() == 16,
    ensures
        v6_segments_of_text(v6_text(a)) == Some(segments_of(a)),
{
    let g = segments_of(a);
    if is_mapped(a) {
        lemma_read_mapped(a.skip(12));
        lemma_mapped_segments(a);
    } else {
        let start = longest_run_start(g, 8);
        lemma_longest_run_start(g, 8);
        let len = zero_run(g, start);
        lemma_zero_run(g, start);
        if len >= 2 {
            lemma_read_gap(g, start, len as int);
        } else {
            lemma_read_plain(g);
        }
    }
}

/// Reading the text of an address gives the address: the notation loses
/// nothing.
pub proof fn lemma_v6_round_trip(a: Seq<u8>)
    requires
        a.len() == 16,
    ensures
        v6_of_text(v6_text(a)) == Some(a),
{
    lemma_read_text(a);
    lemma_bytes_of_segments_of(a);
}

/// The text of an IPv6 address holds a colon, so it is not the text of an
/// IPv4 address.
pub proof fn lemma_v6_text_is_no_v4(a: Seq<u8>)
    requires
        a.len() == 16,
    ensures
        v4_of_text(v6_text(a)) is None,
{
    let g = segments_of(a);
    let s = v6_text(a);
    let i: int = if is_mapped(a) {
        0
    } else {
        let start = longest_run_start(g, 8);
        let len = zero_run(g, start);
        if len >= 2 {
            segments_text(g.take(start)).len() as int
        } else {
            hex_text(g[0] as nat).len() as int
        }
    };
    assert(0 <= i < s.len() && s[i] == COLON) by {
        if !is_mapped(a) && zero_run(g, longest_run_start(g, 8)) < 2 {
            let parts = segment_texts(g);
            assert(parts[0] == hex_text(g[0] as nat));
            assert(s == parts[0] + seq![COLON] + join(parts.skip(1), COLON));
        }
    }
    if v4_of_text(s) is Some {
        lemma_v4_text_is_canonical(s);
        lemma_v4_text_free_of(v4_of_text(s)->0, COLON);
        assert(s[i] != COLON);
    }
}

/// The text of an address is written with address bytes: hexadecimal digits
/// in lower case, colons and dots.
pub proof fn lemma_v6_text_address(a: Seq<u8>)
    ensures
        all_address(v6_text(a)),
{
    let g = segments_of(a);
    let gap = seq![COLON, COLON];
    assert(all_address(gap));
    assert(all_address(seq![COLON]));
    if is_mapped(a) {
        lemma_segment_text_plain(0xFFFF);
        lemma_v4_text_address(a.skip(12));
        lemma_all_address_concat(gap, hex_text(0xFFFF));
        lemma_all_address_concat(gap + hex_text(0xFFFF), seq![COLON]);
        lemma_all_address_concat(gap + hex_text(0xFFFF) + seq![COLON], v4_text(a.skip(12)));
    } else {
        let start = longest_run_start(g, 8);
        let len = zero_run(g, start);
        if len >= 2 {
            lemma_segments_text_address(g.take(start));
            lemma_segments_text_address(g.skip(start + len));
            lemma_all_address_concat(segments_text(g.take(start)), gap);
            lemma_all_address_concat(
                segments_text(g.take(start)) + gap,
                segments_text(g.skip(start + len)),
            );
        } else {
            lemma_segments_text_address(g);
        }
    }
}

/// The number of segments that are zero from index `i` on.
fn run_at(g: &[u16; 8], i: usize) -> (r: usize)
    requires
        i <= 8,
    ensures
        r == zero_run(g@, i as int),
        i + r <= 8,
{
    let mut j: usize = i;
    while j < 8 && g[j] == 0
        invariant
            i <= j <= 8,
            zero_run(g@, i as int) == (j - i) + zero_run(g@, j as int),
        decreases 8 - j,
    {
        j = j + 1;
    }
    j - i
}

/// Where the longest run of zero segments begins, and how long it is.
fn longest_zero_run(g: &[u16; 8]) -> (r: (usize, usize))
    ensures
        r.0 == longest_run_start(g@, 8),
        r.1 == zero_run(g@, r.0 as int),
        r.0 + r.1 <= 8,
{
    let mut best: usize = 0;
    let mut best_len: usize = run_at(g, 0);
    let mut k: usize = 0;
    while k < 8
        invariant
            k <= 8,
            best <= k,
            best == longest_run_start(g@, k as nat),
            best_len == zero_run(g@, best as int),
            best + best_len <= 8,
        decreases 8 - k,
    {
        let here = run_at(g, k);
        if here > best_len {
            best = k;
            best_len = here;
        }
        k = k + 1;
    }
    (best, best_len)
}

/// Writes the texts of the segments from index `from` up to index `to`, with
/// a colon between each two, at the end of `out`.
fn write_segments(out: &mut Vec<u8>, g: &[u16; 8], from: usize, to: usize)
    requires
        from <= to <= 8,
    ensures
        final(out)@ == old(out)@ + segments_text(g@.subrange(from as int, to as int)),
{
    let mut k: usize = from;
    assert(segment_texts(g@.subrange(from as int, from as int)) =~= Seq::<Seq<u8>>::empty());
    assert(out@ =~= old(out)@ + segments_text(g@.subrange(from as int, k as int)));
    while k < to
        invariant
            from <= k <= to <= 8,
            out@ == old(out)@ + segments_text(g@.subrange(from as int, k as int)),
        decreases to - k,
    {
        let ghost before = out@;
        let ghost parts = segment_texts(g@.subrange(from as int, k as int));
        let ghost piece = hex_text(g@[k as int] as nat);
        if k > from {
            out.push(COLON);
        }
        write_hex(out, g[k]);
        proof {
            lemma_join_push(parts, piece, COLON);
            assert(parts.push(piece) =~= segment_texts(g@.subrange(from as int, k + 1)));
            if k > from {
                assert(out@ =~= old(out)@ + (join(parts, COLON) + seq![COLON] + piece));
            } else {
                assert(out@ =~= old(out)@ + piece);
            }
        }
        k = k + 1;
    }
}

/// Writes the text of the IPv6 address with the bytes `a` at the end of
/// `out`.
pub fn write_v6(out: &mut Vec<u8>, a: &[u8; 16])
    ensures
        final(out)@ == old(out)@ + v6_text(a@),
{
    if Ipv6Addr::from_octets(*a).is_ipv4_mapped() {
        out.push(COLON);
        out.push(COLON);
        write_hex(out, 0xFFFF);
        out.push(COLON);
        let last: [u8; 4] = [a[12], a[13], a[14], a[15]];
        assert(last@ =~= a@.skip(12));
        assert(out@ =~= old(out)@ + seq![COLON, COLON] + hex_text(0xFFFF) + seq![COLON]);
        write_v4(out, &last);
        assert(final(out)@ =~= old(out)@ + v6_text(a@));
    } else {
        let g = segment_array_of_bytes(a);
        let (start, len) = longest_zero_run(&g);
        if len >= 2 {
            write_segments(out, &g, 0, start);
            out.push(COLON);
            out.push(COLON);
            write_segments(out, &g, start + len, 8);
            assert(g@.subrange(0, start as int) =~= g@.take(start as int));
            assert(g@.subrange(start + len, 8) =~= g@.skip(start + len));
        } else {
            write_segments(out, &g, 0, 8);
            assert(g@.subrange(0, 8) =~= g@);
        }
        assert(final(out)@ =~= old(out)@ + v6_text(a@));
    }
}

} // verus!
