//! Cutting a text into pieces at a separator byte and putting pieces
//! together with one.

use vstd::prelude::*;

verus! {

/// The index of the first `sep` in `s`, or the length of `s` if it holds
/// none.
pub open spec fn first_index(s: Seq<u8>, sep: u8) -> nat
    decreases s.len(),
{
    if s.len() == 0 {
        0
    } else if s[0] == sep {
        0
    } else {
        1 + first_index(s.skip(1), sep)
    }
}

/// The index of the first place in `s` where two `sep` follow each other, or
/// the length of `s` if there is none.
pub open spec fn first_pair(s: Seq<u8>, sep: u8) -> nat
    decreases s.len(),
{
    if s.len() < 2 {
        s.len()
    } else if s[0] == sep && s[1] == sep {
        0
    } else {
        1 + first_pair(s.skip(1), sep)
    }
}

/// Whether `s` holds no `sep`.
pub open spec fn free_of(s: Seq<u8>, sep: u8) -> bool {
    forall|i: int| 0 <= i < s.len() ==> #[trigger] s[i] != sep
}

/// The pieces of `s` between its `sep` bytes, in order. A text without any
/// `sep` is one piece; a `sep` at either end, or two in a row, give an empty
/// piece.
pub open spec fn split(s: Seq<u8>, sep: u8) -> Seq<Seq<u8>>
    decreases s.len(),
{
    let i = first_index(s, sep);
    if i >= s.len() {
        seq![s]
    } else {
        seq![s.take(i as int)] + split(s.skip(i as int + 1), sep)
    }
}

/// The pieces written one after the other with a `sep` between each two.
pub open spec fn join(parts: Seq<Seq<u8>>, sep: u8) -> Seq<u8>
    decreases parts.len(),
{
    if parts.len() == 0 {
        Seq::empty()
    } else if parts.len() == 1 {
        parts[0]
    } else {
        parts[0] + seq![sep] + join(parts.skip(1), sep)
    }
}

/// No `sep` stands before the first index, and one stands at it unless it is
/// the length.
pub proof fn lemma_first_index(s: Seq<u8>, sep: u8)
    ensures
        first_index(s, sep) <= s.len(),
        forall|j: int| 0 <= j < first_index(s, sep) ==> #[trigger] s[j] != sep,
        first_index(s, sep) < s.len() ==> s[first_index(s, sep) as int] == sep,
    decreases s.len(),
{
    if s.len() > 0 && s[0] != sep {
        let t = s.skip(1);
        lemma_first_index(t, sep);
        assert forall|j: int| 0 <= j < first_index(s, sep) implies #[trigger] s[j] != sep by {
            if j > 0 {
                assert(s[j] == t[j - 1]);
            }
        }
    }
}

/// An index with no `sep` before it, and with one at it unless it is the
/// length, is the first index.
pub proof fn lemma_first_index_at(s: Seq<u8>, sep: u8, i: int)
    requires
        0 <= i <= s.len(),
        forall|j: int| 0 <= j < i ==> #[trigger] s[j] != sep,
        i < s.len() ==> s[i] == sep,
    ensures
        first_index(s, sep) == i,
    decreases s.len(),
{
    if s.len() > 0 && i > 0 {
        let t = s.skip(1);
        assert(s[0] != sep);
        assert forall|j: int| 0 <= j < i - 1 implies #[trigger] t[j] != sep by {
            assert(t[j] == s[j + 1]);
        }
        lemma_first_index_at(t, sep, i - 1);
    }
}

/// An index where two `sep` follow each other, with no such place before it,
/// is the first pair; and so is the length, if there is no such place at all.
pub proof fn lemma_first_pair_at(s: Seq<u8>, sep: u8, i: int)
    requires
        0 <= i <= s.len(),
        forall|j: int| 0 <= j < i && j + 1 < s.len() ==> !(#[trigger] s[j] == sep && s[j + 1] == sep),
        i < s.len() ==> i + 1 < s.len() && s[i] == sep && s[i + 1] == sep,
    ensures
        first_pair(s, sep) == i,
    decreases s.len(),
{
    if s.len() >= 2 && i > 0 {
        let t = s.skip(1);
        assert(!(s[0] == sep && s[1] == sep));
        assert forall|j: int| 0 <= j < i - 1 && j + 1 < t.len() implies !(#[trigger] t[j] == sep
            && t[j + 1] == sep) by {
            assert(t[j] == s[j + 1]);
            assert(t[j + 1] == s[j + 2]);
        }
        if i < s.len() {
            assert(t[i - 1] == s[i]);
            assert(t[i] == s[i + 1]);
        }
        lemma_first_pair_at(t, sep, i - 1);
    }
}

/// A text has at least one piece, and its first piece ends at the first
/// `sep`.
pub proof fn lemma_split_first(s: Seq<u8>, sep: u8)
    ensures
        split(s, sep).len() >= 1,
        split(s, sep)[0] == s.take(first_index(s, sep) as int),
        first_index(s, sep) >= s.len() ==> split(s, sep) == seq![s],
        first_index(s, sep) < s.len() ==> split(s, sep) == seq![s.take(first_index(s, sep) as int)]
            + split(s.skip(first_index(s, sep) as int + 1), sep),
{
    lemma_first_index(s, sep);
    if first_index(s, sep) >= s.len() {
        assert(s.take(s.len() as int) =~= s);
    }
}

/// Cutting at `sep` what was put together with `sep`, from pieces that hold
/// none, gives the pieces back.
pub proof fn lemma_split_join(parts: Seq<Seq<u8>>, sep: u8)
    requires
        parts.len() >= 1,
        forall|k: int| 0 <= k < parts.len() ==> free_of(#[trigger] parts[k], sep),
    ensures
        split(join(parts, sep), sep) == parts,
    decreases parts.len(),
{
    let whole = join(parts, sep);
    let head = parts[0];
    assert(free_of(head, sep));
    if parts.len() == 1 {
        lemma_first_index_at(whole, sep, whole.len() as int);
        assert(split(whole, sep) =~= parts);
    } else {
        let rest = parts.skip(1);
        assert forall|k: int| 0 <= k < rest.len() implies free_of(#[trigger] rest[k], sep) by {
            assert(rest[k] == parts[k + 1]);
        }
        lemma_split_join(rest, sep);
        let i = head.len() as int;
        assert forall|j: int| 0 <= j < i implies #[trigger] whole[j] != sep by {
            assert(whole[j] == head[j]);
        }
        assert(whole[i] == sep);
        lemma_first_index_at(whole, sep, i);
        assert(whole.take(i) =~= head);
        assert(whole.skip(i + 1) =~= join(rest, sep));
        assert(split(whole, sep) =~= parts);
    }
}

/// Putting the pieces of a text together with the `sep` that it was cut at
/// gives the text back, and none of the pieces holds a `sep`.
pub proof fn lemma_join_split(s: Seq<u8>, sep: u8)
    ensures
        join(split(s, sep), sep) == s,
        forall|k: int| 0 <= k < split(s, sep).len() ==> free_of(#[trigger] split(s, sep)[k], sep),
    decreases s.len(),
{
    lemma_first_index(s, sep);
    lemma_split_first(s, sep);
    let i = first_index(s, sep) as int;
    let parts = split(s, sep);
    if i < s.len() {
        let rest = s.skip(i + 1);
        lemma_join_split(rest, sep);
        lemma_split_first(rest, sep);
        assert(parts.skip(1) =~= split(rest, sep));
        assert(parts[0] == s.take(i));
        assert(join(parts, sep) =~= s);
        assert forall|k: int| 0 <= k < parts.len() implies free_of(#[trigger] parts[k], sep) by {
            if k > 0 {
                assert(parts[k] == split(rest, sep)[k - 1]);
            }
        }
    }
}

/// A text put together with `sep` from pieces that are not empty and hold no
/// `sep` is not empty, neither begins nor ends with `sep`, and has no two
/// `sep` in a row.
pub proof fn lemma_join_shape(parts: Seq<Seq<u8>>, sep: u8)
    requires
        parts.len() >= 1,
        forall|k: int| 0 <= k < parts.len() ==> free_of(#[trigger] parts[k], sep) && parts[k].len() > 0,
    ensures
        join(parts, sep).len() > 0,
        join(parts, sep)[0] != sep,
        join(parts, sep).last() != sep,
        forall|j: int|
            0 <= j && j + 1 < join(parts, sep).len() ==> !(#[trigger] join(parts, sep)[j] == sep
                && join(parts, sep)[j + 1] == sep),
    decreases parts.len(),
{
    let whole = join(parts, sep);
    let head = parts[0];
    assert(free_of(head, sep) && head.len() > 0);
    assert(head[0] != sep);
    assert(head[head.len() - 1] != sep);
    if parts.len() > 1 {
        let rest = parts.skip(1);
        assert forall|k: int| 0 <= k < rest.len() implies free_of(#[trigger] rest[k], sep)
            && rest[k].len() > 0 by {
            assert(rest[k] == parts[k + 1]);
        }
        lemma_join_shape(rest, sep);
        let tail = join(rest, sep);
        let i = head.len() as int;
        assert(whole == head + seq![sep] + tail);
        assert(whole[0] == head[0]);
        assert(whole.last() == tail.last());
        assert forall|j: int| 0 <= j && j + 1 < whole.len() implies !(#[trigger] whole[j] == sep
            && whole[j + 1] == sep) by {
            if j < i {
                assert(whole[j] == head[j]);
            } else if j == i {
                assert(whole[j + 1] == tail[0]);
            } else {
                assert(whole[j] == tail[j - i - 1]);
                assert(whole[j + 1] == tail[j - i]);
            }
        }
    }
}

/// Putting one more piece at the end of a list adds a `sep` and the piece to
/// the text, or the piece alone if the list was empty.
pub proof fn lemma_join_push(parts: Seq<Seq<u8>>, piece: Seq<u8>, sep: u8)
    ensures
        join(parts.push(piece), sep) == (if parts.len() == 0 {
            piece
        } else {
            join(parts, sep) + seq![sep] + piece
        }),
    decreases parts.len(),
{
    let more = parts.push(piece);
    if parts.len() == 0 {
        assert(more[0] == piece);
    } else if parts.len() == 1 {
        assert(more.skip(1) =~= seq![piece]);
        assert(more.skip(1)[0] == piece);
        assert(join(more.skip(1), sep) == piece);
        assert(more[0] == parts[0]);
    } else {
        lemma_join_push(parts.skip(1), piece, sep);
        assert(more.skip(1) =~= parts.skip(1).push(piece));
        assert(more[0] == parts[0]);
        assert(join(more, sep) =~= join(parts, sep) + seq![sep] + piece);
    }
}

/// A text put together with `sep` holds no `other` if none of the pieces
/// does and `other` is not `sep`.
pub proof fn lemma_join_free_of(parts: Seq<Seq<u8>>, sep: u8, other: u8)
    requires
        other != sep,
        forall|k: int| 0 <= k < parts.len() ==> free_of(#[trigger] parts[k], other),
    ensures
        free_of(join(parts, sep), other),
    decreases parts.len(),
{
    let whole = join(parts, sep);
    if parts.len() == 1 {
        assert(free_of(parts[0], other));
    } else if parts.len() > 1 {
        let head = parts[0];
        let rest = parts.skip(1);
        assert(free_of(head, other));
        assert forall|k: int| 0 <= k < rest.len() implies free_of(#[trigger] rest[k], other) by {
            assert(rest[k] == parts[k + 1]);
        }
        lemma_join_free_of(rest, sep, other);
        let tail = join(rest, sep);
        let i = head.len() as int;
        assert forall|j: int| 0 <= j < whole.len() implies #[trigger] whole[j] != other by {
            if j < i {
                assert(whole[j] == head[j]);
            } else if j > i {
                assert(whole[j] == tail[j - i - 1]);
            }
        }
    }
}

/// The index of the first `sep` in `s`, or the length of `s`.
pub fn find(s: &[u8], sep: u8) -> (r: usize)
    ensures
        r == first_index(s@, sep),
        r <= s.len(),
        r < s.len() ==> s@[r as int] == sep,
        free_of(s@.take(r as int), sep),
{
    let mut i: usize = 0;
    while i < s.len() && s[i] != sep
        invariant
            i <= s.len(),
            forall|j: int| 0 <= j < i ==> #[trigger] s@[j] != sep,
        decreases s.len() - i,
    {
        i = i + 1;
    }
    proof {
        lemma_first_index_at(s@, sep, i as int);
    }
    i
}

/// The index of the first place in `s` where two `sep` follow each other, or
/// the length of `s`.
pub fn find_pair(s: &[u8], sep: u8) -> (r: usize)
    ensures
        r == first_pair(s@, sep),
        r <= s.len(),
        r < s.len() ==> r + 1 < s.len(),
{
    let n = s.len();
    if n < 2 {
        proof {
            lemma_first_pair_at(s@, sep, n as int);
        }
        return n;
    }
    let mut i: usize = 0;
    while i < n - 1 && !(s[i] == sep && s[i + 1] == sep)
        invariant
            n == s.len(),
            n >= 2,
            i <= n - 1,
            forall|j: int| 0 <= j < i && j + 1 < n ==> !(#[trigger] s@[j] == sep && s@[j + 1] == sep),
        decreases n - i,
    {
        i = i + 1;
    }
    if i < n - 1 {
        proof {
            lemma_first_pair_at(s@, sep, i as int);
        }
        i
    } else {
        proof {
            lemma_first_pair_at(s@, sep, n as int);
        }
        n
    }
}

} // verus!
