//! Bitwise algebra over fixed-width byte blocks in big-endian significance order.
//!
//! Every operation here is total: it is defined for all byte patterns. The
//! spec functions work on `Seq<u8>`; the executable functions work on arrays of
//! any width and are specified through the arrays' views.

use vstd::prelude::*;

verus! {

/// Bytewise AND of two blocks of the same width.
pub open spec fn and_seq(a: Seq<u8>, b: Seq<u8>) -> Seq<u8> {
    Seq::new(a.len(), |i: int| a[i] & b[i])
}

/// Bytewise OR of two blocks of the same width.
pub open spec fn or_seq(a: Seq<u8>, b: Seq<u8>) -> Seq<u8> {
    Seq::new(a.len(), |i: int| a[i] | b[i])
}

/// Bytewise XOR of two blocks of the same width.
pub open spec fn xor_seq(a: Seq<u8>, b: Seq<u8>) -> Seq<u8> {
    Seq::new(a.len(), |i: int| a[i] ^ b[i])
}

/// Bytewise complement of a block.
pub open spec fn not_seq(a: Seq<u8>) -> Seq<u8> {
    Seq::new(a.len(), |i: int| !a[i])
}

/// `256` to the power `n`.
pub open spec fn pow256(n: nat) -> nat
    decreases n,
{
    if n == 0 {
        1
    } else {
        256 * pow256((n - 1) as nat)
    }
}

/// The number that a block denotes when its first byte is the most significant.
pub open spec fn be_value(s: Seq<u8>) -> nat
    decreases s.len(),
{
    if s.len() == 0 {
        0
    } else {
        be_value(s.drop_last()) * 256 + s.last() as nat
    }
}

/// The `n` least significant bytes of `v`, most significant first.
pub open spec fn be_bytes(v: nat, n: nat) -> Seq<u8>
    decreases n,
{
    if n == 0 {
        Seq::empty()
    } else {
        be_bytes(v / 256, (n - 1) as nat).push((v % 256) as u8)
    }
}

/// The eight 16-bit segments of a 16-byte block, or in general one segment for
/// every two bytes, each read most significant byte first.
pub open spec fn segments_of(bytes: Seq<u8>) -> Seq<u16> {
    Seq::new(bytes.len() / 2, |i: int| (bytes[2 * i] as nat * 256 + bytes[2 * i + 1] as nat) as u16)
}

/// The bytes of a sequence of 16-bit segments, each written most significant
/// byte first.
pub open spec fn bytes_of_segments(segments: Seq<u16>) -> Seq<u8> {
    Seq::new(
        2 * segments.len(),
        |j: int|
            if j % 2 == 0 {
                (segments[j / 2] / 256) as u8
            } else {
                (segments[j / 2] % 256) as u8
            },
    )
}

/// The powers of 256 that the widths in use call for.
pub proof fn lemma_pow256_values()
    ensures
        pow256(0) == 1,
        pow256(1) == 0x100,
        pow256(2) == 0x1_0000,
        pow256(4) == 0x1_0000_0000,
        pow256(8) == 0x1_0000_0000_0000_0000,
        pow256(15) == 0x100_0000_0000_0000_0000_0000_0000_0000,
        pow256(16) == 0x1_0000_0000_0000_0000_0000_0000_0000_0000,
{
    reveal_with_fuel(pow256, 17);
}

/// `be_bytes` gives as many bytes as it is asked for.
pub proof fn lemma_be_bytes_len(v: nat, n: nat)
    ensures
        be_bytes(v, n).len() == n,
    decreases n,
{
    if n > 0 {
        lemma_be_bytes_len(v / 256, (n - 1) as nat);
    }
}

/// A block of `n` bytes denotes a number below `256` to the `n`.
pub proof fn lemma_be_value_bound(s: Seq<u8>)
    ensures
        be_value(s) < pow256(s.len()),
    decreases s.len(),
{
    if s.len() > 0 {
        lemma_be_value_bound(s.drop_last());
    }
}

/// Writing the number that a block denotes, at the block's width, gives the
/// block back.
pub proof fn lemma_be_bytes_of_value(s: Seq<u8>)
    ensures
        be_bytes(be_value(s), s.len()) == s,
    decreases s.len(),
{
    if s.len() > 0 {
        let t = s.drop_last();
        lemma_be_bytes_of_value(t);
        let v = be_value(s);
        assert(v / 256 == be_value(t));
        assert(v % 256 == s.last() as nat);
        assert(be_bytes(v, s.len()) =~= s);
    }
}

/// Reading back the `n` bytes written for a number below `256` to the `n`
/// gives the number.
pub proof fn lemma_be_value_of_bytes(v: nat, n: nat)
    requires
        v < pow256(n),
    ensures
        be_value(be_bytes(v, n)) == v,
    decreases n,
{
    if n > 0 {
        lemma_be_value_of_bytes(v / 256, (n - 1) as nat);
        let s = be_bytes(v, n);
        assert(s.drop_last() =~= be_bytes(v / 256, (n - 1) as nat));
    }
}

/// ANDing a block with a mask twice changes nothing more than ANDing it once,
/// and setting the bits outside the mask changes nothing under the mask.
pub proof fn lemma_and_absorbs(block: Seq<u8>, mask: Seq<u8>)
    requires
        block.len() == mask.len(),
    ensures
        and_seq(and_seq(block, mask), mask) == and_seq(block, mask),
        and_seq(or_seq(block, not_seq(mask)), mask) == and_seq(block, mask),
{
    assert forall|i: int| 0 <= i < block.len() implies #[trigger] and_seq(
        and_seq(block, mask),
        mask,
    )[i] == and_seq(block, mask)[i] && and_seq(or_seq(block, not_seq(mask)), mask)[i] == and_seq(
        block,
        mask,
    )[i] by {
        let a = block[i];
        let m = mask[i];
        assert((a & m) & m == a & m) by (bit_vector);
        assert((a | !m) & m == a & m) by (bit_vector);
    }
    assert(and_seq(and_seq(block, mask), mask) =~= and_seq(block, mask));
    assert(and_seq(or_seq(block, not_seq(mask)), mask) =~= and_seq(block, mask));
}

/// The number that the AND, OR or XOR of two blocks denotes is the AND, OR or
/// XOR of the numbers that the blocks denote: combining byte by byte and
/// combining as numbers come to the same.
pub proof fn lemma_value_of_combination(a: Seq<u8>, b: Seq<u8>)
    requires
        a.len() == b.len(),
        a.len() <= 16,
    ensures
        be_value(a) <= u128::MAX,
        be_value(b) <= u128::MAX,
        be_value(and_seq(a, b)) == (be_value(a) as u128) & (be_value(b) as u128),
        be_value(or_seq(a, b)) == (be_value(a) as u128) | (be_value(b) as u128),
        be_value(xor_seq(a, b)) == (be_value(a) as u128) ^ (be_value(b) as u128),
    decreases a.len(),
{
    lemma_be_value_bound(a);
    lemma_be_value_bound(b);
    lemma_pow256_monotonic(a.len(), 16);
    lemma_pow256_values();
    if a.len() > 0 {
        let a0 = a.drop_last();
        let b0 = b.drop_last();
        lemma_value_of_combination(a0, b0);
        lemma_be_value_bound(a0);
        lemma_be_value_bound(b0);
        lemma_pow256_monotonic(a0.len(), 15);
        assert(and_seq(a, b).drop_last() =~= and_seq(a0, b0));
        assert(or_seq(a, b).drop_last() =~= or_seq(a0, b0));
        assert(xor_seq(a, b).drop_last() =~= xor_seq(a0, b0));
        let x = be_value(a0) as u128;
        let y = be_value(b0) as u128;
        let p = a.last();
        let q = b.last();
        let va = be_value(a) as u128;
        let vb = be_value(b) as u128;
        let limit: u128 = 0x100_0000_0000_0000_0000_0000_0000_0000;
        assert({
            &&& va & vb == ((x & y) * 256 + (p & q) as u128) as u128
            &&& va | vb == ((x | y) * 256 + (p | q) as u128) as u128
            &&& va ^ vb == ((x ^ y) * 256 + (p ^ q) as u128) as u128
            &&& (x & y) < limit
            &&& (x | y) < limit
            &&& (x ^ y) < limit
        }) by (bit_vector)
            requires
                limit == 0x100_0000_0000_0000_0000_0000_0000_0000u128,
                x < limit,
                y < limit,
                va == (x * 256 + p as u128) as u128,
                vb == (y * 256 + q as u128) as u128,
        ;
    } else {
        assert(0u128 & 0u128 == 0u128 && 0u128 | 0u128 == 0u128 && 0u128 ^ 0u128 == 0u128) by (bit_vector);
    }
}

/// Combining four bytes with the four bytes of a number, byte by byte, is
/// combining the number that the bytes denote with that number.
pub proof fn lemma_value_of_combination_u32(a: Seq<u8>, x: u32)
    requires
        a.len() == 4,
    ensures
        be_value(a) <= u32::MAX,
        be_value(and_seq(a, be_bytes(x as nat, 4))) == (be_value(a) as u32) & x,
        be_value(or_seq(a, be_bytes(x as nat, 4))) == (be_value(a) as u32) | x,
        be_value(xor_seq(a, be_bytes(x as nat, 4))) == (be_value(a) as u32) ^ x,
{
    let b = be_bytes(x as nat, 4);
    lemma_pow256_values();
    lemma_be_bytes_len(x as nat, 4);
    lemma_be_value_of_bytes(x as nat, 4);
    lemma_be_value_bound(a);
    lemma_value_of_combination(a, b);
    let v = be_value(a) as u128;
    let w = x as u128;
    let v32 = be_value(a) as u32;
    assert({
        &&& v & w == (v32 & x) as u128
        &&& v | w == (v32 | x) as u128
        &&& v ^ w == (v32 ^ x) as u128
    }) by (bit_vector)
        requires
            v == v32 as u128,
            w == x as u128,
    ;
}

/// Combining sixteen bytes with the sixteen bytes of a number, byte by byte,
/// is combining the number that the bytes denote with that number.
pub proof fn lemma_value_of_combination_u128(a: Seq<u8>, x: u128)
    requires
        a.len() == 16,
    ensures
        be_value(a) <= u128::MAX,
        be_value(and_seq(a, be_bytes(x as nat, 16))) == (be_value(a) as u128) & x,
        be_value(or_seq(a, be_bytes(x as nat, 16))) == (be_value(a) as u128) | x,
        be_value(xor_seq(a, be_bytes(x as nat, 16))) == (be_value(a) as u128) ^ x,
{
    let b = be_bytes(x as nat, 16);
    lemma_pow256_values();
    lemma_be_bytes_len(x as nat, 16);
    lemma_be_value_of_bytes(x as nat, 16);
    lemma_value_of_combination(a, b);
}

/// The number that the complement of four bytes denotes is the complement of
/// the number that the bytes denote; and so for sixteen bytes.
pub proof fn lemma_value_of_complement_as_number(a: Seq<u8>)
    requires
        a.len() == 4 || a.len() == 16,
    ensures
        a.len() == 4 ==> be_value(a) <= u32::MAX && be_value(not_seq(a)) == !(be_value(a) as u32),
        a.len() == 16 ==> be_value(a) <= u128::MAX && be_value(not_seq(a)) == !(be_value(a) as u128),
{
    lemma_pow256_values();
    lemma_be_value_bound(a);
    lemma_value_of_complement(a);
    if a.len() == 4 {
        let v = be_value(a) as u32;
        assert(!v == 0xFFFF_FFFFu32 - v) by (bit_vector);
    } else {
        let v = be_value(a) as u128;
        assert(!v == 0xFFFF_FFFF_FFFF_FFFF_FFFF_FFFF_FFFF_FFFFu128 - v) by (bit_vector);
    }
}

/// The number that the complement of a block denotes is the greatest number
/// of the block's width less the number that the block denotes.
pub proof fn lemma_value_of_complement(a: Seq<u8>)
    ensures
        be_value(not_seq(a)) == pow256(a.len()) - 1 - be_value(a),
    decreases a.len(),
{
    if a.len() > 0 {
        let a0 = a.drop_last();
        lemma_value_of_complement(a0);
        assert(not_seq(a).drop_last() =~= not_seq(a0));
        let p = a.last();
        assert(!p == 255 - p) by (bit_vector);
    }
}

/// Reading a block of an even number of bytes as segments and writing the
/// segments out as bytes gives the block back.
pub proof fn lemma_bytes_of_segments_of(bytes: Seq<u8>)
    requires
        bytes.len() % 2 == 0,
    ensures
        bytes_of_segments(segments_of(bytes)) == bytes,
{
    let back = bytes_of_segments(segments_of(bytes));
    assert(back.len() == bytes.len());
    assert forall|j: int| 0 <= j < bytes.len() implies back[j] == bytes[j] by {
        let i = j / 2;
        assert(0 <= i < bytes.len() / 2);
        let g = segments_of(bytes)[i];
        assert(g == bytes[2 * i] as nat * 256 + bytes[2 * i + 1] as nat);
    }
    assert(back =~= bytes);
}

/// Writing segments out as bytes and reading the bytes as segments gives the
/// segments back.
pub proof fn lemma_segments_of_bytes_of(segments: Seq<u16>)
    ensures
        segments_of(bytes_of_segments(segments)) == segments,
{
    let b = bytes_of_segments(segments);
    let again = segments_of(b);
    assert(again.len() == segments.len());
    assert forall|i: int| 0 <= i < segments.len() implies again[i] == segments[i] by {
        assert((2 * i) % 2 == 0 && (2 * i) / 2 == i);
        assert((2 * i + 1) % 2 == 1 && (2 * i + 1) / 2 == i);
    }
    assert(again =~= segments);
}

/// Bytewise AND of two arrays of the same width.
pub fn and_bytes<const N: usize>(a: &[u8; N], b: &[u8; N]) -> (r: [u8; N])
    ensures
        r@ == and_seq(a@, b@),
{
    let mut out: [u8; N] = [0u8; N];
    let mut i: usize = 0;
    while i < N
        invariant
            i <= N,
            forall|j: int| 0 <= j < i ==> out@[j] == a@[j] & b@[j],
        decreases N - i,
    {
        out[i] = a[i] & b[i];
        i = i + 1;
    }
    assert(out@ =~= and_seq(a@, b@));
    out
}

/// Bytewise OR of two arrays of the same width.
pub fn or_bytes<const N: usize>(a: &[u8; N], b: &[u8; N]) -> (r: [u8; N])
    ensures
        r@ == or_seq(a@, b@),
{
    let mut out: [u8; N] = [0u8; N];
    let mut i: usize = 0;
    while i < N
        invariant
            i <= N,
            forall|j: int| 0 <= j < i ==> out@[j] == a@[j] | b@[j],
        decreases N - i,
    {
        out[i] = a[i] | b[i];
        i = i + 1;
    }
    assert(out@ =~= or_seq(a@, b@));
    out
}

/// Bytewise XOR of two arrays of the same width.
pub fn xor_bytes<const N: usize>(a: &[u8; N], b: &[u8; N]) -> (r: [u8; N])
    ensures
        r@ == xor_seq(a@, b@),
{
    let mut out: [u8; N] = [0u8; N];
    let mut i: usize = 0;
    while i < N
        invariant
            i <= N,
            forall|j: int| 0 <= j < i ==> out@[j] == a@[j] ^ b@[j],
        decreases N - i,
    {
        out[i] = a[i] ^ b[i];
        i = i + 1;
    }
    assert(out@ =~= xor_seq(a@, b@));
    out
}

/// Bytewise complement of an array.
pub fn not_bytes<const N: usize>(a: &[u8; N]) -> (r: [u8; N])
    ensures
        r@ == not_seq(a@),
{
    let mut out: [u8; N] = [0u8; N];
    let mut i: usize = 0;
    while i < N
        invariant
            i <= N,
            forall|j: int| 0 <= j < i ==> out@[j] == !a@[j],
        decreases N - i,
    {
        out[i] = !a[i];
        i = i + 1;
    }
    assert(out@ =~= not_seq(a@));
    out
}

/// Whether two arrays hold the same bytes.
pub fn eq_bytes<const N: usize>(a: &[u8; N], b: &[u8; N]) -> (r: bool)
    ensures
        r == (a@ == b@),
{
    let mut i: usize = 0;
    while i < N
        invariant
            i <= N,
            forall|j: int| 0 <= j < i ==> a@[j] == b@[j],
        decreases N - i,
    {
        if a[i] != b[i] {
            return false;
        }
        i = i + 1;
    }
    assert(a@ =~= b@);
    true
}

/// The number that an array of at most 16 bytes denotes, most significant
/// byte first.
pub fn value_of_bytes<const N: usize>(b: &[u8; N]) -> (r: u128)
    requires
        N <= 16,
    ensures
        r as nat == be_value(b@),
{
    let mut acc: u128 = 0;
    let mut i: usize = 0;
    while i < N
        invariant
            i <= N <= 16,
            acc as nat == be_value(b@.take(i as int)),
        decreases N - i,
    {
        proof {
            let next = b@.take(i + 1);
            assert(next.drop_last() =~= b@.take(i as int));
            lemma_be_value_bound(next);
            lemma_pow256_monotonic((i + 1) as nat, 16);
            lemma_pow256_values();
        }
        acc = acc * 256 + b[i] as u128;
        i = i + 1;
    }
    assert(b@.take(N as int) =~= b@);
    acc
}

/// The `N` least significant bytes of `x`, most significant first.
pub fn bytes_of_value<const N: usize>(x: u128) -> (r: [u8; N])
    ensures
        r@ == be_bytes(x as nat, N as nat),
{
    let mut out: [u8; N] = [0u8; N];
    let mut cur: u128 = x;
    let mut i: usize = 0;
    while i < N
        invariant
            i <= N,
            be_bytes(x as nat, N as nat) == be_bytes(cur as nat, (N - i) as nat) + out@.skip(
                N - i,
            ),
        decreases N - i,
    {
        let ghost before = out@;
        out[N - 1 - i] = (cur % 256) as u8;
        proof {
            let rest = be_bytes((cur / 256) as nat, (N - i - 1) as nat);
            lemma_be_bytes_len((cur / 256) as nat, (N - i - 1) as nat);
            assert(be_bytes(cur as nat, (N - i) as nat) == rest.push((cur % 256) as u8));
            assert(rest.push((cur % 256) as u8) + before.skip(N - i) =~= rest + out@.skip(
                N - i - 1,
            ));
        }
        cur = cur / 256;
        i = i + 1;
    }
    assert(be_bytes(cur as nat, 0) + out@.skip(0) =~= out@);
    out
}

/// A greater power of 256 is a greater number.
pub proof fn lemma_pow256_monotonic(m: nat, n: nat)
    requires
        m <= n,
    ensures
        pow256(m) <= pow256(n),
    decreases n,
{
    if m < n {
        lemma_pow256_monotonic(m, (n - 1) as nat);
    }
}

/// The 16-byte block of eight 16-bit segments.
pub fn bytes_of_segment_array(segments: &[u16; 8]) -> (r: [u8; 16])
    ensures
        r@ == bytes_of_segments(segments@),
{
    let mut out: [u8; 16] = [0u8; 16];
    let mut i: usize = 0;
    while i < 8
        invariant
            i <= 8,
            forall|j: int| 0 <= j < 2 * i ==> out@[j] == bytes_of_segments(segments@)[j],
        decreases 8 - i,
    {
        let g: u16 = segments[i];
        out[2 * i] = (g / 256) as u8;
        out[2 * i + 1] = (g % 256) as u8;
        proof {
            assert((2 * i) % 2 == 0 && (2 * i) / 2 == i);
            assert((2 * i + 1) % 2 == 1 && (2 * i + 1) / 2 == i);
        }
        i = i + 1;
    }
    assert(out@ =~= bytes_of_segments(segments@));
    out
}

/// The eight 16-bit segments of a 16-byte block.
pub fn segment_array_of_bytes(bytes: &[u8; 16]) -> (r: [u16; 8])
    ensures
        r@ == segments_of(bytes@),
{
    let mut out: [u16; 8] = [0u16; 8];
    let mut i: usize = 0;
    while i < 8
        invariant
            i <= 8,
            forall|j: int| 0 <= j < i ==> out@[j] == segments_of(bytes@)[j],
        decreases 8 - i,
    {
        out[i] = (bytes[2 * i] as u16) * 256 + bytes[2 * i + 1] as u16;
        i = i + 1;
    }
    assert(out@ =~= segments_of(bytes@));
    out
}

} // verus!
