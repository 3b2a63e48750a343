//! The bit patterns that are prefix masks: some number of leading one-bits
//! followed only by zero-bits, over a block of bytes read most significant
//! byte first.

use vstd::prelude::*;

verus! {

/// The byte whose `k` most significant bits are set and whose other bits are
/// clear; `k` below 0 counts as 0 and above 8 as 8.
pub open spec fn mask_byte(k: int) -> u8 {
    if k <= 0 {
        0x00
    } else if k == 1 {
        0x80
    } else if k == 2 {
        0xC0
    } else if k == 3 {
        0xE0
    } else if k == 4 {
        0xF0
    } else if k == 5 {
        0xF8
    } else if k == 6 {
        0xFC
    } else if k == 7 {
        0xFE
    } else {
        0xFF
    }
}

/// The block of `n` bytes whose first `len` bits are set and whose other bits
/// are clear. A `len` beyond the block's width sets every bit.
pub open spec fn prefix_mask(len: nat, n: nat) -> Seq<u8> {
    Seq::new(n, |i: int| mask_byte(len - 8 * i))
}

/// The number of one-bits in a byte.
pub open spec fn byte_ones(b: u8) -> nat {
    (b % 2 + b / 2 % 2 + b / 4 % 2 + b / 8 % 2 + b / 16 % 2 + b / 32 % 2 + b / 64 % 2 + b / 128) as nat
}

/// The number of zero-bits below the least significant one-bit of a byte; 8
/// for the zero byte.
pub open spec fn byte_trailing_zeros(b: u8) -> nat {
    if b % 2 != 0 {
        0
    } else if b % 4 != 0 {
        1
    } else if b % 8 != 0 {
        2
    } else if b % 16 != 0 {
        3
    } else if b % 32 != 0 {
        4
    } else if b % 64 != 0 {
        5
    } else if b % 128 != 0 {
        6
    } else if b != 0 {
        7
    } else {
        8
    }
}

/// The number of one-bits in a block.
pub open spec fn count_ones(s: Seq<u8>) -> nat
    decreases s.len(),
{
    if s.len() == 0 {
        0
    } else {
        count_ones(s.drop_last()) + byte_ones(s.last())
    }
}

/// The number of zero-bits after the last one-bit of a block, the last byte
/// being the least significant; the block's width in bits if no bit is set.
pub open spec fn trailing_zeros(s: Seq<u8>) -> nat
    decreases s.len(),
{
    if s.len() == 0 {
        0
    } else if s.last() != 0 {
        byte_trailing_zeros(s.last())
    } else {
        8 + trailing_zeros(s.drop_last())
    }
}

/// A block is a prefix mask when its one-bits and its trailing zero-bits
/// together fill its width: no zero-bit stands before a one-bit.
pub open spec fn is_prefix_mask(s: Seq<u8>) -> bool {
    count_ones(s) + trailing_zeros(s) == 8 * s.len()
}

/// The smaller of two numbers.
pub open spec fn min_nat(a: nat, b: nat) -> nat {
    if a <= b {
        a
    } else {
        b
    }
}

/// What the two bit counts say of a single byte: together they are at most
/// 8, and they are 8 exactly for the nine bytes whose one-bits all stand
/// before their zero-bits.
pub proof fn lemma_byte_counts(b: u8)
    ensures
        byte_ones(b) <= 8,
        byte_ones(b) + byte_trailing_zeros(b) <= 8,
        byte_ones(b) == 8 <==> b == 0xFF,
        byte_ones(b) == 0 <==> b == 0,
        byte_ones(b) + byte_trailing_zeros(b) == 8 <==> b == mask_byte(byte_ones(b) as int),
{
    let ones = byte_ones(b) as u8;
    let zeros = byte_trailing_zeros(b) as u8;
    assert({
        &&& ones <= 8
        &&& ones + zeros <= 8
        &&& (ones == 8 <==> b == 0xFF)
        &&& (ones == 0 <==> b == 0x00)
        &&& (ones + zeros == 8 <==> b == 0x00 || b == 0x80 || b == 0xC0 || b == 0xE0 || b == 0xF0
            || b == 0xF8 || b == 0xFC || b == 0xFE || b == 0xFF)
        &&& (b == 0x80 ==> ones == 1)
        &&& (b == 0xC0 ==> ones == 2)
        &&& (b == 0xE0 ==> ones == 3)
        &&& (b == 0xF0 ==> ones == 4)
        &&& (b == 0xF8 ==> ones == 5)
        &&& (b == 0xFC ==> ones == 6)
        &&& (b == 0xFE ==> ones == 7)
    }) by (bit_vector)
        requires
            ones == (b % 2 + b / 2 % 2 + b / 4 % 2 + b / 8 % 2 + b / 16 % 2 + b / 32 % 2 + b / 64
                % 2 + b / 128) as u8,
            zeros == (if b % 2 != 0 {
                0u8
            } else if b % 4 != 0 {
                1u8
            } else if b % 8 != 0 {
                2u8
            } else if b % 16 != 0 {
                3u8
            } else if b % 32 != 0 {
                4u8
            } else if b % 64 != 0 {
                5u8
            } else if b % 128 != 0 {
                6u8
            } else if b != 0 {
                7u8
            } else {
                8u8
            }),
    ;
}

/// The two bit counts of the byte with `k` leading one-bits.
pub proof fn lemma_mask_byte_counts(k: int)
    ensures
        k <= 0 ==> byte_ones(mask_byte(k)) == 0 && byte_trailing_zeros(mask_byte(k)) == 8,
        0 <= k <= 8 ==> byte_ones(mask_byte(k)) == k && byte_trailing_zeros(mask_byte(k)) == 8 - k,
        k >= 8 ==> byte_ones(mask_byte(k)) == 8 && byte_trailing_zeros(mask_byte(k)) == 0,
        mask_byte(k) == 0 <==> k <= 0,
        mask_byte(k) == 0xFF <==> k >= 8,
{
}

/// A block of `n` bytes has at most `8 * n` one-bits.
pub proof fn lemma_count_ones_bound(s: Seq<u8>)
    ensures
        count_ones(s) <= 8 * s.len(),
    decreases s.len(),
{
    if s.len() > 0 {
        lemma_count_ones_bound(s.drop_last());
        lemma_byte_counts(s.last());
    }
}

/// A block in which every bit is set consists of `0xFF` bytes only.
pub proof fn lemma_all_ones(s: Seq<u8>)
    requires
        count_ones(s) == 8 * s.len(),
    ensures
        forall|i: int| 0 <= i < s.len() ==> s[i] == 0xFF,
    decreases s.len(),
{
    if s.len() > 0 {
        let t = s.drop_last();
        lemma_count_ones_bound(t);
        lemma_byte_counts(s.last());
        lemma_all_ones(t);
        assert forall|i: int| 0 <= i < s.len() implies s[i] == 0xFF by {
            if i < t.len() {
                assert(s[i] == t[i]);
            }
        }
    }
}

/// The block with `len` leading one-bits has that many one-bits, and all the
/// rest of its width in trailing zero-bits.
pub proof fn lemma_prefix_mask_counts(len: nat, n: nat)
    ensures
        count_ones(prefix_mask(len, n)) == min_nat(len, 8 * n),
        trailing_zeros(prefix_mask(len, n)) == 8 * n - min_nat(len, 8 * n),
        is_prefix_mask(prefix_mask(len, n)),
    decreases n,
{
    let s = prefix_mask(len, n);
    if n > 0 {
        lemma_prefix_mask_counts(len, (n - 1) as nat);
        assert(s.drop_last() =~= prefix_mask(len, (n - 1) as nat));
        assert(s.last() == mask_byte(len - 8 * (n - 1)));
        lemma_mask_byte_counts(len - 8 * (n - 1));
    }
}

/// A prefix mask is the block with as many leading one-bits as it has one-bits
/// in all.
pub proof fn lemma_prefix_mask_shape(s: Seq<u8>)
    requires
        is_prefix_mask(s),
    ensures
        s == prefix_mask(count_ones(s), s.len()),
        count_ones(s) <= 8 * s.len(),
    decreases s.len(),
{
    lemma_count_ones_bound(s);
    if s.len() > 0 {
        let t = s.drop_last();
        let b = s.last();
        lemma_count_ones_bound(t);
        lemma_byte_counts(b);
        let want = prefix_mask(count_ones(s), s.len());
        if b == 0 {
            lemma_prefix_mask_shape(t);
            assert forall|i: int| 0 <= i < s.len() implies s[i] == want[i] by {
                if i < t.len() {
                    assert(s[i] == t[i]);
                }
            }
        } else {
            lemma_all_ones(t);
            assert forall|i: int| 0 <= i < s.len() implies s[i] == want[i] by {
                if i < t.len() {
                    assert(s[i] == t[i]);
                }
            }
        }
        assert(s =~= want);
    } else {
        assert(s =~= prefix_mask(count_ones(s), s.len()));
    }
}

/// The byte with `k` leading one-bits, for `k` up to 8; `0xFF` beyond.
pub fn mask_byte_of(k: usize) -> (r: u8)
    ensures
        r == mask_byte(k as int),
{
    if k == 0 {
        0x00
    } else if k == 1 {
        0x80
    } else if k == 2 {
        0xC0
    } else if k == 3 {
        0xE0
    } else if k == 4 {
        0xF0
    } else if k == 5 {
        0xF8
    } else if k == 6 {
        0xFC
    } else if k == 7 {
        0xFE
    } else {
        0xFF
    }
}

/// The array of `N` bytes with `len` leading one-bits.
pub fn prefix_array<const N: usize>(len: usize) -> (r: [u8; N])
    requires
        N <= 32,
    ensures
        r@ == prefix_mask(len as nat, N as nat),
{
    let mut out: [u8; N] = [0u8; N];
    let mut i: usize = 0;
    while i < N
        invariant
            i <= N <= 32,
            forall|j: int| 0 <= j < i ==> out@[j] == mask_byte(len - 8 * j),
        decreases N - i,
    {
        let covered: usize = 8 * i;
        out[i] = if len <= covered {
            0x00
        } else {
            mask_byte_of(len - covered)
        };
        i = i + 1;
    }
    assert(out@ =~= prefix_mask(len as nat, N as nat));
    out
}

/// The number of one-bits in a byte.
pub fn ones_in_byte(b: u8) -> (r: usize)
    ensures
        r == byte_ones(b),
{
    let sum: u8 = b % 2 + b / 2 % 2 + b / 4 % 2 + b / 8 % 2 + b / 16 % 2 + b / 32 % 2 + b / 64 % 2 + b
        / 128;
    sum as usize
}

/// The number of zero-bits below the least significant one-bit of a byte.
pub fn trailing_zeros_in_byte(b: u8) -> (r: usize)
    ensures
        r == byte_trailing_zeros(b),
{
    if b % 2 != 0 {
        0
    } else if b % 4 != 0 {
        1
    } else if b % 8 != 0 {
        2
    } else if b % 16 != 0 {
        3
    } else if b % 32 != 0 {
        4
    } else if b % 64 != 0 {
        5
    } else if b % 128 != 0 {
        6
    } else if b != 0 {
        7
    } else {
        8
    }
}

/// The number of one-bits in an array of bytes.
pub fn count_ones_in<const N: usize>(bytes: &[u8; N]) -> (r: usize)
    requires
        N <= 32,
    ensures
        r == count_ones(bytes@),
        r <= 8 * N,
{
    let mut total: usize = 0;
    let mut i: usize = 0;
    while i < N
        invariant
            i <= N <= 32,
            total == count_ones(bytes@.take(i as int)),
            total <= 8 * i,
        decreases N - i,
    {
        proof {
            assert(bytes@.take(i + 1).drop_last() =~= bytes@.take(i as int));
            lemma_byte_counts(bytes@[i as int]);
        }
        total = total + ones_in_byte(bytes[i]);
        i = i + 1;
    }
    assert(bytes@.take(N as int) =~= bytes@);
    total
}

/// The number of zero-bits after the last one-bit of an array of bytes.
pub fn trailing_zeros_in<const N: usize>(bytes: &[u8; N]) -> (r: usize)
    requires
        N <= 32,
    ensures
        r == trailing_zeros(bytes@),
        r <= 8 * N,
{
    let mut i: usize = N;
    assert(bytes@.take(N as int) =~= bytes@);
    while i > 0 && bytes[i - 1] == 0
        invariant
            i <= N <= 32,
            trailing_zeros(bytes@) == 8 * (N - i) + trailing_zeros(bytes@.take(i as int)),
        decreases i,
    {
        proof {
            assert(bytes@.take(i as int).drop_last() =~= bytes@.take(i - 1));
        }
        i = i - 1;
    }
    if i == 0 {
        8 * N
    } else {
        proof {
            lemma_byte_counts(bytes@[i - 1]);
        }
        8 * (N - i) + trailing_zeros_in_byte(bytes[i - 1])
    }
}

/// Whether an array of bytes is a prefix mask.
pub fn is_prefix_array<const N: usize>(bytes: &[u8; N]) -> (r: bool)
    requires
        N <= 32,
    ensures
        r == is_prefix_mask(bytes@),
{
    count_ones_in(bytes) + trailing_zeros_in(bytes) == 8 * N
}

} // verus!
