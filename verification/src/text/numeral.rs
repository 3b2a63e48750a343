//! Numerals in text: decimal numbers, as in an IPv4 octet or a prefix length,
//! and hexadecimal numbers, as in an IPv6 segment. A text is a sequence of
//! ASCII bytes.

use vstd::prelude::*;
use vstd::slice::slice_subrange;

verus! {

/// Whether a byte is one of the decimal digits `0` to `9`.
pub open spec fn is_digit(b: u8) -> bool {
    0x30 <= b <= 0x39
}

/// Whether a byte is a hexadecimal digit: `0` to `9`, `a` to `f` or `A` to
/// `F`.
pub open spec fn is_hex_digit(b: u8) -> bool {
    is_digit(b) || 0x61 <= b <= 0x66 || 0x41 <= b <= 0x46
}

/// The value of a hexadecimal digit, and so of a decimal one.
pub open spec fn digit_value(b: u8) -> nat {
    if 0x61 <= b {
        (b - 0x61 + 10) as nat
    } else if 0x41 <= b {
        (b - 0x41 + 10) as nat
    } else {
        (b - 0x30) as nat
    }
}

/// The lower-case digit for a value below 16.
pub open spec fn digit_of(v: nat) -> u8 {
    if v < 10 {
        (0x30 + v) as u8
    } else {
        (0x61 + v - 10) as u8
    }
}

/// Whether a byte is a hexadecimal digit as this library writes it: `0` to
/// `9` or `a` to `f`.
pub open spec fn is_lower_hex_digit(b: u8) -> bool {
    is_digit(b) || 0x61 <= b <= 0x66
}

/// Whether every byte of a text is a decimal digit.
pub open spec fn all_digits(s: Seq<u8>) -> bool {
    forall|i: int| 0 <= i < s.len() ==> is_digit(#[trigger] s[i])
}

/// Whether every byte of a text is a hexadecimal digit.
pub open spec fn all_hex_digits(s: Seq<u8>) -> bool {
    forall|i: int| 0 <= i < s.len() ==> is_hex_digit(#[trigger] s[i])
}

/// The number that a text of decimal digits denotes, the first digit being
/// the most significant.
pub open spec fn decimal_value(s: Seq<u8>) -> nat
    decreases s.len(),
{
    if s.len() == 0 {
        0
    } else {
        decimal_value(s.drop_last()) * 10 + digit_value(s.last())
    }
}

/// The number that a text of hexadecimal digits denotes, the first digit
/// being the most significant.
pub open spec fn hex_value(s: Seq<u8>) -> nat
    decreases s.len(),
{
    if s.len() == 0 {
        0
    } else {
        hex_value(s.drop_last()) * 16 + digit_value(s.last())
    }
}

/// The decimal text of a number: no leading zero, but `0` for zero.
pub open spec fn decimal_text(n: nat) -> Seq<u8>
    decreases n,
{
    if n < 10 {
        seq![digit_of(n)]
    } else {
        decimal_text(n / 10).push(digit_of(n % 10))
    }
}

/// The lower-case hexadecimal text of a number: no leading zero, but `0` for
/// zero.
pub open spec fn hex_text(n: nat) -> Seq<u8>
    decreases n,
{
    if n < 16 {
        seq![digit_of(n)]
    } else {
        hex_text(n / 16).push(digit_of(n % 16))
    }
}

/// The text of one IPv4 octet: one to three decimal digits, no leading zero
/// before another digit, and a value of at most 255.
pub open spec fn is_octet_text(s: Seq<u8>) -> bool {
    &&& 1 <= s.len() <= 3
    &&& all_digits(s)
    &&& (s.len() == 1 || s[0] != 0x30)
    &&& decimal_value(s) <= 255
}

/// The octet that a text denotes, if it is the text of an octet.
pub open spec fn octet_of_text(s: Seq<u8>) -> Option<u8> {
    if is_octet_text(s) {
        Some(decimal_value(s) as u8)
    } else {
        None
    }
}

/// The text of one IPv6 segment: one to four hexadecimal digits.
pub open spec fn is_segment_text(s: Seq<u8>) -> bool {
    1 <= s.len() <= 4 && all_hex_digits(s)
}

/// The segment that a text denotes, if it is the text of a segment.
pub open spec fn segment_of_text(s: Seq<u8>) -> Option<u16> {
    if is_segment_text(s) {
        Some(hex_value(s) as u16)
    } else {
        None
    }
}

/// The digits of a text of a small number: the text without a leading plus
/// sign, if it has one.
pub open spec fn unsigned_digits(s: Seq<u8>) -> Seq<u8> {
    if s.len() > 0 && s[0] == 0x2B {
        s.skip(1)
    } else {
        s
    }
}

/// The number below 256 that a text denotes: one or more decimal digits,
/// leading zeros among them or not, after at most one plus sign. `None` for
/// any other text and for a number of 256 or more.
pub open spec fn small_number_of_text(s: Seq<u8>) -> Option<u8> {
    let digits = unsigned_digits(s);
    if digits.len() > 0 && all_digits(digits) && decimal_value(digits) <= 255 {
        Some(decimal_value(digits) as u8)
    } else {
        None
    }
}

/// A text of at most three decimal digits denotes a number below 1000, and
/// one of at most four hexadecimal digits a number below 65536.
pub proof fn lemma_value_bounds(s: Seq<u8>)
    ensures
        all_digits(s) && s.len() <= 3 ==> decimal_value(s) < 1000,
        all_hex_digits(s) && s.len() <= 4 ==> hex_value(s) < 0x1_0000,
{
    reveal_with_fuel(decimal_value, 5);
    reveal_with_fuel(hex_value, 5);
    if s.len() > 0 {
        let s1 = s.drop_last();
        assert(s1.len() > 0 ==> s1.last() == s[s.len() - 2]);
        if s1.len() > 0 {
            let s2 = s1.drop_last();
            assert(s2.len() > 0 ==> s2.last() == s[s.len() - 3]);
            if s2.len() > 0 {
                let s3 = s2.drop_last();
                assert(s3.len() > 0 ==> s3.last() == s[s.len() - 4]);
            }
        }
    }
}

/// The value of a text of decimal digits is at least the value of any of its
/// beginnings.
pub proof fn lemma_decimal_value_grows(s: Seq<u8>, k: int)
    requires
        0 <= k <= s.len(),
    ensures
        decimal_value(s.take(k)) <= decimal_value(s),
    decreases s.len() - k,
{
    if k < s.len() {
        lemma_decimal_value_grows(s, k + 1);
        let t = s.take(k + 1);
        assert(t.drop_last() =~= s.take(k));
    } else {
        assert(s.take(k) =~= s);
    }
}

/// What holds of the decimal text of a number: it is not empty, it is made of
/// digits, it denotes the number, and it has no leading zero unless it is
/// `0`.
pub proof fn lemma_decimal_text(n: nat)
    ensures
        decimal_text(n).len() >= 1,
        all_digits(decimal_text(n)),
        decimal_value(decimal_text(n)) == n,
        decimal_text(n)[0] == 0x30 <==> n == 0,
        n < 10 ==> decimal_text(n).len() == 1,
        n < 100 ==> decimal_text(n).len() <= 2,
        n < 1000 ==> decimal_text(n).len() <= 3,
    decreases n,
{
    let t = decimal_text(n);
    if n < 10 {
        assert(t =~= seq![digit_of(n)]);
        assert(t.drop_last() =~= Seq::<u8>::empty());
        assert(decimal_value(t) == decimal_value(t.drop_last()) * 10 + digit_value(t.last()));
    } else {
        let tq = decimal_text(n / 10);
        lemma_decimal_text(n / 10);
        assert(t == tq.push(digit_of(n % 10)));
        assert(t.drop_last() =~= tq);
        assert(t[0] == tq[0]);
        assert forall|i: int| 0 <= i < t.len() implies is_digit(#[trigger] t[i]) by {
            if i < tq.len() {
                assert(t[i] == tq[i]);
            }
        }
    }
}

/// What holds of the hexadecimal text of a number: it is not empty, it is
/// made of hexadecimal digits, and it denotes the number.
pub proof fn lemma_hex_text(n: nat)
    ensures
        hex_text(n).len() >= 1,
        all_hex_digits(hex_text(n)),
        forall|i: int| 0 <= i < hex_text(n).len() ==> is_lower_hex_digit(#[trigger] hex_text(n)[i]),
        hex_value(hex_text(n)) == n,
        n < 0x10 ==> hex_text(n).len() == 1,
        n < 0x100 ==> hex_text(n).len() <= 2,
        n < 0x1000 ==> hex_text(n).len() <= 3,
        n < 0x1_0000 ==> hex_text(n).len() <= 4,
    decreases n,
{
    let t = hex_text(n);
    if n < 16 {
        assert(t =~= seq![digit_of(n)]);
        assert(t.drop_last() =~= Seq::<u8>::empty());
        assert(hex_value(t) == hex_value(t.drop_last()) * 16 + digit_value(t.last()));
    } else {
        let tq = hex_text(n / 16);
        lemma_hex_text(n / 16);
        assert(t == tq.push(digit_of(n % 16)));
        assert(t.drop_last() =~= tq);
        assert forall|i: int| 0 <= i < t.len() implies is_hex_digit(#[trigger] t[i]) by {
            if i < tq.len() {
                assert(t[i] == tq[i]);
            }
        }
        assert forall|i: int| 0 <= i < t.len() implies is_lower_hex_digit(#[trigger] t[i]) by {
            if i < tq.len() {
                assert(t[i] == tq[i]);
            }
        }
    }
}

/// The text of an octet is the decimal text of the number that it denotes:
/// an octet has one text only.
pub proof fn lemma_octet_text_is_canonical(s: Seq<u8>)
    requires
        is_octet_text(s),
    ensures
        decimal_text(decimal_value(s)) == s,
{
    reveal_with_fuel(decimal_value, 4);
    reveal_with_fuel(decimal_text, 3);
    assert(forall|i: int| 0 <= i < s.len() ==> is_digit(#[trigger] s[i]));
    let t = decimal_text(decimal_value(s));
    if s.len() == 1 {
        assert(s.drop_last() =~= Seq::<u8>::empty());
        assert(is_digit(s[0]));
        assert(t =~= s);
    } else if s.len() == 2 {
        let head = s.drop_last();
        assert(head.drop_last() =~= Seq::<u8>::empty());
        assert(head.last() == s[0]);
        assert(is_digit(s[0]) && is_digit(s[1]));
        assert(decimal_value(s) == digit_value(s[0]) * 10 + digit_value(s[1]));
        assert(t =~= s);
    } else {
        let head = s.drop_last();
        let first = head.drop_last();
        assert(first.drop_last() =~= Seq::<u8>::empty());
        assert(first.last() == s[0]);
        assert(head.last() == s[1]);
        assert(is_digit(s[0]) && is_digit(s[1]) && is_digit(s[2]));
        assert(decimal_value(s) == digit_value(s[0]) * 100 + digit_value(s[1]) * 10 + digit_value(
            s[2],
        ));
        assert(t =~= s);
    }
}

/// The decimal text of an octet is the text of that octet.
pub proof fn lemma_octet_text(b: u8)
    ensures
        octet_of_text(decimal_text(b as nat)) == Some(b),
        all_digits(decimal_text(b as nat)),
        decimal_text(b as nat).len() >= 1,
{
    lemma_decimal_text(b as nat);
}

/// The hexadecimal text of a segment is the text of that segment.
pub proof fn lemma_segment_text(g: u16)
    ensures
        segment_of_text(hex_text(g as nat)) == Some(g),
        all_hex_digits(hex_text(g as nat)),
        hex_text(g as nat).len() >= 1,
{
    lemma_hex_text(g as nat);
}

/// The decimal text of a number below 256 denotes that number.
pub proof fn lemma_small_number_text(n: u8)
    ensures
        small_number_of_text(decimal_text(n as nat)) == Some(n),
{
    lemma_decimal_text(n as nat);
    let t = decimal_text(n as nat);
    assert(is_digit(t[0]));
    assert(unsigned_digits(t) == t);
}

/// Reads the text of one IPv4 octet.
pub fn parse_octet(s: &[u8]) -> (r: Option<u8>)
    ensures
        r == octet_of_text(s@),
{
    let n = s.len();
    if n == 0 || n > 3 {
        return None;
    }
    if n > 1 && s[0] == 0x30 {
        return None;
    }
    let mut acc: u16 = 0;
    let mut i: usize = 0;
    assert(s@.take(0) =~= Seq::<u8>::empty());
    while i < n
        invariant
            i <= n,
            n == s.len(),
            1 <= n <= 3,
            acc == decimal_value(s@.take(i as int)),
            all_digits(s@.take(i as int)),
        decreases n - i,
    {
        let b = s[i];
        if b < 0x30 || b > 0x39 {
            assert(!is_digit(s@[i as int]));
            return None;
        }
        proof {
            let next = s@.take(i + 1);
            assert(next.drop_last() =~= s@.take(i as int));
            assert forall|j: int| 0 <= j < next.len() implies is_digit(#[trigger] next[j]) by {
                if j < i {
                    assert(next[j] == s@.take(i as int)[j]);
                }
            }
            lemma_value_bounds(s@.take(i as int));
        }
        acc = acc * 10 + (b - 0x30) as u16;
        i = i + 1;
    }
    assert(s@.take(n as int) =~= s@);
    if acc > 255 {
        None
    } else {
        Some(acc as u8)
    }
}

/// The value of a hexadecimal digit, if the byte is one.
pub fn hex_digit(b: u8) -> (r: Option<u8>)
    ensures
        r is Some <==> is_hex_digit(b),
        r matches Some(v) ==> v == digit_value(b) && v < 16,
{
    if 0x30 <= b && b <= 0x39 {
        Some(b - 0x30)
    } else if 0x61 <= b && b <= 0x66 {
        Some(b - 0x61 + 10)
    } else if 0x41 <= b && b <= 0x46 {
        Some(b - 0x41 + 10)
    } else {
        None
    }
}

/// Reads the text of one IPv6 segment.
pub fn parse_segment(s: &[u8]) -> (r: Option<u16>)
    ensures
        r == segment_of_text(s@),
{
    let n = s.len();
    if n == 0 || n > 4 {
        return None;
    }
    let mut acc: u32 = 0;
    let mut i: usize = 0;
    assert(s@.take(0) =~= Seq::<u8>::empty());
    while i < n
        invariant
            i <= n,
            n == s.len(),
            1 <= n <= 4,
            acc == hex_value(s@.take(i as int)),
            all_hex_digits(s@.take(i as int)),
        decreases n - i,
    {
        let v = match hex_digit(s[i]) {
            Some(v) => v,
            None => {
                assert(!is_hex_digit(s@[i as int]));
                return None;
            },
        };
        proof {
            let next = s@.take(i + 1);
            assert(next.drop_last() =~= s@.take(i as int));
            assert forall|j: int| 0 <= j < next.len() implies is_hex_digit(#[trigger] next[j]) by {
                if j < i {
                    assert(next[j] == s@.take(i as int)[j]);
                }
            }
            lemma_value_bounds(s@.take(i as int));
        }
        acc = acc * 16 + v as u32;
        i = i + 1;
    }
    assert(s@.take(n as int) =~= s@);
    proof {
        lemma_value_bounds(s@);
    }
    Some(acc as u16)
}

/// Reads a number below 256: decimal digits after at most one plus sign.
pub fn parse_small_number(s: &[u8]) -> (r: Option<u8>)
    ensures
        r == small_number_of_text(s@),
{
    let digits = if s.len() > 0 && s[0] == 0x2B {
        slice_subrange(s, 1, s.len())
    } else {
        s
    };
    assert(digits@ == unsigned_digits(s@));
    let n = digits.len();
    if n == 0 {
        return None;
    }
    let mut acc: u16 = 0;
    let mut i: usize = 0;
    assert(digits@.take(0) =~= Seq::<u8>::empty());
    while i < n
        invariant
            i <= n,
            n == digits.len(),
            digits@ == unsigned_digits(s@),
            acc == decimal_value(digits@.take(i as int)),
            acc <= 255,
            all_digits(digits@.take(i as int)),
        decreases n - i,
    {
        let b = digits[i];
        if b < 0x30 || b > 0x39 {
            assert(!is_digit(digits@[i as int]));
            return None;
        }
        proof {
            let next = digits@.take(i + 1);
            assert(next.drop_last() =~= digits@.take(i as int));
            assert forall|j: int| 0 <= j < next.len() implies is_digit(#[trigger] next[j]) by {
                if j < i {
                    assert(next[j] == digits@.take(i as int)[j]);
                }
            }
            lemma_decimal_value_grows(digits@, i + 1);
        }
        acc = acc * 10 + (b - 0x30) as u16;
        if acc > 255 {
            return None;
        }
        i = i + 1;
    }
    assert(digits@.take(n as int) =~= digits@);
    Some(acc as u8)
}

/// The lower-case digit for a value below 16.
pub fn digit_for(v: u8) -> (r: u8)
    requires
        v < 16,
    ensures
        r == digit_of(v as nat),
{
    if v < 10 {
        0x30 + v
    } else {
        0x61 + (v - 10)
    }
}

/// Writes the decimal text of a number below 256 at the end of `out`.
pub fn write_decimal(out: &mut Vec<u8>, n: u8)
    ensures
        final(out)@ == old(out)@ + decimal_text(n as nat),
{
    proof {
        reveal_with_fuel(decimal_text, 3);
    }
    if n >= 100 {
        out.push(digit_for(n / 100));
        out.push(digit_for(n / 10 % 10));
        out.push(digit_for(n % 10));
        assert((n / 10) as nat / 10 == n / 100);
    } else if n >= 10 {
        out.push(digit_for(n / 10));
        out.push(digit_for(n % 10));
    } else {
        out.push(digit_for(n));
    }
    assert(final(out)@ =~= old(out)@ + decimal_text(n as nat));
}

/// Writes the lower-case hexadecimal text of a number below 65536 at the end
/// of `out`.
pub fn write_hex(out: &mut Vec<u8>, n: u16)
    ensures
        final(out)@ == old(out)@ + hex_text(n as nat),
{
    proof {
        reveal_with_fuel(hex_text, 4);
    }
    if n >= 0x1000 {
        out.push(digit_for((n / 0x1000) as u8));
        out.push(digit_for((n / 0x100 % 16) as u8));
        out.push(digit_for((n / 0x10 % 16) as u8));
        out.push(digit_for((n % 16) as u8));
        assert((n / 16) as nat / 16 == n / 0x100);
        assert((n / 16) as nat / 16 / 16 == n / 0x1000);
    } else if n >= 0x100 {
        out.push(digit_for((n / 0x100) as u8));
        out.push(digit_for((n / 0x10 % 16) as u8));
        out.push(digit_for((n % 16) as u8));
        assert((n / 16) as nat / 16 == n / 0x100);
    } else if n >= 0x10 {
        out.push(digit_for((n / 0x10) as u8));
        out.push(digit_for((n % 16) as u8));
    } else {
        out.push(digit_for(n as u8));
    }
    assert(final(out)@ =~= old(out)@ + hex_text(n as nat));
}

} // verus!
