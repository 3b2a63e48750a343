//! The bytes that the notations are written with, and the step from a text
//! of such bytes to a `String`.

use crate::text::numeral::{is_digit, is_lower_hex_digit};
use crate::text::pieces::free_of;
use vstd::prelude::*;
use vstd::string::StringExecFns;
use vstd::utf8::{encode_utf8, is_ascii_chars, is_ascii_chars_encode_utf8};

verus! {

/// Whether a byte is one that the notations are written with: a decimal
/// digit, one of the letters `a` to `f`, a dot, a colon, a slash or a space.
pub open spec fn is_notation_byte(b: u8) -> bool {
    is_digit(b) || 0x61 <= b <= 0x66 || b == 0x2E || b == 0x3A || b == 0x2F || b == 0x20
}

/// Whether a text is written with notation bytes only.
pub open spec fn all_notation(s: Seq<u8>) -> bool {
    forall|i: int| 0 <= i < s.len() ==> is_notation_byte(#[trigger] s[i])
}

/// Whether a byte is one that addresses are written with: a decimal digit,
/// one of the letters `a` to `f`, a dot or a colon.
pub open spec fn is_address_byte(b: u8) -> bool {
    is_lower_hex_digit(b) || b == 0x2E || b == 0x3A
}

/// Whether a text is written with address bytes only.
pub open spec fn all_address(s: Seq<u8>) -> bool {
    forall|i: int| 0 <= i < s.len() ==> is_address_byte(#[trigger] s[i])
}

/// The characters of a text of ASCII bytes.
pub open spec fn chars_of(s: Seq<u8>) -> Seq<char> {
    Seq::new(s.len(), |i: int| s[i] as char)
}

/// The characters of a text of notation bytes are encoded, in a `String`, as
/// the very bytes of the text.
pub proof fn lemma_bytes_of_chars(s: Seq<u8>)
    requires
        all_notation(s),
    ensures
        is_ascii_chars(chars_of(s)),
        encode_utf8(chars_of(s)) == s,
{
    let chars = chars_of(s);
    assert forall|i: int| 0 <= i < chars.len() implies '\0' <= #[trigger] chars[i] <= '\u{7f}' by {
        assert(is_notation_byte(s[i]));
    }
    is_ascii_chars_encode_utf8(chars);
    assert forall|i: int| 0 <= i < s.len() implies encode_utf8(chars)[i] == s[i] by {
        assert(is_notation_byte(s[i]));
        assert(chars[i] as u8 == s[i]);
    }
    assert(encode_utf8(chars) =~= s);
}

/// Two texts of notation bytes put together are a text of notation bytes.
pub proof fn lemma_all_notation_concat(a: Seq<u8>, b: Seq<u8>)
    requires
        all_notation(a),
        all_notation(b),
    ensures
        all_notation(a + b),
{
    assert forall|i: int| 0 <= i < (a + b).len() implies is_notation_byte(#[trigger] (a + b)[i]) by {
        if i < a.len() {
            assert((a + b)[i] == a[i]);
        } else {
            assert((a + b)[i] == b[i - a.len()]);
        }
    }
}

/// Two texts of address bytes put together are a text of address bytes.
pub proof fn lemma_all_address_concat(a: Seq<u8>, b: Seq<u8>)
    requires
        all_address(a),
        all_address(b),
    ensures
        all_address(a + b),
{
    assert forall|i: int| 0 <= i < (a + b).len() implies is_address_byte(#[trigger] (a + b)[i]) by {
        if i < a.len() {
            assert((a + b)[i] == a[i]);
        } else {
            assert((a + b)[i] == b[i - a.len()]);
        }
    }
}

/// A text of address bytes is a text of notation bytes, and holds no slash
/// and no space.
pub proof fn lemma_address_bytes(s: Seq<u8>)
    requires
        all_address(s),
    ensures
        all_notation(s),
        free_of(s, 0x2F),
        free_of(s, 0x20),
{
    assert forall|i: int| 0 <= i < s.len() implies is_notation_byte(#[trigger] s[i]) && s[i] != 0x2F
        && s[i] != 0x20 by {
        assert(is_address_byte(s[i]));
    }
}

/// Writes one notation byte, as a character, at the end of `out`.
fn push_byte(out: &mut String, b: u8)
    requires
        is_notation_byte(b),
    ensures
        final(out)@ == old(out)@.push(b as char),
{
    if b == 0x30 {
        proof {
            reveal_strlit("0");
        }
        out.append("0");
    } else if b == 0x31 {
        proof {
            reveal_strlit("1");
        }
        out.append("1");
    } else if b == 0x32 {
        proof {
            reveal_strlit("2");
        }
        out.append("2");
    } else if b == 0x33 {
        proof {
            reveal_strlit("3");
        }
        out.append("3");
    } else if b == 0x34 {
        proof {
            reveal_strlit("4");
        }
        out.append("4");
    } else if b == 0x35 {
        proof {
            reveal_strlit("5");
        }
        out.append("5");
    } else if b == 0x36 {
        proof {
            reveal_strlit("6");
        }
        out.append("6");
    } else if b == 0x37 {
        proof {
            reveal_strlit("7");
        }
        out.append("7");
    } else if b == 0x38 {
        proof {
            reveal_strlit("8");
        }
        out.append("8");
    } else if b == 0x39 {
        proof {
            reveal_strlit("9");
        }
        out.append("9");
    } else if b == 0x61 {
        proof {
            reveal_strlit("a");
        }
        out.append("a");
    } else if b == 0x62 {
        proof {
            reveal_strlit("b");
        }
        out.append("b");
    } else if b == 0x63 {
        proof {
            reveal_strlit("c");
        }
        out.append("c");
    } else if b == 0x64 {
        proof {
            reveal_strlit("d");
        }
        out.append("d");
    } else if b == 0x65 {
        proof {
            reveal_strlit("e");
        }
        out.append("e");
    } else if b == 0x66 {
        proof {
            reveal_strlit("f");
        }
        out.append("f");
    } else if b == 0x2E {
        proof {
            reveal_strlit(".");
        }
        out.append(".");
    } else if b == 0x3A {
        proof {
            reveal_strlit(":");
        }
        out.append(":");
    } else if b == 0x2F {
        proof {
            reveal_strlit("/");
        }
        out.append("/");
    } else {
        proof {
            reveal_strlit(" ");
        }
        out.append(" ");
    }
    assert(final(out)@ =~= old(out)@.push(b as char));
}

/// The `String` that holds a text of notation bytes.
pub fn string_of(bytes: &Vec<u8>) -> (r: String)
    requires
        all_notation(bytes@),
    ensures
        r@ == chars_of(bytes@),
{
    let mut out = String::new();
    let mut i: usize = 0;
    while i < bytes.len()
        invariant
            i <= bytes.len(),
            all_notation(bytes@),
            out@ == chars_of(bytes@.take(i as int)),
        decreases bytes.len() - i,
    {
        assert(is_notation_byte(bytes@[i as int]));
        push_byte(&mut out, bytes[i]);
        assert(out@ =~= chars_of(bytes@.take(i + 1)));
        i = i + 1;
    }
    assert(bytes@.take(bytes.len() as int) =~= bytes@);
    out
}

} // verus!
