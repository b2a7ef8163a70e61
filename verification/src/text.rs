//! String helpers: comparison, case folding, trimming and hex codecs.

use vstd::prelude::*;
use vstd::string::StringSliceAdditionalSpecFns;

verus! {

/// `str::to_lowercase` of a string.
pub uninterp spec fn lowercase_output(s: Seq<char>) -> Seq<char>;

/// A character with the Unicode `White_Space` property, as
/// `char::is_whitespace` tests it.
pub open spec fn is_unicode_whitespace(c: char) -> bool {
    ||| '\t' <= c <= '\r'
    ||| c == ' '
    ||| c == '\u{85}'
    ||| c == '\u{a0}'
    ||| c == '\u{1680}'
    ||| '\u{2000}' <= c <= '\u{200a}'
    ||| c == '\u{2028}'
    ||| c == '\u{2029}'
    ||| c == '\u{202f}'
    ||| c == '\u{205f}'
    ||| c == '\u{3000}'
}

/// `s` without its leading whitespace.
pub open spec fn trim_start_ws(s: Seq<char>) -> Seq<char>
    decreases s.len(),
{
    if s.len() > 0 && is_unicode_whitespace(s[0]) {
        trim_start_ws(s.drop_first())
    } else {
        s
    }
}

/// `s` without its trailing whitespace.
pub open spec fn trim_end_ws(s: Seq<char>) -> Seq<char>
    decreases s.len(),
{
    if s.len() > 0 && is_unicode_whitespace(s.last()) {
        trim_end_ws(s.drop_last())
    } else {
        s
    }
}

/// `str::trim` of a string: leading and trailing whitespace removed.
pub open spec fn trim_output(s: Seq<char>) -> Seq<char> {
    trim_end_ws(trim_start_ws(s))
}

/// An ASCII character or a CJK unified ideograph (a script without case).
pub open spec fn ascii_or_cjk(c: char) -> bool {
    c <= '\u{7f}' || ('\u{4e00}' <= c <= '\u{9fff}')
}

/// ASCII uppercase letters lowered; every other character kept.
pub open spec fn ascii_lower(c: char) -> char {
    if 'A' <= c <= 'Z' {
        ((c as int) + 32) as char
    } else {
        c
    }
}

/// `str::to_lowercase`.  Claimed: the result is the named lowercase form,
/// and, as the documentation shows (ASCII letters are lowered, and text in
/// a script without case such as Chinese comes back unchanged), a string of
/// ASCII characters and CJK ideographs is lowered character by character
/// with only `A`-`Z` changed.
#[verifier::external_body]
pub(crate) fn to_lowercase(s: &str) -> (r: String)
    ensures
        r@ == lowercase_output(s@),
        (forall|i: int| 0 <= i < s@.len() ==> ascii_or_cjk(#[trigger] s@[i])) ==> r@ == s@.map_values(
            |c: char| ascii_lower(c),
        ),
{
    s.to_lowercase()
}

/// `str::trim`.  Claimed, as its documentation states: the string with
/// leading and trailing whitespace (the `White_Space` property) removed.
#[verifier::external_body]
pub(crate) fn trim(s: &str) -> (r: &str)
    ensures
        r@ == trim_output(s@),
{
    s.trim()
}

/// Whether two strings are equal (compared through their UTF-8 bytes).
pub fn str_eq(a: &str, b: &str) -> (same: bool)
    ensures
        same == (a@ == b@),
{
    let same = crate::bytes::bytes_equal(a.as_bytes(), b.as_bytes());
    proof {
        vstd::utf8::encode_utf8_decode_utf8(a@);
        vstd::utf8::encode_utf8_decode_utf8(b@);
    }
    same
}

/// `s` with every leading `"0x"` removed (as `trim_start_matches("0x")`),
/// on UTF-8 bytes.
pub open spec fn strip_0x(s: Seq<u8>) -> Seq<u8>
    decreases s.len(),
{
    if s.len() >= 2 && s[0] == 48u8 && s[1] == 120u8 {
        strip_0x(s.subrange(2, s.len() as int))
    } else {
        s
    }
}

/// Lowercase hex digit for a value below 16.
pub open spec fn hex_digit(n: int) -> char {
    if n < 10 {
        (48 + n) as char
    } else {
        (87 + n) as char
    }
}

/// Lowercase hex encoding, two digits per byte (high nibble first).
pub open spec fn hex_encode_chars(data: Seq<u8>) -> Seq<char>
    decreases data.len(),
{
    if data.len() == 0 {
        Seq::empty()
    } else {
        seq![hex_digit(data[0] as int / 16), hex_digit(data[0] as int % 16)] + hex_encode_chars(
            data.drop_first(),
        )
    }
}

/// Value of an ASCII hex digit (either case).
pub open spec fn hex_value(c: u8) -> Option<int> {
    if 48 <= c && c <= 57 {
        Some(c - 48)
    } else if 97 <= c && c <= 102 {
        Some(c - 87)
    } else if 65 <= c && c <= 70 {
        Some(c - 55)
    } else {
        None
    }
}

/// Hex decoding of ASCII bytes: `None` for an odd length or a non-hex byte.
pub open spec fn hex_decode_bytes(s: Seq<u8>) -> Option<Seq<u8>>
    decreases s.len(),
{
    if s.len() % 2 == 1 {
        None
    } else if s.len() == 0 {
        Some(Seq::empty())
    } else {
        match (hex_value(s[0]), hex_value(s[1]), hex_decode_bytes(s.subrange(2, s.len() as int))) {
            (Some(h), Some(l), Some(rest)) => Some(seq![(h * 16 + l) as u8] + rest),
            _ => None,
        }
    }
}

#[verifier::external_type_specification]
#[verifier::external_body]
pub struct ExFromHexError(hex::FromHexError);

/// `hex::encode`.  Claimed (as the crate documents): lowercase hex, two
/// digits per byte.
#[verifier::external_body]
pub(crate) fn hex_encode(data: &[u8]) -> (s: String)
    ensures
        s@ == hex_encode_chars(data@),
{
    hex::encode(data)
}

/// `hex::decode` on bytes.  Claimed (as the crate documents): it succeeds
/// exactly on an even number of hex digits of either case, with the decoded
/// bytes.
#[verifier::external_body]
pub(crate) fn hex_decode(s: &[u8]) -> (r: Result<Vec<u8>, hex::FromHexError>)
    ensures
        match r {
            Ok(v) => hex_decode_bytes(s@) == Some(v@),
            Err(_) => hex_decode_bytes(s@) is None,
        },
{
    hex::decode(s)
}

/// `hex_decode` with the error dropped.
pub fn hex_decode_opt(s: &[u8]) -> (r: Option<Vec<u8>>)
    ensures
        match r {
            Some(v) => hex_decode_bytes(s@) == Some(v@),
            None => hex_decode_bytes(s@) is None,
        },
{
    match hex_decode(s) {
        Ok(v) => Some(v),
        Err(_) => None,
    }
}

/// Hex decoding of a string's UTF-8 bytes.
pub open spec fn hex_field(s: Seq<char>) -> Option<Seq<u8>> {
    hex_decode_bytes(vstd::utf8::encode_utf8(s))
}

/// `hex_decode` of a string's bytes, with the error dropped.
pub fn hex_decode_text(s: &str) -> (r: Option<Vec<u8>>)
    ensures
        match r {
            Some(v) => hex_field(s@) == Some(v@),
            None => hex_field(s@) is None,
        },
{
    hex_decode_opt(s.as_bytes())
}

/// Bytes of ASCII characters, one per character.
pub open spec fn ascii_bytes(s: Seq<char>) -> Seq<u8> {
    Seq::new(s.len(), |i: int| s[i] as u8)
}

proof fn lemma_hex_chars_ascii(d: Seq<u8>)
    ensures
        vstd::utf8::is_ascii_chars(hex_encode_chars(d)),
        hex_encode_chars(d).len() == 2 * d.len(),
    decreases d.len(),
{
    if d.len() > 0 {
        lemma_hex_chars_ascii(d.drop_first());
        let rest = hex_encode_chars(d.drop_first());
        let c = hex_encode_chars(d);
        assert forall|i: int| 0 <= i < c.len() implies '\0' <= #[trigger] c[i] <= '\u{7f}' by {
            if i >= 2 {
                assert(c[i] == rest[i - 2]);
            }
        }
    }
}

proof fn lemma_hex_digit_value(n: int)
    requires
        0 <= n < 16,
    ensures
        hex_value(hex_digit(n) as u8) == Some(n),
{
}

proof fn lemma_hex_decode_encode(d: Seq<u8>)
    ensures
        hex_decode_bytes(ascii_bytes(hex_encode_chars(d))) == Some(d),
    decreases d.len(),
{
    lemma_hex_chars_ascii(d);
    let b = ascii_bytes(hex_encode_chars(d));
    if d.len() == 0 {
        assert(b.len() == 0);
        assert(d =~= Seq::<u8>::empty());
    } else {
        lemma_hex_decode_encode(d.drop_first());
        lemma_hex_chars_ascii(d.drop_first());
        let hi = d[0] as int / 16;
        let lo = d[0] as int % 16;
        lemma_hex_digit_value(hi);
        lemma_hex_digit_value(lo);
        assert(b.subrange(2, b.len() as int) =~= ascii_bytes(hex_encode_chars(d.drop_first())));
        assert(b[0] == hex_digit(hi) as u8);
        assert(b[1] == hex_digit(lo) as u8);
        assert((hi * 16 + lo) as u8 == d[0]);
        assert(seq![d[0]] + d.drop_first() =~= d);
    }
}

/// Hex text decodes back to the bytes it encodes.
pub proof fn lemma_hex_field_roundtrip(d: Seq<u8>)
    ensures
        hex_field(hex_encode_chars(d)) == Some(d),
{
    lemma_hex_chars_ascii(d);
    let c = hex_encode_chars(d);
    vstd::utf8::is_ascii_chars_encode_utf8(c);
    assert(vstd::utf8::encode_utf8(c) =~= ascii_bytes(c));
    lemma_hex_decode_encode(d);
}

/// Removes every leading `"0x"` (`trim_start_matches("0x")`).
pub fn strip_hex_prefix(s: &[u8]) -> (r: &[u8])
    ensures
        r@ == strip_0x(s@),
{
    let mut cur = s;
    while cur.len() >= 2 && cur[0] == 48u8 && cur[1] == 120u8
        invariant
            strip_0x(cur@) == strip_0x(s@),
        decreases cur@.len(),
    {
        cur = vstd::slice::slice_subrange(cur, 2, cur.len());
    }
    cur
}

} // verus!
