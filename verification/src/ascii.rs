//! ASCII text held as bytes: case folding, hexadecimal digits, and the step
//! from bytes to a `String`.

use vstd::prelude::*;
use vstd::utf8::{
    char_is_scalar, decode_utf8, encode_scalar, encode_utf8, encode_utf8_decode_utf8,
    encode_utf8_valid_utf8, has_width_1_encoding,
    is_ascii_chars, is_ascii_chars_encode_utf8, valid_utf8,
};

verus! {

/// Whether every byte is an ASCII character.
pub open spec fn is_ascii_bytes(bytes: Seq<u8>) -> bool {
    forall|i: int| 0 <= i < bytes.len() ==> #[trigger] bytes[i] < 128
}

/// The characters that ASCII bytes spell.
pub open spec fn ascii_chars(bytes: Seq<u8>) -> Seq<char> {
    Seq::new(bytes.len(), |i: int| bytes[i] as char)
}

/// A lower-case ASCII letter becomes its capital; any other byte stays.
pub open spec fn upper_byte(b: u8) -> u8 {
    if 0x61 <= b <= 0x7a {
        (b - 0x20) as u8
    } else {
        b
    }
}

/// A capital ASCII letter becomes its lower-case form; any other byte stays.
pub open spec fn lower_byte(b: u8) -> u8 {
    if 0x41 <= b <= 0x5a {
        (b + 0x20) as u8
    } else {
        b
    }
}

/// `text` with its ASCII letters in upper case.
pub open spec fn ascii_upper(text: Seq<u8>) -> Seq<u8> {
    Seq::new(text.len(), |i: int| upper_byte(text[i]))
}

/// `text` with its ASCII letters in lower case.
pub open spec fn ascii_lower(text: Seq<u8>) -> Seq<u8> {
    Seq::new(text.len(), |i: int| lower_byte(text[i]))
}

/// A lower-case ASCII letter becomes its capital; any other character stays.
pub open spec fn upper_char(c: char) -> char {
    if 'a' <= c <= 'z' {
        ((c as u8) - 0x20) as char
    } else {
        c
    }
}

/// A capital ASCII letter becomes its lower-case form; any other character stays.
pub open spec fn lower_char(c: char) -> char {
    if 'A' <= c <= 'Z' {
        ((c as u8) + 0x20) as char
    } else {
        c
    }
}

/// `text` with its ASCII letters in upper case, as `to_ascii_uppercase` of
/// std gives it.
pub open spec fn text_upper(text: Seq<char>) -> Seq<char> {
    Seq::new(text.len(), |i: int| upper_char(text[i]))
}

/// `text` with its ASCII letters in lower case, as `to_ascii_lowercase` of
/// std gives it.
pub open spec fn text_lower(text: Seq<char>) -> Seq<char> {
    Seq::new(text.len(), |i: int| lower_char(text[i]))
}

/// Whether two texts differ at most in the case of their ASCII letters.
pub open spec fn same_text_ignoring_case(a: Seq<char>, b: Seq<char>) -> bool {
    &&& a.len() == b.len()
    &&& forall|i: int| 0 <= i < a.len() ==> upper_char(#[trigger] a[i]) == upper_char(b[i])
}

/// Folding a text changes it at most in the case of its letters.
pub proof fn lemma_folded_text_is_same(text: Seq<char>)
    ensures
        same_text_ignoring_case(text_upper(text), text),
        same_text_ignoring_case(text_lower(text), text),
{
}

/// Folding the bytes of one character is encoding the folded character: a
/// character beyond ASCII has no byte below 128.
proof fn lemma_upper_char_bytes(c: char)
    ensures
        encode_scalar(upper_char(c) as u32) == ascii_upper(encode_scalar(c as u32)),
{
    let s = c as u32;
    let u = upper_char(c) as u32;
    char_is_scalar(c);
    if has_width_1_encoding(s) {
        assert((s & 0x7F) as u8 == s as u8) by (bit_vector)
            requires
                s <= 0x7F,
        ;
        assert((u & 0x7F) as u8 == u as u8) by (bit_vector)
            requires
                u <= 0x7F,
        ;
        assert(ascii_upper(encode_scalar(s)) =~= encode_scalar(u));
    } else {
        assert(0xC0u8 | ((s >> 6) & 0x1F) as u8 >= 0x80) by (bit_vector);
        assert(0xE0u8 | ((s >> 12) & 0x0F) as u8 >= 0x80) by (bit_vector);
        assert(0xF0u8 | ((s >> 18) & 0x7) as u8 >= 0x80) by (bit_vector);
        assert(0x80u8 | (s & 0x3F) as u8 >= 0x80) by (bit_vector);
        assert(0x80u8 | ((s >> 6) & 0x3F) as u8 >= 0x80) by (bit_vector);
        assert(0x80u8 | ((s >> 12) & 0x3F) as u8 >= 0x80) by (bit_vector);
        assert(ascii_upper(encode_scalar(s)) =~= encode_scalar(s));
    }
}

/// Folding a text to upper case folds its UTF-8 bytes, and nothing else.
pub proof fn lemma_text_upper_bytes(text: Seq<char>)
    ensures
        encode_utf8(text_upper(text)) == ascii_upper(encode_utf8(text)),
    decreases text.len(),
{
    if text.len() == 0 {
        assert(text_upper(text) =~= Seq::<char>::empty());
        assert(ascii_upper(encode_utf8(text)) =~= Seq::<u8>::empty());
    } else {
        let rest = text.drop_first();
        let head = encode_scalar(text[0] as u32);
        lemma_text_upper_bytes(rest);
        lemma_upper_char_bytes(text[0]);
        assert(text_upper(text).drop_first() =~= text_upper(rest));
        assert(ascii_upper(head + encode_utf8(rest)) =~= ascii_upper(head) + ascii_upper(
            encode_utf8(rest),
        ));
    }
}

/// Texts that differ only in case have UTF-8 bytes that differ only in case.
pub proof fn lemma_same_text_same_bytes(a: Seq<char>, b: Seq<char>)
    requires
        same_text_ignoring_case(a, b),
    ensures
        ascii_upper(encode_utf8(a)) == ascii_upper(encode_utf8(b)),
{
    assert(text_upper(a) =~= text_upper(b));
    lemma_text_upper_bytes(a);
    lemma_text_upper_bytes(b);
}

/// ASCII bytes are valid UTF-8 for the characters they spell.
pub proof fn lemma_ascii_bytes_are_text(bytes: Seq<u8>)
    requires
        is_ascii_bytes(bytes),
    ensures
        valid_utf8(bytes),
        decode_utf8(bytes) == ascii_chars(bytes),
        encode_utf8(ascii_chars(bytes)) == bytes,
{
    let chars = ascii_chars(bytes);
    assert(is_ascii_chars(chars)) by {
        assert forall|i: int| 0 <= i < chars.len() implies '\0' <= #[trigger] chars[i]
            <= '\u{7f}' by {
            assert(bytes[i] < 128);
        }
    }
    is_ascii_chars_encode_utf8(chars);
    assert(encode_utf8(chars) =~= bytes) by {
        assert forall|i: int| 0 <= i < bytes.len() implies encode_utf8(chars)[i] == bytes[i] by {
            assert(chars[i] as u8 == encode_utf8(chars)[i]);
            assert(bytes[i] < 128);
        }
    }
    encode_utf8_valid_utf8(chars);
    encode_utf8_decode_utf8(chars);
}

/// `String::from_utf8` of std: the string that `bytes` spell in UTF-8, and
/// none exactly when they are not valid UTF-8.
#[verifier::external_body]
pub(crate) fn text_from_utf8(bytes: Vec<u8>) -> (text: Option<String>)
    ensures
        text is Some <==> valid_utf8(bytes@),
        text is Some ==> text->Some_0@ == decode_utf8(bytes@),
{
    String::from_utf8(bytes).ok()
}

/// The string that ASCII bytes spell.
pub fn ascii_string(bytes: Vec<u8>) -> (text: String)
    requires
        is_ascii_bytes(bytes@),
    ensures
        text@ == ascii_chars(bytes@),
        encode_utf8(text@) == bytes@,
{
    proof {
        lemma_ascii_bytes_are_text(bytes@);
    }
    match text_from_utf8(bytes) {
        Some(text) => text,
        None => vstd::pervasive::unreached(),
    }
}

/// Copies `text` with its ASCII letters in upper case.
pub fn to_ascii_upper(text: &[u8]) -> (folded: Vec<u8>)
    ensures
        folded@ == ascii_upper(text@),
{
    let mut folded: Vec<u8> = Vec::new();
    let mut i: usize = 0;
    while i < text.len()
        invariant
            i <= text@.len(),
            folded@ == ascii_upper(text@.subrange(0, i as int)),
        decreases text@.len() - i,
    {
        let b = text[i];
        let up: u8 = if 0x61 <= b && b <= 0x7a {
            b - 0x20
        } else {
            b
        };
        folded.push(up);
        i += 1;
        assert(folded@ =~= ascii_upper(text@.subrange(0, i as int)));
    }
    assert(text@.subrange(0, i as int) =~= text@);
    folded
}

/// Copies `text` with its ASCII letters in lower case.
pub fn to_ascii_lower(text: &[u8]) -> (folded: Vec<u8>)
    ensures
        folded@ == ascii_lower(text@),
{
    let mut folded: Vec<u8> = Vec::new();
    let mut i: usize = 0;
    while i < text.len()
        invariant
            i <= text@.len(),
            folded@ == ascii_lower(text@.subrange(0, i as int)),
        decreases text@.len() - i,
    {
        let b = text[i];
        let low: u8 = if 0x41 <= b && b <= 0x5a {
            b + 0x20
        } else {
            b
        };
        folded.push(low);
        i += 1;
        assert(folded@ =~= ascii_lower(text@.subrange(0, i as int)));
    }
    assert(text@.subrange(0, i as int) =~= text@);
    folded
}

/// The lower-case hexadecimal digit for a value below sixteen.
pub open spec fn hex_digit(n: int) -> u8 {
    if n < 10 {
        (0x30 + n) as u8
    } else {
        (0x57 + n) as u8
    }
}

/// Two lower-case hexadecimal digits for each byte, the high half first.
pub open spec fn hex_lower(bytes: Seq<u8>) -> Seq<u8> {
    Seq::new(
        2 * bytes.len(),
        |i: int|
            if i % 2 == 0 {
                hex_digit(bytes[i / 2] as int / 16)
            } else {
                hex_digit(bytes[i / 2] as int % 16)
            },
    )
}

/// Hexadecimal digits are ASCII.
pub proof fn lemma_hex_is_ascii(bytes: Seq<u8>)
    ensures
        is_ascii_bytes(hex_lower(bytes)),
{
}

/// Writes `bytes` as lower-case hexadecimal digits.
pub fn to_hex_lower(bytes: &[u8]) -> (digits: Vec<u8>)
    ensures
        digits@ == hex_lower(bytes@),
{
    let mut digits: Vec<u8> = Vec::new();
    let mut i: usize = 0;
    while i < bytes.len()
        invariant
            i <= bytes@.len(),
            digits@ == hex_lower(bytes@.subrange(0, i as int)),
        decreases bytes@.len() - i,
    {
        let b = bytes[i];
        let high: u8 = b / 16;
        let low: u8 = b % 16;
        digits.push(if high < 10 { 0x30 + high } else { 0x57 + high });
        digits.push(if low < 10 { 0x30 + low } else { 0x57 + low });
        i += 1;
        assert(digits@ =~= hex_lower(bytes@.subrange(0, i as int)));
    }
    assert(bytes@.subrange(0, i as int) =~= bytes@);
    digits
}

} // verus!
