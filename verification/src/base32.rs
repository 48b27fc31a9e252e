//! Base-32 text without padding, as RFC 4648 defines it, by way of the
//! `data_encoding` crate.

use vstd::prelude::*;
use vstd::utf8::{char_is_scalar, encode_scalar, encode_utf8, has_width_1_encoding};
use crate::ascii::{ascii_upper, upper_byte};

verus! {

/// The unpadded base-32 text of `bytes`, in capital letters, as ASCII bytes:
/// what `data_encoding::BASE32_NOPAD` encodes them to.
pub uninterp spec fn base32_text(bytes: Seq<u8>) -> Seq<u8>;

/// The bytes that `text` stands for in unpadded base 32, and none where
/// `data_encoding::BASE32_NOPAD` refuses to decode it.
pub uninterp spec fn base32_bytes(text: Seq<u8>) -> Option<Seq<u8>>;

/// Whether `b` is one of the 32 symbols: a capital letter or a digit from 2 to 7.
pub open spec fn is_base32_symbol(b: u8) -> bool {
    0x41 <= b <= 0x5a || 0x32 <= b <= 0x37
}

/// Whether `text` is made of base-32 symbols alone.
pub open spec fn is_base32_symbols(text: Seq<u8>) -> bool {
    forall|i: int| 0 <= i < text.len() ==> is_base32_symbol(#[trigger] text[i])
}

/// Whether `c` may stand in a token: a letter of either case or a digit from
/// 2 to 7.
pub open spec fn is_token_char(c: char) -> bool {
    ('a' <= c <= 'z') || ('A' <= c <= 'Z') || ('2' <= c <= '7')
}

/// Whether `text` is made of such characters alone.
pub open spec fn is_token_text(text: Seq<char>) -> bool {
    forall|i: int| 0 <= i < text.len() ==> is_token_char(#[trigger] text[i])
}

/// A character whose first byte folds to a symbol may stand in a token.
proof fn lemma_symbol_byte_from_token_char(c: char)
    requires
        is_base32_symbol(upper_byte(encode_scalar(c as u32)[0])),
    ensures
        is_token_char(c),
{
    let s = c as u32;
    char_is_scalar(c);
    if has_width_1_encoding(s) {
        assert((s & 0x7F) as u8 == s as u8) by (bit_vector)
            requires
                s <= 0x7F,
        ;
    } else {
        assert(0xC0u8 | ((s >> 6) & 0x1F) as u8 >= 0x80) by (bit_vector);
        assert(0xE0u8 | ((s >> 12) & 0x0F) as u8 >= 0x80) by (bit_vector);
        assert(0xF0u8 | ((s >> 18) & 0x7) as u8 >= 0x80) by (bit_vector);
    }
}

/// A text whose bytes fold to symbols alone is made of token characters:
/// a character beyond ASCII, or an ASCII character that is no letter and no
/// digit from 2 to 7, leaves a byte that is no symbol.
pub proof fn lemma_symbols_only_from_token_text(text: Seq<char>)
    requires
        is_base32_symbols(ascii_upper(encode_utf8(text))),
    ensures
        is_token_text(text),
    decreases text.len(),
{
    if text.len() > 0 {
        let head = encode_scalar(text[0] as u32);
        let rest = text.drop_first();
        let whole = ascii_upper(encode_utf8(text));
        let tail = ascii_upper(encode_utf8(rest));
        assert(encode_utf8(text) =~= head + encode_utf8(rest));
        assert(head.len() >= 1);
        assert(is_base32_symbol(whole[0]));
        lemma_symbol_byte_from_token_char(text[0]);
        assert forall|j: int| 0 <= j < tail.len() implies is_base32_symbol(#[trigger] tail[j]) by {
            assert(tail[j] == whole[head.len() + j]);
        }
        lemma_symbols_only_from_token_text(rest);
        assert forall|i: int| 0 <= i < text.len() implies is_token_char(#[trigger] text[i]) by {
            if i > 0 {
                assert(text[i] == rest[i - 1]);
            }
        }
    }
}

/// The longest input that the encoder takes in one call.
pub open spec fn max_encode_len() -> nat {
    (usize::MAX / 512) as nat
}

/// The longest text that the decoder takes in one call.
pub open spec fn max_decode_len() -> nat {
    (usize::MAX / 8) as nat
}

/// The number of symbols that stand for `n` bytes: one for every five bits,
/// the last one filled up.
pub open spec fn encoded_len(n: nat) -> nat {
    ((8 * n + 4) / 5) as nat
}

/// An error of `data_encoding`'s decoder: where and why it stopped.
#[verifier::external_type_specification]
#[verifier::external_body]
pub struct ExDecodeError(data_encoding::DecodeError);

/// `Encoding::encode` on `data_encoding::BASE32_NOPAD`. The crate documents
/// the alphabet as the capitals and the digits 2 to 7, without padding, and
/// that decoding an encoding gives the input back; its `encode_len` gives
/// the length of the text, one symbol for every five bits, rounded up. It
/// may panic on inputs longer than `usize::MAX / 512`, which `requires`
/// leaves out.
#[verifier::external_body]
pub(crate) fn base32_encode(bytes: &[u8]) -> (text: Vec<u8>)
    requires
        bytes@.len() <= max_encode_len(),
    ensures
        text@ == base32_text(bytes@),
        text@.len() == encoded_len(bytes@.len()),
        is_base32_symbols(text@),
        base32_bytes(text@) == Some(bytes@),
{
    data_encoding::BASE32_NOPAD.encode(bytes).into_bytes()
}

/// `Encoding::decode` on `data_encoding::BASE32_NOPAD`: the decoded bytes, or
/// the crate's error where the text is not unpadded base 32. The decoder
/// looks every character up among the 32 symbols and refuses the text at the
/// first that is none, so a text that it decodes is made of symbols alone.
/// It may panic on texts longer than `usize::MAX / 8`, which `requires`
/// leaves out.
#[verifier::external_body]
pub(crate) fn base32_decode(text: &[u8]) -> (r: Result<Vec<u8>, data_encoding::DecodeError>)
    requires
        text@.len() <= max_decode_len(),
    ensures
        match r {
            Ok(bytes) => base32_bytes(text@) == Some(bytes@),
            Err(_) => base32_bytes(text@) is None,
        },
        r is Ok ==> is_base32_symbols(text@),
{
    data_encoding::BASE32_NOPAD.decode(text)
}

} // verus!
