//! The session credential as it is embedded in a ticket value: decoded from
//! its percent-encoding, freed of line feeds and trimmed.

use vstd::prelude::*;
use vstd::utf8::{
    char_u32_cast, encode_scalar, encode_utf8, encode_utf8_decode_utf8,
    encode_utf8_first_scalar, encode_utf8_valid_utf8,
};
use crate::text::{
    decoded_text, is_whitespace, lemma_trim_end_shape, lemma_trim_start_shape, push_chars, to_chars, trim,
    trim_range, trim_start,
};

verus! {

/// Whether `b` is an ASCII hexadecimal digit: one of `0` to `9`, `A` to `F`
/// and `a` to `f`.
pub open spec fn is_hex_digit(b: u8) -> bool {
    (0x30 <= b <= 0x39) || (0x41 <= b <= 0x46) || (0x61 <= b <= 0x66)
}

/// The number that the hexadecimal digit `b` stands for.
pub open spec fn hex_digit_value(b: u8) -> int {
    if 0x30 <= b <= 0x39 {
        b - 0x30
    } else if 0x41 <= b <= 0x46 {
        b - 0x41 + 10
    } else {
        b - 0x61 + 10
    }
}

/// Percent-decoding on bytes: a `%`, the byte `0x25`, followed by two
/// hexadecimal digits becomes the byte that they spell; every other byte, a
/// `%` that no two such digits follow too, stands for itself.
pub open spec fn percent_decoded_bytes(bytes: Seq<u8>) -> Seq<u8>
    decreases bytes.len(),
{
    if bytes.len() == 0 {
        bytes
    } else if bytes[0] == 0x25 && bytes.len() >= 3 && is_hex_digit(bytes[1]) && is_hex_digit(
        bytes[2],
    ) {
        seq![(16 * hex_digit_value(bytes[1]) + hex_digit_value(bytes[2])) as u8]
            + percent_decoded_bytes(bytes.skip(3))
    } else {
        seq![bytes[0]] + percent_decoded_bytes(bytes.skip(1))
    }
}

/// Percent-decoding on text: the UTF-8 bytes of `text` are decoded and read
/// as UTF-8 again; there is no result where they are no valid UTF-8.
pub open spec fn percent_decoded(text: Seq<char>) -> Option<Seq<char>> {
    decoded_text(percent_decoded_bytes(encode_utf8(text)))
}

/// `s` without its line feeds.
pub open spec fn without_newlines(s: Seq<char>) -> Seq<char>
    decreases s.len(),
{
    if s.len() == 0 {
        s
    } else if s.last() == '\n' {
        without_newlines(s.drop_last())
    } else {
        without_newlines(s.drop_last()).push(s.last())
    }
}

/// What is embedded for a credential, given the outcome of decoding it: the
/// decoded text without line feeds, trimmed; nothing where decoding failed.
pub open spec fn cleaned_credential(decoded: Option<Seq<char>>) -> Seq<char> {
    match decoded {
        Some(d) => trim(without_newlines(d)),
        None => Seq::empty(),
    }
}

/// What is embedded for the credential `raw` as the request carried it.
pub open spec fn embedded_credential(raw: Seq<char>) -> Seq<char> {
    cleaned_credential(percent_decoded(raw))
}

/// [`without_newlines`] keeps no line feed.
pub proof fn lemma_without_newlines(s: Seq<char>)
    ensures
        forall|i: int| 0 <= i < without_newlines(s).len() ==> #[trigger] without_newlines(s)[i]
            != '\n',
        without_newlines(s).len() <= s.len(),
    decreases s.len(),
{
    if s.len() > 0 {
        lemma_without_newlines(s.drop_last());
    }
}

/// An embedded credential holds no line feed and neither begins nor ends
/// with whitespace, whatever was decoded.
pub proof fn law_cleaned_credential(decoded: Option<Seq<char>>)
    ensures
        forall|i: int|
            0 <= i < cleaned_credential(decoded).len() ==> #[trigger] cleaned_credential(
                decoded,
            )[i] != '\n',
        cleaned_credential(decoded).len() > 0 ==> !is_whitespace(
            cleaned_credential(decoded).first(),
        ) && !is_whitespace(cleaned_credential(decoded).last()),
{
    if let Some(d) = decoded {
        let w = without_newlines(d);
        lemma_without_newlines(d);
        lemma_trim_start_shape(w);
        lemma_trim_end_shape(trim_start(w));
    }
}

/// The UTF-8 bytes of a text hold the byte of `%` only where the text holds
/// a `%`.
proof fn lemma_encoding_without_percent(s: Seq<char>)
    requires
        forall|i: int| 0 <= i < s.len() ==> #[trigger] s[i] != '%',
    ensures
        forall|j: int| 0 <= j < encode_utf8(s).len() ==> #[trigger] encode_utf8(s)[j] != 0x25,
    decreases s.len(),
{
    if s.len() > 0 {
        let bytes = encode_utf8(s);
        let head = encode_scalar(s[0] as u32);
        let rest = encode_utf8(s.drop_first());
        encode_utf8_first_scalar(s);
        lemma_encoding_without_percent(s.drop_first());
        assert forall|j: int| 0 <= j < bytes.len() implies #[trigger] bytes[j] != 0x25 by {
            if j < head.len() && head.len() == 1 && bytes[0] == 0x25 {
                assert(0x25u8 & 0x7f == 0x25u8) by (bit_vector);
                char_u32_cast(s[0], 0x25u32);
                char_u32_cast('%', 0x25u32);
            }
        }
    }
}

/// Bytes without the byte of `%` decode to themselves.
proof fn lemma_decoding_without_percent(bytes: Seq<u8>)
    requires
        forall|j: int| 0 <= j < bytes.len() ==> #[trigger] bytes[j] != 0x25,
    ensures
        percent_decoded_bytes(bytes) == bytes,
    decreases bytes.len(),
{
    if bytes.len() > 0 {
        lemma_decoding_without_percent(bytes.skip(1));
    }
}

/// A credential without `%` decodes to itself, so what is embedded for it is
/// the credential without line feeds, trimmed.
pub proof fn law_plain_credential(raw: Seq<char>)
    requires
        forall|i: int| 0 <= i < raw.len() ==> #[trigger] raw[i] != '%',
    ensures
        percent_decoded(raw) == Some(raw),
        embedded_credential(raw) == trim(without_newlines(raw)),
{
    lemma_encoding_without_percent(raw);
    lemma_decoding_without_percent(encode_utf8(raw));
    encode_utf8_valid_utf8(raw);
    encode_utf8_decode_utf8(raw);
}

/// Decodes the percent-encoding of `text`.
///
/// Trusted: this is `urlencoding::decode`. It works on the UTF-8 bytes of the
/// text, replaces each `%` that two hexadecimal digits follow by the byte they
/// spell and copies every other byte, and succeeds exactly when the bytes it
/// arrives at are valid UTF-8, with the text that they encode.
#[verifier::external_body]
fn percent_decode(text: &str) -> (r: Option<String>)
    ensures
        r matches Some(s) ==> percent_decoded(text@) == Some(s@),
        r is None ==> percent_decoded(text@) is None,
{
    match urlencoding::decode(text) {
        Ok(decoded) => Some(decoded.into_owned()),
        Err(_) => None,
    }
}

/// Removes the line feeds of `chars`.
fn strip_newlines(chars: &[char]) -> (kept: Vec<char>)
    ensures
        kept@ == without_newlines(chars@),
{
    let mut kept: Vec<char> = Vec::new();
    let mut i: usize = 0;
    while i < chars.len()
        invariant
            i <= chars@.len(),
            kept@ == without_newlines(chars@.take(i as int)),
        decreases chars@.len() - i,
    {
        assert(chars@.take(i + 1).drop_last() =~= chars@.take(i as int));
        if chars[i] != '\n' {
            kept.push(chars[i]);
        }
        i = i + 1;
    }
    assert(chars@.take(i as int) =~= chars@);
    kept
}

/// What is embedded for a credential, given the outcome of decoding it.
pub fn clean_credential(decoded: Option<&str>) -> (clean: String)
    ensures
        clean@ == cleaned_credential(
            match decoded {
                Some(d) => Some(d@),
                None => None,
            },
        ),
{
    match decoded {
        Some(d) => {
            let chars = to_chars(d);
            let kept = strip_newlines(chars.as_slice());
            let (from, to) = trim_range(kept.as_slice(), 0, kept.len());
            assert(kept@.subrange(0, kept@.len() as int) =~= kept@);
            let mut clean = String::new();
            push_chars(&mut clean, kept.as_slice(), from, to);
            clean
        },
        None => String::new(),
    }
}

/// What is embedded for the credential `raw` as the request carried it: a
/// credential that cannot be decoded is embedded as the empty text.
pub fn embed_credential(raw: &str) -> (clean: String)
    ensures
        clean@ == embedded_credential(raw@),
{
    match percent_decode(raw) {
        Some(decoded) => clean_credential(Some(decoded.as_str())),
        None => clean_credential(None),
    }
}

} // verus!
