//! The token generator: a timestamp and a signature over the caller's
//! address and that timestamp.
//!
//! The timestamp enters as text, the decimal rendering of the seconds since
//! the epoch. The signature covers that very text, so whoever verifies a
//! token can rebuild the signed message from the token and the address.

use vstd::prelude::*;
use vstd::utf8::encode_utf8;

use base64::prelude::{Engine, BASE64_STANDARD};
use hmac::{Hmac, Mac};
use sha2::Sha256;

verus! {

/// The HMAC-SHA256 tag of `message` under `key`.
pub uninterp spec fn hmac_sha256(key: Seq<u8>, message: Seq<u8>) -> Seq<u8>;

/// The sixty-four symbols of the standard base64 alphabet, by their value.
pub open spec fn base64_alphabet() -> Seq<char> {
    "ABCDEFGHIJKLMNOPQRSTUVWXYZabcdefghijklmnopqrstuvwxyz0123456789+/"@
}

/// The symbol that stands for the six-bit value `v`.
pub open spec fn base64_symbol(v: int) -> char {
    base64_alphabet()[v]
}

/// The standard base64 encoding of `bytes`, padded with `=`: each three
/// bytes give four symbols of six bits each, the first byte in the highest
/// bits; a last group of one or two bytes is filled with zero bits and its
/// missing symbols are written `=`.
pub open spec fn base64_standard(bytes: Seq<u8>) -> Seq<char>
    decreases bytes.len(),
{
    if bytes.len() == 0 {
        Seq::empty()
    } else if bytes.len() == 1 {
        let a = bytes[0] as int;
        seq![base64_symbol(a / 4), base64_symbol((a % 4) * 16), '=', '=']
    } else if bytes.len() == 2 {
        let a = bytes[0] as int;
        let b = bytes[1] as int;
        seq![
            base64_symbol(a / 4),
            base64_symbol((a % 4) * 16 + b / 16),
            base64_symbol((b % 16) * 4),
            '=',
        ]
    } else {
        let a = bytes[0] as int;
        let b = bytes[1] as int;
        let c = bytes[2] as int;
        seq![
            base64_symbol(a / 4),
            base64_symbol((a % 4) * 16 + b / 16),
            base64_symbol((b % 16) * 4 + c / 64),
            base64_symbol(c % 64),
        ] + base64_standard(bytes.skip(3))
    }
}

/// The message that a token signs: the address, a colon, the timestamp.
pub open spec fn signed_message(ip: Seq<char>, timestamp: Seq<char>) -> Seq<char> {
    ip + ":"@ + timestamp
}

/// The signature of a token: the base64 text of the HMAC-SHA256 tag of the
/// signed message, taken as UTF-8 bytes, under the key `key`.
pub open spec fn token_signature(ip: Seq<char>, key: Seq<u8>, timestamp: Seq<char>) -> Seq<char> {
    base64_standard(hmac_sha256(key, encode_utf8(signed_message(ip, timestamp))))
}

/// The text of a token: the timestamp, a hyphen, the signature.
pub open spec fn token_text(timestamp: Seq<char>, signature: Seq<char>) -> Seq<char> {
    timestamp + "-"@ + signature
}

/// The token for an address, a key and a timestamp.
pub open spec fn signed_token(ip: Seq<char>, key: Seq<u8>, timestamp: Seq<char>) -> Seq<char> {
    token_text(timestamp, token_signature(ip, key, timestamp))
}

/// A token is a function of address, key and timestamp, and it carries the
/// timestamp and the signature so that each can be read off: the token
/// begins with the timestamp, a hyphen follows, and what stands behind it is
/// the signature that the same three inputs give again.
pub proof fn law_token_reproducible(ip: Seq<char>, key: Seq<u8>, timestamp: Seq<char>)
    ensures
        signed_token(ip, key, timestamp).subrange(0, timestamp.len() as int) == timestamp,
        signed_token(ip, key, timestamp)[timestamp.len() as int] == '-',
        signed_token(ip, key, timestamp).subrange(
            timestamp.len() as int + 1,
            signed_token(ip, key, timestamp).len() as int,
        ) == token_signature(ip, key, timestamp),
{
    reveal_strlit("-");
}

/// The symbols of a base64 text are those of the alphabet and `=`, and a
/// text is four symbols for every three bytes begun; so a signature holds
/// nothing that would end the value of an attribute.
pub proof fn law_base64_text(bytes: Seq<u8>)
    ensures
        base64_standard(bytes).len() == 4 * ((bytes.len() + 2) / 3),
        forall|i: int|
            0 <= i < base64_standard(bytes).len() ==> {
                let c = #[trigger] base64_standard(bytes)[i];
                ('A' <= c && c <= 'Z') || ('a' <= c && c <= 'z') || ('0' <= c && c <= '9') || c
                    == '+' || c == '/' || c == '='
            },
    decreases bytes.len(),
{
    reveal_strlit("ABCDEFGHIJKLMNOPQRSTUVWXYZabcdefghijklmnopqrstuvwxyz0123456789+/");
    if bytes.len() >= 3 {
        law_base64_text(bytes.skip(3));
    }
}

/// Computes an HMAC-SHA256 tag.
///
/// Trusted: this is `Hmac::<Sha256>` of the `hmac` and `sha2` crates, keyed
/// with `new_from_slice`, fed with `update` and closed with `finalize`. The
/// tag is a function of key and message alone and has thirty-two bytes. A key
/// of any length is accepted, so the keying cannot fail.
#[verifier::external_body]
fn compute_hmac_sha256(key: &[u8], message: &[u8]) -> (tag: Vec<u8>)
    ensures
        tag@ == hmac_sha256(key@, message@),
        tag@.len() == 32,
{
    let mut mac = Hmac::<Sha256>::new_from_slice(key).expect("HMAC can take key of any size");
    mac.update(message);
    mac.finalize().into_bytes().to_vec()
}

/// Encodes bytes in standard base64 with padding.
///
/// Trusted: this is `Engine::encode` of the `base64` crate on its `STANDARD`
/// engine, which writes the alphabet of RFC 4648 and pads with `=`. The call
/// fails only where the text would be too long to be held, which the bound
/// on the input excludes.
#[verifier::external_body]
fn base64_encode(bytes: &[u8]) -> (text: String)
    requires
        bytes@.len() <= usize::MAX / 4,
    ensures
        text@ == base64_standard(bytes@),
{
    BASE64_STANDARD.encode(bytes)
}

/// A token: a timestamp and the signature that binds it to an address.
#[derive(Debug)]
pub struct SignedToken {
    pub timestamp: String,
    pub signature: String,
}

impl SignedToken {
    /// The token that holds `timestamp` and, as its signature, the base64
    /// text of `tag`.
    pub fn from_tag(timestamp: &str, tag: &[u8]) -> (token: SignedToken)
        requires
            tag@.len() <= usize::MAX / 4,
        ensures
            token.timestamp@ == timestamp@,
            token.signature@ == base64_standard(tag@),
    {
        SignedToken { timestamp: timestamp.to_owned(), signature: base64_encode(tag) }
    }

    /// Signs `ip` and `timestamp` with `key`.
    pub fn issue(ip: &str, key: &[u8], timestamp: &str) -> (token: SignedToken)
        ensures
            token.timestamp@ == timestamp@,
            token.signature@ == token_signature(ip@, key@, timestamp@),
    {
        let mut message = String::new();
        message.append(ip);
        message.append(":");
        message.append(timestamp);
        let tag = compute_hmac_sha256(key, message.as_str().as_bytes());
        SignedToken::from_tag(timestamp, tag.as_slice())
    }

    /// The text of the token: `timestamp-signature`.
    pub fn serialize(&self) -> (text: String)
        ensures
            text@ == token_text(self.timestamp@, self.signature@),
    {
        let mut text = String::new();
        text.append(self.timestamp.as_str());
        text.append("-");
        text.append(self.signature.as_str());
        text
    }
}

/// The token for `ip_address` at `timestamp`, signed with the UTF-8 bytes of
/// `hmac_secret`.
pub fn generate_simple_token(ip_address: &str, hmac_secret: &str, timestamp: &str) -> (token:
    String)
    ensures
        token@ == signed_token(ip_address@, encode_utf8(hmac_secret@), timestamp@),
{
    SignedToken::issue(ip_address, hmac_secret.as_bytes(), timestamp).serialize()
}

} // verus!
