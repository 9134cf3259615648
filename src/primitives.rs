//! The calls into other crates and into parts of std that have no
//! specification in vstd. Each item states what the called function's
//! documentation promises, and nothing more.
use vstd::prelude::*;

use base64::Engine;
use rand::RngCore;
use sha1::Digest;
use vstd::utf8::{decode_utf8, valid_utf8};

use crate::utils::{Authority, Uri, UriView};

verus! {

/// Relies on rand's thread-local generator (`rand::rng().next_u32()`):
/// nothing is promised of the value.
#[verifier::external_body]
pub(crate) fn random_u32() -> (r: u32) {
    rand::rng().next_u32()
}

/// Fills `buf` from rand's thread-local generator
/// (`rand::rng().fill_bytes`): nothing is promised of the bytes.
#[verifier::external_body]
pub(crate) fn fill_random(buf: &mut Vec<u8>)
    ensures
        final(buf)@.len() == old(buf)@.len(),
{
    rand::rng().fill_bytes(buf.as_mut_slice())
}

/// The standard base64 encoding of `bytes`, with padding.
pub uninterp spec fn base64_of(bytes: Seq<u8>) -> Seq<char>;

/// Relies on base64's `general_purpose::STANDARD` engine (`Engine::encode`),
/// which pads: four characters for each started group of three bytes
/// (`encoded_len` with padding).
#[verifier::external_body]
pub(crate) fn base64_encode(bytes: &[u8]) -> (r: String)
    ensures
        r@ == base64_of(bytes@),
        r@.len() == 4 * ((bytes@.len() + 2) / 3),
{
    base64::engine::general_purpose::STANDARD.encode(bytes)
}

/// The SHA-1 digest of `bytes`.
pub uninterp spec fn sha1_of(bytes: Seq<u8>) -> Seq<u8>;

/// Relies on sha1's `Sha1::digest`, whose output is 20 bytes long.
#[verifier::external_body]
pub(crate) fn sha1_digest(bytes: &[u8]) -> (r: Vec<u8>)
    ensures
        r@ == sha1_of(bytes@),
        r@.len() == 20,
{
    sha1::Sha1::digest(bytes).to_vec()
}

/// The text that `bytes` decode to, each invalid UTF-8 sequence replaced by
/// U+FFFD.
pub uninterp spec fn lossy_utf8_of(bytes: Seq<u8>) -> Seq<char>;

/// Relies on std's `String::from_utf8_lossy`, which hands valid UTF-8 back
/// as it is.
#[verifier::external_body]
pub(crate) fn utf8_lossy(bytes: &[u8]) -> (r: String)
    ensures
        r@ == lossy_utf8_of(bytes@),
        valid_utf8(bytes@) ==> r@ == decode_utf8(bytes@),
{
    String::from_utf8_lossy(bytes).into_owned()
}

/// `s` without its leading and trailing white space.
pub uninterp spec fn trimmed_of(s: Seq<char>) -> Seq<char>;

/// Relies on std's `str::trim`.
#[verifier::external_body]
pub(crate) fn trim(s: &str) -> (r: &str)
    ensures
        r@ == trimmed_of(s@),
{
    s.trim()
}

/// `s` in lower case.
pub uninterp spec fn lowercase_of(s: Seq<char>) -> Seq<char>;

/// Relies on std's `str::to_lowercase`.
#[verifier::external_body]
pub(crate) fn to_lowercase(s: &str) -> (r: String)
    ensures
        r@ == lowercase_of(s@),
{
    s.to_lowercase()
}

/// What fluent_uri makes of `s` as an absolute URI (RFC 3986 `URI`): its
/// components as written, or `None` when `s` is no such URI.
pub uninterp spec fn uri_parts_of(s: Seq<char>) -> Option<UriView>;

/// Relies on fluent_uri's `Uri::parse` and on the accessors of the parsed
/// value, which hand back the components as written. The error is
/// fluent_uri's description of the failure.
#[verifier::external_body]
pub(crate) fn parse_uri(s: &str) -> (r: Result<Uri, String>)
    ensures
        r is Ok <==> uri_parts_of(s@) is Some,
        r matches Ok(u) ==> uri_parts_of(s@) == Some(u@),
{
    match fluent_uri::Uri::parse(s) {
        Ok(u) => Ok(Uri {
            scheme: u.scheme().as_str().to_string(),
            authority: u.authority().map(|a| Authority {
                host: a.host().to_string(),
                port: a.port().map(|p| p.as_str().to_string()),
            }),
            path: u.path().as_str().to_string(),
            query: u.query().map(|q| q.as_str().to_string()),
        }),
        Err(e) => Err(e.to_string()),
    }
}

pub open spec fn digit_char(d: nat) -> char {
    if d == 0 {
        '0'
    } else if d == 1 {
        '1'
    } else if d == 2 {
        '2'
    } else if d == 3 {
        '3'
    } else if d == 4 {
        '4'
    } else if d == 5 {
        '5'
    } else if d == 6 {
        '6'
    } else if d == 7 {
        '7'
    } else if d == 8 {
        '8'
    } else {
        '9'
    }
}

/// `n` in decimal, without leading zeros.
pub open spec fn decimal_text(n: nat) -> Seq<char>
    decreases n,
{
    if n < 10 {
        seq![digit_char(n)]
    } else {
        decimal_text(n / 10).push(digit_char(n % 10))
    }
}

/// Relies on std's `ToString` for `u16`, which writes the number in decimal.
#[verifier::external_body]
pub(crate) fn u16_to_string(n: u16) -> (r: String)
    ensures
        r@ == decimal_text(n as nat),
{
    n.to_string()
}

} // verus!
