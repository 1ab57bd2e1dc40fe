//! Physical names for opaque storage keys.
//!
//! A key is an arbitrary byte string; the stores derive a deterministic,
//! collision-resistant physical name from it — a cryptographic digest of the
//! key, rendered in a URL-safe, padding-free encoding — so that any key fits
//! the path-length and character limits of a filesystem or an object store.

use base64::Engine;
use sha2::Digest;
use vstd::prelude::*;

verus! {

/// The SHA-256 digest of a byte string.
pub uninterp spec fn sha256_of(input: Seq<u8>) -> Seq<u8>;

/// The URL-safe, padding-free rendering of a byte string.
pub uninterp spec fn b64_url_of(input: Seq<u8>) -> Seq<char>;

/// The characters the rendering may use: letters, digits, `-` and `_` —
/// no `=` padding, no `/`, nothing a path or URL reserves.
pub open spec fn is_b64_url_char(c: char) -> bool {
    ('A' <= c && c <= 'Z') || ('a' <= c && c <= 'z') || ('0' <= c && c <= '9') || c == '-' || c
        == '_'
}

/// Relies on sha2's SHA-256: a 32-byte digest determined by the input bytes
/// alone.  The length bound keeps the input within the hash's domain.
#[verifier::external_body]
pub fn sha256(input: &[u8]) -> (r: Vec<u8>)
    requires
        input@.len() < 0x2000_0000_0000_0000,
    ensures
        r@ == sha256_of(input@),
        r@.len() == 32,
{
    sha2::Sha256::digest(input).to_vec()
}

/// Relies on base64's `URL_SAFE_NO_PAD` engine: an encoding determined by
/// the input bytes alone, four characters for every three bytes (rounded
/// up), all drawn from the URL-safe alphabet without padding.  The engine
/// documents an exact decoder, so the encoding is injective: no other byte
/// string renders to this result — distinct inputs keep distinct names.
#[verifier::external_body]
pub fn encode_key(key: &[u8]) -> (r: String)
    requires
        4 * key@.len() + 2 <= usize::MAX,
    ensures
        r@ == b64_url_of(key@),
        r@.len() == (4 * key@.len() + 2) / 3,
        forall|i: int| 0 <= i < r@.len() ==> is_b64_url_char(#[trigger] r@[i]),
        forall|other: Seq<u8>| #[trigger] b64_url_of(other) == r@ ==> other == key@,
{
    base64::engine::general_purpose::URL_SAFE_NO_PAD.encode(key)
}

} // verus!
