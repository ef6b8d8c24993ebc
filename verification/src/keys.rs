//! Content addressing: a stable, fixed-length key derived from an origin URL.
//!
//! The key is the lowercase hexadecimal rendering of a 256-bit digest of the
//! URL's UTF-8 bytes. The same URL always yields the same key, so the key can
//! both populate and look up session-cache entries across process restarts.

use sha2::Digest;
use vstd::prelude::*;

verus! {

/// The 32-byte digest that the content-addressing scheme assigns to an origin
/// URL. A function of the URL's characters alone: equal URLs have equal
/// digests, in every process and on every machine.
pub uninterp spec fn url_digest(url: Seq<char>) -> Seq<u8>;

/// The lowercase hexadecimal digit for a value below 16.
pub open spec fn hex_digit(n: u8) -> char {
    if n < 10 {
        (n + 0x30) as char
    } else {
        (n + 0x57) as char
    }
}

/// The lowercase hexadecimal rendering of a byte sequence: two digits per
/// byte, high nibble first.
pub open spec fn hex_of(bytes: Seq<u8>) -> Seq<char> {
    Seq::new(
        bytes.len() * 2,
        |i: int|
            if i % 2 == 0 {
                hex_digit(bytes[i / 2] >> 4u8)
            } else {
                hex_digit(bytes[i / 2] & 0x0fu8)
            },
    )
}

/// The content key of an origin URL: the hex form of its digest.
pub open spec fn key_of(url: Seq<char>) -> Seq<char> {
    hex_of(url_digest(url))
}

/// Relies on sha2::Sha256 (through the digest crate's `Digest` trait): the
/// SHA-256 digest of the URL's UTF-8 bytes, 32 bytes long and a function of
/// the input alone.
#[verifier::external_body]
fn sha256_of_url(url: &str) -> (r: Vec<u8>)
    ensures
        r@ == url_digest(url@),
        r@.len() == 32,
{
    sha2::Sha256::digest(url.as_bytes()).to_vec()
}

/// Relies on hex::encode: two lowercase hexadecimal digits per input byte,
/// high nibble first.
#[verifier::external_body]
fn hex_encode(bytes: &Vec<u8>) -> (r: String)
    ensures
        r@ == hex_of(bytes@),
{
    hex::encode(bytes)
}

/// Derives the content key for an origin URL. The key is deterministic (a
/// pure function of the URL) and always 64 characters long.
pub fn derive_key(url: &str) -> (r: String)
    ensures
        r@ == key_of(url@),
        r@.len() == 64,
{
    let digest = sha256_of_url(url);
    hex_encode(&digest)
}

/// Content addressing is deterministic and stable across restarts: the key is
/// a function of the URL's characters alone, so deriving the key for the same
/// URL a second time — in this process or a later one — gives the same key.
pub proof fn lemma_derive_key_deterministic(u: Seq<char>, v: Seq<char>)
    requires
        u == v,
    ensures
        key_of(u) == key_of(v),
{
}

/// The key's length is fixed by the digest's: two hex digits per digest byte.
pub proof fn lemma_key_length(u: Seq<char>)
    ensures
        key_of(u).len() == 2 * url_digest(u).len(),
{
}

} // verus!
