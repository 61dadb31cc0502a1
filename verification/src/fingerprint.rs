//! Certificate fingerprints: SHA-256 digests rendered as lowercase hex.

use sha2::Digest;
use vstd::prelude::*;

verus! {

/// The SHA-256 digest of `data`, as computed by the `sha2` crate.
pub uninterp spec fn sha256_digest(data: Seq<u8>) -> Seq<u8>;

/// The lowercase hex digit of a value below 16.
pub open spec fn hex_digit(v: int) -> char {
    if v < 10 {
        ((v + 48) as u8) as char
    } else {
        ((v + 87) as u8) as char
    }
}

/// Lowercase hex rendering of a byte string: two digits per byte, high nibble
/// first.
pub open spec fn hex_lower(data: Seq<u8>) -> Seq<char> {
    Seq::new(
        2 * data.len(),
        |i: int|
            if i % 2 == 0 {
                hex_digit(data[i / 2] as int / 16)
            } else {
                hex_digit(data[i / 2] as int % 16)
            },
    )
}

/// SHA-256 of `data`.
///
/// Calls `sha2::Sha256::digest`; the contract claims only that the 32 bytes
/// returned are the digest named by `sha256_digest`.
#[verifier::external_body]
pub fn sha256(data: &[u8]) -> (res: [u8; 32])
    ensures
        res@ == sha256_digest(data@),
{
    sha2::Sha256::digest(data).into()
}

/// Calls `hex::encode`, which writes each byte as two lowercase hex digits,
/// high nibble first.
#[verifier::external_body]
fn hex_encode(data: &[u8]) -> (res: String)
    ensures
        res@ == hex_lower(data@),
{
    hex::encode(data)
}

/// The fingerprint of a certificate: the lowercase hex rendering of its
/// SHA-256 digest.
pub fn hash(data: &[u8]) -> (res: String)
    ensures
        res@ == hex_lower(sha256_digest(data@)),
        res@.len() == 64,
{
    let digest = sha256(data);
    let res = hex_encode(digest.as_slice());
    res
}

} // verus!
