//! Content hashing of the raw upload.

use sha2::{Digest, Sha256};
use vstd::prelude::*;

verus! {

/// The lowercase hexadecimal rendering of the SHA-256 digest of a byte
/// sequence; a function of the bytes alone.
pub uninterp spec fn sha256_hex_of(bytes: Seq<u8>) -> Seq<u8>;

/// Relies on sha2::Sha256: feeding `update` the bytes and calling `finalize`
/// digests exactly those bytes, a pure function of them; the lower-hex
/// rendering of the 32-byte digest is 64 hex digits.
#[verifier::external_body]
pub(crate) fn sha256_hex(bytes: &Vec<u8>) -> (r: Vec<u8>)
    ensures
        r@ == sha256_hex_of(bytes@),
        r@.len() == 64,
{
    let mut hasher = Sha256::new();
    hasher.update(bytes.as_slice());
    let digest = hasher.finalize();
    let mut out = Vec::with_capacity(64);
    for b in digest.iter() {
        out.extend_from_slice(format!("{:02x}", b).as_bytes());
    }
    out
}

} // verus!
