//! Content hashing for per-resource versions.

use vstd::prelude::*;

verus! {

/// The lowercase hex encoding of the SHA-256 digest of `bytes`: a function
/// of the bytes alone, left uninterpreted here.
pub uninterp spec fn sha256_hex(bytes: Seq<u8>) -> Seq<char>;

/// Relies on `sha2::Sha256::digest` and generic-array's `LowerHex`: the
/// digest is 32 bytes, printed as two lowercase hex digits per byte, and
/// depends on the input bytes alone.
#[verifier::external_body]
pub(crate) fn sha256_hex_of(bytes: &Vec<u8>) -> (r: String)
    ensures
        r@ == sha256_hex(bytes@),
        r@.len() == 64,
{
    let digest = <sha2::Sha256 as sha2::Digest>::digest(bytes.as_slice());
    format!("{:x}", digest)
}

} // verus!
