//! Digest accumulation: one SHA-256 fingerprint over the fully reassembled
//! resource bytes, computed in a single pass.

use vstd::prelude::*;

verus! {

/// The SHA-256 digest of a byte sequence. The hash itself is outside this
/// crate; all that is relied on is that it is a fixed 32-byte function of
/// the input bytes alone.
pub uninterp spec fn sha256_of(data: Seq<u8>) -> Seq<u8>;

/// Relies on `sha2::Sha256` through the RustCrypto `Digest` interface:
/// `Digest::digest` returns the SHA-256 hash of the input, a 32-byte value
/// that depends on the input bytes alone.
#[verifier::external_body]
fn sha256_raw(data: &Vec<u8>) -> (r: Vec<u8>)
    ensures
        r@ == sha256_of(data@),
        r@.len() == 32,
{
    let out = <sha2::Sha256 as sha2::Digest>::digest(data.as_slice());
    out.as_slice().to_vec()
}

/// Compute the cryptographic fingerprint of a fully assembled buffer: its
/// 32-byte SHA-256 digest.
pub fn digest_bytes(data: &Vec<u8>) -> (r: Vec<u8>)
    ensures
        r@ == sha256_of(data@),
        r@.len() == 32,
{
    sha256_raw(data)
}

} // verus!
