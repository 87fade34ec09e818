use vstd::prelude::*;

verus! {

/// The Keccak-256 digest of a byte sequence. The digest is a function of
/// the input bytes alone, so it is given a name here rather than a
/// definition; the trusted wrappers below relate it to the real hash.
pub uninterp spec fn keccak256_of(bytes: Seq<u8>) -> Seq<u8>;

/// The SHA3-256 digest of a byte sequence, named like `keccak256_of`.
pub uninterp spec fn sha3_256_of(bytes: Seq<u8>) -> Seq<u8>;

/// Relies on `crypto::sha3::Sha3::keccak256` with the `Digest` trait of the
/// rust-crypto crate: the digest depends on the input bytes alone, and
/// `output_bits()` of this mode is 256, so the result holds 32 bytes.
#[verifier::external_body]
pub fn keccak256(value: &[u8]) -> (r: Vec<u8>)
    ensures
        r@ == keccak256_of(value@),
        r@.len() == 32,
{
    let mut hasher = crypto::sha3::Sha3::keccak256();
    let mut result = vec![0u8; 32];
    crypto::digest::Digest::input(&mut hasher, value);
    crypto::digest::Digest::result(&mut hasher, result.as_mut_slice());
    result
}

/// Relies on `tiny_keccak::Keccak::new_sha3_256`: the digest depends on the
/// input bytes alone and fills the 32-byte output exactly.
#[verifier::external_body]
pub fn sha3_256(value: &[u8]) -> (r: Vec<u8>)
    ensures
        r@ == sha3_256_of(value@),
        r@.len() == 32,
{
    let mut hasher = tiny_keccak::Keccak::new_sha3_256();
    hasher.update(value);
    let mut result = [0u8; 32];
    hasher.finalize(&mut result);
    result.to_vec()
}

} // verus!
