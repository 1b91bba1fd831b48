use vstd::prelude::*;
use vstd::bytes::{spec_u64_from_le_bytes, spec_u64_to_le_bytes, u64_from_le_bytes, u64_to_le_bytes};
use sha2::{Digest, Sha256};

verus! {

/// Number of bytes of a digest.
pub const DIGEST_SIZE: usize = 32;

/// The SHA-256 digest of a byte string.
pub uninterp spec fn sha256_digest(data: Seq<u8>) -> Seq<u8>;

/// Hashes `data` with `Sha256::digest` of the `sha2` crate. The digest is a
/// function of the bytes alone and is 32 bytes long; nothing else is claimed
/// of it.
#[verifier::external_body]
pub(crate) fn sha256(data: &[u8]) -> (digest: Vec<u8>)
    ensures
        digest@ == sha256_digest(data@),
        digest@.len() == 32,
{
    Sha256::digest(data).to_vec()
}

/// The digest of two byte strings, one after the other.
pub open spec fn digest_of_pair(left: Seq<u8>, right: Seq<u8>) -> Seq<u8> {
    sha256_digest(left + right)
}

/// The first eight bytes of the digest of `seed` followed by `counter`, read
/// as a little-endian integer.
pub open spec fn draw_of(seed: Seq<u8>, counter: u64) -> u64 {
    spec_u64_from_le_bytes(digest_of_pair(seed, spec_u64_to_le_bytes(counter)).take(8))
}

/// One byte string after the other.
pub fn join_bytes(left: &Vec<u8>, right: &Vec<u8>) -> (r: Vec<u8>)
    ensures
        r@ == left@ + right@,
{
    let mut r: Vec<u8> = Vec::new();
    let mut i: usize = 0;
    while i < left.len()
        invariant
            i <= left@.len(),
            r@ == left@.take(i as int),
        decreases left@.len() - i,
    {
        r.push(left[i]);
        assert(r@ == left@.take(i + 1));
        i += 1;
    }
    assert(left@.take(i as int) == left@);
    let mut j: usize = 0;
    while j < right.len()
        invariant
            j <= right@.len(),
            r@ == left@ + right@.take(j as int),
        decreases right@.len() - j,
    {
        r.push(right[j]);
        assert(r@ == left@ + right@.take(j + 1));
        j += 1;
    }
    assert(right@.take(j as int) == right@);
    r
}

/// Hashes two byte strings, one after the other.
pub fn hash_pair(left: &Vec<u8>, right: &Vec<u8>) -> (digest: Vec<u8>)
    ensures
        digest@ == digest_of_pair(left@, right@),
        digest@.len() == 32,
{
    let joined = join_bytes(left, right);
    sha256(joined.as_slice())
}

/// Hashes the seed followed by the counter, and reads the first eight bytes
/// of the digest as a little-endian integer.
pub fn draw(seed: &Vec<u8>, counter: u64) -> (r: u64)
    ensures
        r == draw_of(seed@, counter),
{
    let tail = u64_to_le_bytes(counter);
    let digest = hash_pair(seed, &tail);
    let mut head: Vec<u8> = Vec::new();
    let mut i: usize = 0;
    while i < 8
        invariant
            i <= 8,
            digest@.len() == 32,
            head@ == digest@.take(i as int),
        decreases 8 - i,
    {
        head.push(digest[i]);
        assert(head@ == digest@.take(i + 1));
        i += 1;
    }
    u64_from_le_bytes(head.as_slice())
}

} // verus!
