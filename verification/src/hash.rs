//! Content hashing for archive integrity. The digest itself is computed by
//! an outside implementation of SHA-256; this module gives its result a name
//! that the cache-validation contracts are stated over.
use vstd::prelude::*;
use sha2::Digest;

verus! {

/// The SHA-256 digest of a byte string. The algorithm is not restated here;
/// the contracts only rely on the digest being a function of the bytes.
pub uninterp spec fn sha256_of(data: Seq<u8>) -> Seq<u8>;

/// Relies on sha2's `Digest::digest` for `Sha256`: the digest is a function
/// of the input bytes alone, and is 32 bytes long.
#[verifier::external_body]
pub fn sha256(data: &[u8]) -> (r: Vec<u8>)
    ensures
        r@ == sha256_of(data@),
        r@.len() == 32,
{
    sha2::Sha256::digest(data).to_vec()
}

/// Streaming SHA-256 state, opaque to the verifier. It stands behind this
/// struct because sha2's own state type is a deeply bounded generic that a
/// type declaration does not reach; what it holds is named by
/// `hasher_fed`, and every method goes through a contracted wrapper.
#[verifier::external_body]
pub struct StreamingHash {
    inner: sha2::Sha256,
}

/// The bytes a streaming hasher has been fed so far.
pub uninterp spec fn hasher_fed(h: StreamingHash) -> Seq<u8>;

/// Relies on sha2's `Digest::new`: a fresh hasher has been fed nothing.
#[verifier::external_body]
pub fn hash_start() -> (r: StreamingHash)
    ensures
        hasher_fed(r) == Seq::<u8>::empty(),
{
    StreamingHash { inner: sha2::Sha256::new() }
}

/// Relies on sha2's `Digest::update`: feeding a chunk appends it to the
/// stream being hashed.
#[verifier::external_body]
pub fn hash_update(h: &mut StreamingHash, data: &[u8])
    ensures
        hasher_fed(*final(h)) == hasher_fed(*old(h)) + data@,
{
    h.inner.update(data);
}

/// Relies on sha2's `Digest::finalize`: the digest of everything fed, as
/// if it had been hashed in one piece.
#[verifier::external_body]
pub fn hash_finish(h: StreamingHash) -> (r: Vec<u8>)
    ensures
        r@ == sha256_of(hasher_fed(h)),
        r@.len() == 32,
{
    h.inner.finalize().to_vec()
}

} // verus!
