//! SHA-256, from the `sha2` crate.

use vstd::prelude::*;

use sha2::Digest;

verus! {

/// SHA-256 covers messages of fewer than 2^64 bits.
pub const HASH_LIMIT: u64 = 0x2000_0000_0000_0000;

/// A running SHA-256 computation.
#[verifier::external_type_specification]
#[verifier::external_body]
pub struct ExSha256(sha2::Sha256);

/// The bytes that a computation has taken in so far.
pub uninterp spec fn fed(h: sha2::Sha256) -> Seq<u8>;

/// The SHA-256 of some bytes.
pub uninterp spec fn sha256(data: Seq<u8>) -> Seq<u8>;

/// `Sha256::new`: a computation that has taken in nothing.
#[verifier::external_body]
pub(crate) fn new_hasher() -> (r: sha2::Sha256)
    ensures
        fed(r) == Seq::<u8>::empty(),
{
    sha2::Sha256::new()
}

/// `Digest::update`: takes in more bytes behind those that it has. The block
/// counter is 64 bits wide, so the bytes of a `u64` length never overflow it.
#[verifier::external_body]
pub(crate) fn feed(h: &mut sha2::Sha256, data: &[u8])
    requires
        fed(*old(h)).len() + data@.len() <= u64::MAX,
    ensures
        fed(*final(h)) == fed(*old(h)) + data@,
{
    h.update(data);
}

/// `Digest::finalize` on a clone: the SHA-256 of what was taken in. The bit
/// count is 64 bits wide, which [`HASH_LIMIT`] keeps from overflowing.
#[verifier::external_body]
pub(crate) fn digest(h: &sha2::Sha256) -> (r: [u8; 32])
    requires
        fed(*h).len() < HASH_LIMIT,
    ensures
        r@ == sha256(fed(*h)),
{
    h.clone().finalize().into()
}

} // verus!
