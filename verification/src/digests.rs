//! Digests the node relies on: BLAKE2b-256 for message and index ids, and
//! XXH64 for the deduplication cache.

use vstd::prelude::*;
use crate::ids::MessageId;

verus! {

/// The 32-byte BLAKE2b-256 digest of a byte sequence.
pub uninterp spec fn blake2b256_of(bytes: Seq<u8>) -> Seq<u8>;

/// Relies on `blake2::Blake2b256` (through `digest::Digest::digest`): the
/// 32-byte BLAKE2b-256 digest, a function of the input bytes alone.
#[verifier::external_body]
pub(crate) fn blake2b256(bytes: &[u8]) -> (r: [u8; 32])
    ensures
        r@ == blake2b256_of(bytes@),
{
    let digest = <blake2::Blake2b256 as blake2::digest::Digest>::digest(bytes);
    digest.into()
}

/// The message id is the BLAKE2b-256 digest of the message's canonical byte
/// encoding.
pub fn compute_message_id(bytes: &[u8]) -> (r: MessageId)
    ensures
        r@ == blake2b256_of(bytes@),
{
    MessageId::new(blake2b256(bytes))
}

/// The XXH64 checksum (seed 0) of a byte sequence.
pub uninterp spec fn xxh64_of(bytes: Seq<u8>) -> u64;

/// Relies on `twox_hash::XxHash64::oneshot`: the XXH64 checksum with seed 0,
/// a function of the input bytes alone.
#[verifier::external_body]
pub fn xx_hash(buf: &[u8]) -> (r: u64)
    ensures
        r == xxh64_of(buf@),
{
    twox_hash::XxHash64::oneshot(0, buf)
}

} // verus!
