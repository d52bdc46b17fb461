//! Sensor identifier derivation: the first 8 bytes of the SHA-256 digest of
//! the sensor name concatenated with the owner's address.

use vstd::prelude::*;
use sha2::{Digest, Sha256};

verus! {

/// The SHA-256 digest of the UTF-8 bytes of `name` followed by the UTF-8
/// bytes of `address`.  The digest depends on those characters alone.
pub uninterp spec fn sha256_pair_of(name: Seq<char>, address: Seq<char>) -> Seq<u8>;

/// The sensor identifier derived from a sensor name and an owner address:
/// the first 8 bytes of their joint digest.
pub open spec fn sensor_id_of(name: Seq<char>, address: Seq<char>) -> Seq<u8> {
    sha256_pair_of(name, address).take(8)
}

/// Relies on sha2::Sha256: hashing `name` then `address` digests the
/// concatenation of their UTF-8 bytes; the digest is 32 bytes long and is a
/// function of the input bytes alone.
#[verifier::external_body]
pub(crate) fn sha256_pair(name: &str, address: &str) -> (r: Vec<u8>)
    ensures
        r@ == sha256_pair_of(name@, address@),
        r@.len() == 32,
{
    let mut hasher = Sha256::new();
    hasher.update(name.as_bytes());
    hasher.update(address.as_bytes());
    hasher.finalize().to_vec()
}

} // verus!
