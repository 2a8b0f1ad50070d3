//! Content addressing: posts are keyed by the 32-byte Blake2 digest of
//! their content, computed by the host's hashing primitive.

use vstd::prelude::*;
use crate::types::PostId;

verus! {

/// The 32-byte Blake2b digest of a byte sequence, as computed by
/// `sp_io::hashing::blake2_256`. The digest is a function of the bytes
/// alone; nothing further is assumed about its value.
pub uninterp spec fn content_address(bytes: Seq<u8>) -> Seq<u8>;

/// Relies on `sp_io::hashing::blake2_256`: the 256-bit Blake2b digest of
/// the input, a deterministic function of the input bytes alone.
#[verifier::external_body]
pub(crate) fn blake2_256(data: &Vec<u8>) -> (r: PostId)
    ensures
        r@ == content_address(data@),
{
    sp_io::hashing::blake2_256(data.as_slice())
}

} // verus!
