//! The one cryptographic digest the tracker uses: SHA-1, for the
//! stateless UDP connection ids and for deriving user ids from database
//! rows.

use vstd::prelude::*;
use sha1::Digest;

verus! {

/// What the SHA-1 of a byte string is: 20 bytes determined by the input
/// alone.
pub uninterp spec fn sha1_of(data: Seq<u8>) -> Seq<u8>;

/// Relies on sha1::Sha1 through the Digest trait: the 20-byte SHA-1 of
/// the input, a function of the input alone.
#[verifier::external_body]
pub(crate) fn sha1_digest(data: &Vec<u8>) -> (r: Vec<u8>)
    ensures
        r@ == sha1_of(data@),
        r@.len() == 20,
{
    let mut hasher = sha1::Sha1::new();
    hasher.update(data.as_slice());
    hasher.finalize().to_vec()
}

} // verus!
