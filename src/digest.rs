use vstd::prelude::*;

use sha1::Digest;

verus! {

/// The SHA-1 digest of a byte sequence.
pub uninterp spec fn sha1_of(b: Seq<u8>) -> Seq<u8>;

/// Relies on `sha1::Sha1::digest`: the 20-byte SHA-1 digest of the input,
/// which depends on the input alone.
#[verifier::external_body]
pub(crate) fn sha1_digest(b: &[u8]) -> (r: [u8; 20])
    ensures
        r@ == sha1_of(b@),
{
    let d = sha1::Sha1::digest(b);
    let mut out = [0u8; 20];
    out.copy_from_slice(&d);
    out
}

} // verus!
