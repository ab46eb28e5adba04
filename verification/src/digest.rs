use vstd::prelude::*;

verus! {

/// The BLAKE3 digest of `input`, 32 bytes long.
pub uninterp spec fn blake3_digest(input: Seq<u8>) -> Seq<u8>;

/// Calls `blake3::hash` and copies out what `Hash::as_bytes` shows. Trusted: the bytes returned
/// are the BLAKE3 digest of `input`, which depends on `input` alone.
#[verifier::external_body]
pub(crate) fn digest(input: &[u8]) -> (out: [u8; 32])
    ensures
        out@ == blake3_digest(input@),
{
    *blake3::hash(input).as_bytes()
}

} // verus!
