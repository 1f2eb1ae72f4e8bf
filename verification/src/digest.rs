//! Digest wrappers.
//!
//! The concrete digest algorithms are external collaborators: the engine
//! only needs that each is a fixed-length function of its input bytes.  The
//! results are therefore named by uninterpreted spec functions, and the
//! wrappers below carry the calls into the `sha1` and `sha2` crates.

use vstd::prelude::*;
use crate::encparams::DigestKind;

verus! {

pub uninterp spec fn sha1_of(input: Seq<u8>) -> Seq<u8>;

pub uninterp spec fn sha256_of(input: Seq<u8>) -> Seq<u8>;

/// The digest of `input` under the chosen algorithm.
pub open spec fn digest_of(kind: DigestKind, input: Seq<u8>) -> Seq<u8> {
    match kind {
        DigestKind::Sha1 => sha1_of(input),
        DigestKind::Sha256 => sha256_of(input),
    }
}

/// The digest length in bytes of the chosen algorithm.
pub open spec fn spec_digest_len(kind: DigestKind) -> int {
    match kind {
        DigestKind::Sha1 => 20,
        DigestKind::Sha256 => 32,
    }
}

/// Relies on `sha1::Sha1` (RustCrypto): the 20-byte SHA-1 digest depends on
/// the input bytes alone.
#[verifier::external_body]
fn sha1_digest(input: &Vec<u8>) -> (r: Vec<u8>)
    ensures
        r@ == sha1_of(input@),
        r@.len() == 20,
{
    <sha1::Sha1 as sha1::Digest>::digest(input.as_slice()).as_slice().to_vec()
}

/// Relies on `sha2::Sha256` (RustCrypto): the 32-byte SHA-256 digest depends
/// on the input bytes alone.
#[verifier::external_body]
pub(crate) fn sha256_digest(input: &Vec<u8>) -> (r: Vec<u8>)
    ensures
        r@ == sha256_of(input@),
        r@.len() == 32,
{
    <sha2::Sha256 as sha2::Digest>::digest(input.as_slice()).as_slice().to_vec()
}

/// The digest of `input` under the algorithm a parameter set chose.
pub fn hash(kind: DigestKind, input: &Vec<u8>) -> (r: Vec<u8>)
    ensures
        r@ == digest_of(kind, input@),
        r@.len() == spec_digest_len(kind),
{
    match kind {
        DigestKind::Sha1 => sha1_digest(input),
        DigestKind::Sha256 => sha256_digest(input),
    }
}

} // verus!
