//! Content fingerprints of the inputs a plan or a catalog is computed from.
use super::impact::model::InputFingerprints;
use crate::text::cat;
use vstd::prelude::*;

verus! {

/// The lower-case hex rendering of the SHA-256 digest of `bytes`.
pub uninterp spec fn sha256_hex(bytes: Seq<u8>) -> Seq<char>;

/// `sha2::Sha256::digest` of the bytes, rendered with `{:x}`. Claims only
/// that the text is a function of the bytes.
#[verifier::external_body]
pub fn sha256_lower_hex(bytes: &Vec<u8>) -> (r: String)
    ensures
        r@ == sha256_hex(bytes@),
{
    format!("{:x}", <sha2::Sha256 as sha2::Digest>::digest(bytes.as_slice()))
}

/// The fingerprint of a file's content: `sha256:` and its digest in hex.
pub fn fingerprint(bytes: &Vec<u8>) -> (r: String)
    ensures
        r@ == "sha256:"@ + sha256_hex(bytes@),
{
    let hex = sha256_lower_hex(bytes);
    cat("sha256:", hex.as_str())
}

/// The fingerprints of the impact registry, the producer registry and the
/// acceptance matrix, given their contents.
pub fn input_fingerprints(impact: &Vec<u8>, producer: &Vec<u8>, matrix: &Vec<u8>) -> (r: InputFingerprints)
    ensures
        r.impact_registry@ == "sha256:"@ + sha256_hex(impact@),
        r.producer_registry@ == "sha256:"@ + sha256_hex(producer@),
        r.acceptance_matrix@ == "sha256:"@ + sha256_hex(matrix@),
{
    InputFingerprints {
        impact_registry: fingerprint(impact),
        producer_registry: fingerprint(producer),
        acceptance_matrix: fingerprint(matrix),
    }
}

} // verus!
