use vstd::prelude::*;

verus! {

/// What SHA-256 followed by lowercase hex encoding yields for a byte sequence.
pub uninterp spec fn sha256_hex_of(data: Seq<u8>) -> Seq<char>;

/// A lowercase hexadecimal digit.
pub open spec fn is_lower_hex_char(c: char) -> bool {
    ('0' <= c && c <= '9') || ('a' <= c && c <= 'f')
}

/// Relies on rust-crypto's `Sha256` (`input`, then `result_str`): the digest is
/// a function of the bytes alone, and `result_str` renders its 32 bytes as 64
/// lowercase hex digits (rustc-serialize's `to_hex`).
#[verifier::external_body]
fn sha256_hex(data: &[u8]) -> (r: String)
    ensures
        r@ == sha256_hex_of(data@),
        r@.len() == 64,
        forall|i: int| 0 <= i < r@.len() ==> is_lower_hex_char(#[trigger] r@[i]),
{
    let mut hasher = crypto::sha2::Sha256::new();
    crypto::digest::Digest::input(&mut hasher, data);
    crypto::digest::Digest::result_str(&mut hasher)
}

/// The content fingerprint of a byte sequence: a fixed-width lowercase hex
/// string identifying the bytes.
pub fn fingerprint(data: &[u8]) -> (r: String)
    ensures
        r@ == sha256_hex_of(data@),
        r@.len() == 64,
        forall|i: int| 0 <= i < r@.len() ==> is_lower_hex_char(#[trigger] r@[i]),
{
    sha256_hex(data)
}

/// Fingerprinting is deterministic: equal byte sequences always get equal
/// fingerprints, in every call and every run.
pub proof fn lemma_fingerprint_deterministic(a: Seq<u8>, b: Seq<u8>)
    requires
        a == b,
    ensures
        sha256_hex_of(a) == sha256_hex_of(b),
{
}

} // verus!
