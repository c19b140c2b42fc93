//! Cryptographic digests, computed by the RustCrypto crates.

use crate::text::number::{hex, hex_lower, law_hex_reads_back, lemma_hex_len, nibble};
use sha1::{Digest, Sha1};
use sha2::Sha256;
use vstd::prelude::*;

verus! {

/// The SHA-256 digest of `bytes`.
pub uninterp spec fn sha256(bytes: Seq<u8>) -> Seq<u8>;

/// The SHA-1 digest of `bytes`.
pub uninterp spec fn sha1(bytes: Seq<u8>) -> Seq<u8>;

/// `sha2::Sha256::digest`: the digest depends on the bytes alone and is 32 bytes long.
#[verifier::external_body]
pub(crate) fn sha256_of(bytes: &[u8]) -> (digest: Vec<u8>)
    ensures
        digest@ == sha256(bytes@),
        digest@.len() == 32,
{
    Sha256::digest(bytes).to_vec()
}

/// `sha1::Sha1::digest`: the digest depends on the bytes alone and is 20 bytes long.
#[verifier::external_body]
pub(crate) fn sha1_of(bytes: &[u8]) -> (digest: Vec<u8>)
    ensures
        digest@ == sha1(bytes@),
        digest@.len() == 20,
{
    Sha1::digest(bytes).to_vec()
}

/// The SHA-256 digest of `bytes` in lower-case hexadecimal.
pub open spec fn sha256_hex(bytes: Seq<u8>) -> Seq<char> {
    hex(sha256(bytes))
}

/// The SHA-1 digest of `bytes` in lower-case hexadecimal.
pub open spec fn sha1_hex(bytes: Seq<u8>) -> Seq<char> {
    hex(sha1(bytes))
}

/// The SHA-256 digest of `bytes` in lower-case hexadecimal.
pub fn sha256_hex_of(bytes: &[u8]) -> (text: String)
    ensures
        text@ == sha256_hex(bytes@),
        text@.len() == 64,
{
    let digest = sha256_of(bytes);
    proof {
        crate::text::number::lemma_hex_len(digest@);
    }
    hex_lower(digest.as_slice())
}

/// The SHA-1 digest of `bytes` in lower-case hexadecimal.
pub fn sha1_hex_of(bytes: &[u8]) -> (text: String)
    ensures
        text@ == sha1_hex(bytes@),
        text@.len() == 40,
{
    let digest = sha1_of(bytes);
    proof {
        crate::text::number::lemma_hex_len(digest@);
    }
    hex_lower(digest.as_slice())
}

/// A digest is shown whole: two digits for each of its bytes, which read back as
/// that byte.
pub proof fn law_a_digest_is_shown_whole(bytes: Seq<u8>, i: int)
    ensures
        sha256_hex(bytes).len() == 2 * sha256(bytes).len(),
        sha1_hex(bytes).len() == 2 * sha1(bytes).len(),
        0 <= i < sha256(bytes).len() ==> 16 * nibble(sha256_hex(bytes)[2 * i]) + nibble(
            sha256_hex(bytes)[2 * i + 1],
        ) == sha256(bytes)[i],
        0 <= i < sha1(bytes).len() ==> 16 * nibble(sha1_hex(bytes)[2 * i]) + nibble(
            sha1_hex(bytes)[2 * i + 1],
        ) == sha1(bytes)[i],
{
    lemma_hex_len(sha256(bytes));
    lemma_hex_len(sha1(bytes));
    if 0 <= i < sha256(bytes).len() {
        law_hex_reads_back(sha256(bytes), i);
    }
    if 0 <= i < sha1(bytes).len() {
        law_hex_reads_back(sha1(bytes), i);
    }
}

} // verus!
