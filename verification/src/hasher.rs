//! The one-way digest of a passphrase, and the check of a passphrase
//! against a digest.
//!
//! No salt enters the digest: equal passphrases give equal digests,
//! whoever computes them.

use crate::hex::hex_text;
use crate::hex::to_hex;
use crate::text::text_eq;
use crypto::digest::Digest;
use crypto::sha2::Sha256;
use vstd::prelude::*;

verus! {

/// The thirty-two bytes that SHA-256 gives for `data`.
pub uninterp spec fn sha256(data: Seq<u8>) -> Seq<u8>;

/// Feeds `data` to a fresh `crypto::sha2::Sha256` through `Digest::input`
/// and takes what `Digest::result` writes. Trusted: the bytes depend on
/// `data` alone and are as many as `Digest::output_bytes` says, thirty-two.
#[verifier::external_body]
fn sha256_bytes(data: &[u8]) -> (out: Vec<u8>)
    ensures
        out@ == sha256(data@),
        out@.len() == 32,
{
    let mut hasher = Sha256::new();
    hasher.input(data);
    let mut out = vec![0u8; hasher.output_bytes()];
    hasher.result(&mut out);
    out
}

/// The digest of `passphrase`: its SHA-256 as hexadecimal text.
pub open spec fn digest_text(passphrase: Seq<u8>) -> Seq<char> {
    hex_text(sha256(passphrase))
}

/// Whether `digest` is the digest of `passphrase`.
pub open spec fn verify_spec(passphrase: Seq<u8>, digest: Seq<char>) -> bool {
    digest_text(passphrase) == digest
}

/// Computes the digest of `passphrase`, sixty-four digits whatever the
/// length of the passphrase.
pub fn digest(passphrase: &[u8]) -> (text: String)
    ensures
        text@ == digest_text(passphrase@),
        text@.len() == 64,
{
    let bytes = sha256_bytes(passphrase);
    to_hex(bytes.as_slice())
}

/// Checks `passphrase` against `digest`. The comparison stops at the first
/// byte that differs: it does not take constant time.
pub fn verify(passphrase: &[u8], digest: &str) -> (ok: bool)
    ensures
        ok == verify_spec(passphrase@, digest@),
        digest@.len() != 64 ==> !ok,
{
    let own = self::digest(passphrase);
    text_eq(own.as_str(), digest)
}

/// Equal passphrases have equal digests.
pub proof fn lemma_digest_deterministic(first: Seq<u8>, second: Seq<u8>)
    requires
        first == second,
    ensures
        digest_text(first) == digest_text(second),
{
}

/// A passphrase passes the check against its own digest.
pub proof fn lemma_verify_accepts_own_digest(passphrase: Seq<u8>)
    ensures
        verify_spec(passphrase, digest_text(passphrase)),
{
}

/// Another passphrase passes the check against a digest exactly where the
/// two digests collide.
pub proof fn lemma_verify_rejects_other_digest(passphrase: Seq<u8>, other: Seq<u8>)
    ensures
        verify_spec(other, digest_text(passphrase)) <==> digest_text(other) == digest_text(
            passphrase,
        ),
{
}

} // verus!
