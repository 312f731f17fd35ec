//! The digest by which the server recognises the timestamps it has signed.
//!
//! A timestamp is signed with HMAC-SHA256 under the server's secret, over
//! the eight bytes of the timestamp in little-endian order. The
//! computation itself is the `ring` crate's.

use crate::address::Timestamp;
use crate::bits::le_bytes;
use vstd::arithmetic::div_mod::lemma_div_denominator;
use vstd::arithmetic::power2::{lemma2_to64, lemma_pow2_adds, lemma_pow2_pos, pow2};
use vstd::prelude::*;

verus! {

/// The number of bytes of a secret that the server makes for itself.
pub const SECRET_LEN: usize = 32;

/// The largest number of bytes that a secret may have.
pub const MAX_SECRET_LEN: usize = 64;

/// The HMAC-SHA256 tag of `data` under the key `secret`, as the `ring`
/// crate's `hmac::sign` computes it.
pub uninterp spec fn hmac_sha256(secret: Seq<u8>, data: Seq<u8>) -> Seq<u8>;

/// Signs `data` with `ring::hmac::sign` under an HMAC-SHA256 key made from
/// `secret` with `ring::hmac::Key::new`. The tag depends on the key bytes
/// and the data alone. Neither call fails on input this short.
#[verifier::external_body]
fn hmac_sign(secret: &[u8], data: &[u8]) -> (tag: Vec<u8>)
    requires
        secret@.len() <= 64,
        data@.len() <= 64,
    ensures
        tag@ == hmac_sha256(secret@, data@),
{
    let key = ring::hmac::Key::new(ring::hmac::HMAC_SHA256, secret);
    ring::hmac::sign(&key, data).as_ref().to_vec()
}

/// Checks a tag with `ring::hmac::verify` under an HMAC-SHA256 key made
/// from `secret` with `ring::hmac::Key::new`. That function signs the
/// data and compares the result with the tag, byte for byte and in
/// constant time: it succeeds exactly when the two are equal.
#[verifier::external_body]
fn hmac_verify(secret: &[u8], data: &[u8], tag: &[u8]) -> (ok: bool)
    requires
        secret@.len() <= 64,
        data@.len() <= 64,
    ensures
        ok == (tag@ == hmac_sha256(secret@, data@)),
{
    let key = ring::hmac::Key::new(ring::hmac::HMAC_SHA256, secret);
    ring::hmac::verify(&key, data, tag).is_ok()
}

/// Asks the system's random source for `count` bytes through `ring`'s
/// `SystemRandom` and `SecureRandom::fill`. The bytes differ from call to
/// call; `None` means that the source failed.
#[verifier::external_body]
fn random_bytes(count: usize) -> (bytes: Option<Vec<u8>>)
    ensures
        bytes matches Some(b) ==> b@.len() == count,
{
    let mut bytes = vec![0u8; count];
    match ring::rand::SecureRandom::fill(&ring::rand::SystemRandom::new(), &mut bytes) {
        Ok(()) => Some(bytes),
        Err(_) => None,
    }
}

/// The digest of a timestamp under a secret.
pub open spec fn timestamp_digest(secret: Seq<u8>, timestamp: Timestamp) -> Seq<u8> {
    hmac_sha256(secret, le_bytes(timestamp as nat, 8))
}

/// Whether `digest` is the digest of `timestamp` under `secret`.
pub open spec fn digest_valid(secret: Seq<u8>, timestamp: Timestamp, digest: Seq<u8>) -> bool {
    digest == timestamp_digest(secret, timestamp)
}

/// The eight bytes of a timestamp in little-endian order.
pub fn timestamp_bytes(timestamp: Timestamp) -> (bytes: Vec<u8>)
    ensures
        bytes@ == le_bytes(timestamp as nat, 8),
{
    let mut bytes: Vec<u8> = Vec::new();
    let mut rest: u64 = timestamp;
    let mut i: u8 = 0;
    proof {
        lemma2_to64();
        assert((8 * i) as nat == 0);
        assert(timestamp as nat / 1 == timestamp);
    }
    while i < 8
        invariant
            i <= 8,
            rest == timestamp as nat / pow2((8 * i) as nat),
            bytes@ == le_bytes(timestamp as nat, 8).take(i as int),
        decreases 8 - i,
    {
        proof {
            lemma2_to64();
            lemma_pow2_pos((8 * i) as nat);
            lemma_pow2_adds((8 * i) as nat, 8);
            lemma_div_denominator(timestamp as int, pow2((8 * i) as nat) as int, 256);
        }
        bytes.push((rest % 256) as u8);
        rest = rest / 256;
        assert(bytes@ =~= le_bytes(timestamp as nat, 8).take(i + 1));
        i += 1;
    }
    assert(bytes@ =~= le_bytes(timestamp as nat, 8));
    bytes
}

/// A fresh secret from the system's random source; `None` if the source
/// failed.
pub fn generate_secret() -> (secret: Option<Vec<u8>>)
    ensures
        secret matches Some(s) ==> s@.len() == SECRET_LEN,
{
    random_bytes(SECRET_LEN)
}

/// The digest of a timestamp under a secret.
pub fn sign_timestamp(secret: &[u8], timestamp: Timestamp) -> (digest: Vec<u8>)
    requires
        secret@.len() <= MAX_SECRET_LEN,
    ensures
        digest@ == timestamp_digest(secret@, timestamp),
{
    let data = timestamp_bytes(timestamp);
    hmac_sign(secret, data.as_slice())
}

/// Whether `digest` is the digest of `timestamp` under `secret`.
pub fn verify_timestamp(secret: &[u8], timestamp: Timestamp, digest: &[u8]) -> (ok: bool)
    requires
        secret@.len() <= MAX_SECRET_LEN,
    ensures
        ok == digest_valid(secret@, timestamp, digest@),
{
    let data = timestamp_bytes(timestamp);
    hmac_verify(secret, data.as_slice(), digest)
}

/// The digest that a secret gives to a timestamp is valid for it.
pub proof fn lemma_signed_timestamp_verifies(secret: Seq<u8>, timestamp: Timestamp)
    ensures
        digest_valid(secret, timestamp, timestamp_digest(secret, timestamp)),
{
}

/// A digest that differs from the one signed is not valid, whichever
/// byte of it was changed, added or taken away.
pub proof fn lemma_tampered_digest_fails(secret: Seq<u8>, timestamp: Timestamp, digest: Seq<u8>)
    requires
        digest != timestamp_digest(secret, timestamp),
    ensures
        !digest_valid(secret, timestamp, digest),
{
}

} // verus!
