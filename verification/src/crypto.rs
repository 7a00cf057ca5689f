//! The outside primitives the library rests on: SHA-256 (`sha2`), Ed25519
//! (`ed25519-dalek` with `rand_core`'s OS generator) and the wall clock
//! (`chrono`). Each is reached through one small trusted function; what the
//! functions return is named here and, where the crates document more, stated.
use vstd::prelude::*;
use sha2::Digest;
use ed25519_dalek::Signer;
use ed25519_dalek::Verifier;
use rand_core::RngCore;

verus! {

/// The SHA-256 digest of `data`.
pub uninterp spec fn sha256_digest(data: Seq<u8>) -> Seq<u8>;

/// The Ed25519 public key (compressed point bytes) that belongs to a 32-byte secret key.
pub uninterp spec fn ed25519_public_key(secret: Seq<u8>) -> Seq<u8>;

/// Whether 32 bytes decompress to a curve point, i.e. can serve as a public key.
pub uninterp spec fn ed25519_key_decodes(public: Seq<u8>) -> bool;

/// The Ed25519 signature of `msg` under a 32-byte secret key.
pub uninterp spec fn ed25519_signature(secret: Seq<u8>, msg: Seq<u8>) -> Seq<u8>;

/// Whether Ed25519 verification accepts the 64-byte `sig` on `msg` under `public`.
pub uninterp spec fn ed25519_accepts(public: Seq<u8>, msg: Seq<u8>, sig: Seq<u8>) -> bool;

/// `<sha2::Sha256 as Digest>::digest`: the SHA-256 digest of `data`, which is 32 bytes long.
#[verifier::external_body]
pub(crate) fn sha256(data: &[u8]) -> (res: Vec<u8>)
    ensures
        res@ == sha256_digest(data@),
        res@.len() == 32,
{
    sha2::Sha256::digest(data).to_vec()
}

/// `chrono::DateTime::<Utc>::from(SystemTime::now()).timestamp()`: the current
/// time in whole seconds since the Unix epoch, negative for a clock set before
/// it. Nothing is claimed of the value.
#[verifier::external_body]
pub(crate) fn now_timestamp() -> (res: i64) {
    chrono::DateTime::<chrono::Utc>::from(std::time::SystemTime::now()).timestamp()
}

/// `rand_core::OsRng::try_fill_bytes` on 32 bytes, the secret key that
/// `ed25519_dalek::SigningKey::generate` would draw: `None` when the
/// operating system's generator fails. Nothing is claimed of the bytes.
#[verifier::external_body]
pub(crate) fn random_secret_key() -> (res: Option<[u8; 32]>) {
    let mut secret = [0u8; 32];
    match rand_core::OsRng.try_fill_bytes(&mut secret) {
        Ok(()) => Some(secret),
        Err(_) => None,
    }
}

/// `ed25519_dalek::SigningKey::verifying_key` (from the secret bytes, to the
/// public bytes). The result is the compression of a curve point, so it
/// decodes again as a public key.
#[verifier::external_body]
pub(crate) fn ed25519_public_key_of(secret: &[u8; 32]) -> (res: [u8; 32])
    ensures
        res@ == ed25519_public_key(secret@),
        ed25519_key_decodes(res@),
{
    ed25519_dalek::SigningKey::from_bytes(secret).verifying_key().to_bytes()
}

/// `ed25519_dalek::VerifyingKey::from_bytes`, reporting whether it succeeds.
#[verifier::external_body]
pub(crate) fn ed25519_key_valid(public: &[u8; 32]) -> (res: bool)
    ensures
        res == ed25519_key_decodes(public@),
{
    ed25519_dalek::VerifyingKey::from_bytes(public).is_ok()
}

/// `<ed25519_dalek::SigningKey as Signer>::sign` (from the secret bytes, to the
/// signature bytes). Signing is deterministic, and a signature made this way
/// is accepted by verification under the matching public key.
#[verifier::external_body]
pub(crate) fn ed25519_sign(secret: &[u8; 32], msg: &[u8]) -> (res: [u8; 64])
    ensures
        res@ == ed25519_signature(secret@, msg@),
        ed25519_accepts(ed25519_public_key(secret@), msg@, res@),
{
    ed25519_dalek::SigningKey::from_bytes(secret).sign(msg).to_bytes()
}

/// `<ed25519_dalek::VerifyingKey as Verifier>::verify`, reporting whether it
/// returns `Ok`, for a public key that decodes.
#[verifier::external_body]
pub(crate) fn ed25519_verify(public: &[u8; 32], msg: &[u8], sig: &[u8; 64]) -> (res: bool)
    requires
        ed25519_key_decodes(public@),
    ensures
        res == ed25519_accepts(public@, msg@, sig@),
{
    match ed25519_dalek::VerifyingKey::from_bytes(public) {
        Ok(vk) => vk.verify(msg, &ed25519_dalek::Signature::from_bytes(sig)).is_ok(),
        Err(_) => false,
    }
}

} // verus!
