//! The password hasher: salted argon2 hashes in the self-describing PHC
//! string format, behind trusted wrappers.
//!
//! Hashing draws a fresh random salt per call, so nothing relates two hashes
//! of the same secret; what is relied on is that a hash verifies against the
//! secret it was derived from, that hashing an in-bounds secret always
//! succeeds with a short well-formed hash string, and that verification is a
//! function of the secret and the stored hash string alone.

use vstd::prelude::*;
use crate::SucError;

verus! {

/// What argon2's password verification, with the default `Argon2` instance,
/// concludes for a secret and the bytes of a stored hash string: `true`
/// exactly when the bytes are a parseable PHC hash string whose digest the
/// secret reproduces. The algorithm, version, parameters and salt are all
/// read from the hash string itself and the digest is recomputed
/// deterministically, so the outcome is a function of the two arguments
/// alone.
pub uninterp spec fn verifies(secret: Seq<u8>, hash: Seq<u8>) -> bool;

/// Whether the verification path accepts the bytes as a well-formed argon2
/// hash string: they are UTF-8, parse as a PHC string, and carry an
/// algorithm, version, parameters and salt that argon2 accepts, so that
/// verifying any secret of at most 255 bytes against them concludes with a
/// match or a digest mismatch, never a fault. Every acceptance check reads
/// the hash bytes alone — the secret enters only the digest comparison — so
/// this is a function of the bytes alone.
pub uninterp spec fn wf_hash(hash: Seq<u8>) -> bool;

/// Relies on argon2's `hash_password_simple` with `Argon2::default()` and a
/// fresh random `SaltString`. The call cannot fail for a secret within the
/// store's 255-byte limit: its only error conditions are an over-long
/// password (far above 255 bytes), a malformed salt (the generated salt is
/// 16 random bytes, B64-encoded) and invalid parameters (the defaults are
/// valid). The returned PHC string embeds the salt and parameters it was
/// computed with, so it is well-formed for verification and verifying it
/// against the same secret recomputes the same digest and succeeds; its
/// shape is fixed by the defaults (a 22-character salt and a 43-character
/// digest, about 96 bytes in all), well within the 255-byte value limit.
#[verifier::external_body]
pub(crate) fn hash_secret(secret: &[u8]) -> (r: Result<Vec<u8>, SucError>)
    requires
        secret@.len() <= 255,
    ensures
        r is Ok,
        r matches Ok(h) ==> verifies(secret@, h@) && wf_hash(h@) && h@.len() <= 255,
{
    let salt = argon2::password_hash::SaltString::generate(&mut rand::rngs::OsRng);
    let hasher = argon2::Argon2::default();
    match argon2::PasswordHasher::hash_password_simple(&hasher, secret, salt.as_ref()) {
        Ok(h) => Ok(h.to_string().into_bytes()),
        Err(_) => Err(SucError::HashingFault),
    }
}

/// Relies on password-hash's `PasswordHash::new` and argon2's
/// `verify_password` with `Argon2::default()`: a digest mismatch is the
/// distinct error `Password` and yields `Ok(false)`; an unparseable or
/// otherwise rejected hash string is a fault, never reported as a wrong
/// secret. A verification that concludes at all went through every
/// acceptance check on the hash bytes, and those checks fail for every
/// in-bounds secret alike, so an `Ok` shows the hash well-formed and a
/// fault on an in-bounds secret shows it malformed.
#[verifier::external_body]
pub(crate) fn verify_secret(secret: &[u8], hash: &[u8]) -> (r: Result<bool, SucError>)
    ensures
        r matches Ok(b) ==> b == verifies(secret@, hash@) && wf_hash(hash@),
        r matches Err(e) ==> e == SucError::HashingFault && !verifies(secret@, hash@) && !(
        secret@.len() <= 255 && wf_hash(hash@)),
{
    let text = match core::str::from_utf8(hash) {
        Ok(t) => t,
        Err(_) => return Err(SucError::HashingFault),
    };
    let parsed = match argon2::PasswordHash::new(text) {
        Ok(p) => p,
        Err(_) => return Err(SucError::HashingFault),
    };
    let verifier = argon2::Argon2::default();
    match argon2::PasswordVerifier::verify_password(&verifier, secret, &parsed) {
        Ok(()) => Ok(true),
        Err(argon2::password_hash::Error::Password) => Ok(false),
        Err(_) => Err(SucError::HashingFault),
    }
}

} // verus!
