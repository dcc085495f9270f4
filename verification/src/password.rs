use vstd::prelude::*;

use crate::error::Error;

use argon2::password_hash::{PasswordHash, SaltString};
use argon2::Argon2;

verus! {

/// Whether `digest` parses as a well-formed PHC password-hash string.
///
/// Deterministic in the digest alone; named by the trusted items below.
pub uninterp spec fn digest_well_formed(digest: Seq<char>) -> bool;

/// Whether recomputing the hash of `password` under the parameters and salt
/// embedded in `digest` reproduces the digest's hash output.
///
/// Deterministic in the two arguments alone; named by the trusted items
/// below.
pub uninterp spec fn digest_matches(digest: Seq<char>, password: Seq<char>) -> bool;

/// The outcome of checking a plaintext password against a stored digest.
#[derive(Debug, Clone, Copy, PartialEq, Eq, Structural)]
pub enum VerifyOutcome {
    /// The password reproduces the digest.
    Match,
    /// The digest is well-formed but the password does not reproduce it.
    Mismatch,
    /// The stored digest is not a well-formed PHC string (data corruption).
    MalformedDigest,
}

/// Whether a password is within the hasher's input cap.
///
/// Argon2 rejects a password above 2^32 - 1 bytes; this bound on the
/// character count leaves a factor of four for UTF-8 expansion, so any
/// password within it is hashable. No realistic password comes near it.
pub open spec fn password_within_limit(p: Seq<char>) -> bool {
    p.len() <= 0x3fffffff
}

/// Relies on password_hash's `SaltString::generate` — every outcome of the
/// random draw is a fresh, canonically B64-encoded 16-byte salt — and on
/// argon2's `PasswordHash::generate` with the default Argon2 parameters:
/// with such a salt it succeeds for every password within the 2^32-byte
/// input cap, and the returned PHC string embeds the salt and parameters it
/// was computed under, so it parses back and re-verifying the same password
/// against it succeeds (the crate's PHC round-trip invariant).
#[verifier::external_body]
fn argon2_generate(password: &str) -> (r: Result<String, ()>)
    ensures
        r matches Ok(d) ==> digest_well_formed(d@) && digest_matches(d@, password@),
        password_within_limit(password@) ==> r is Ok,
{
    let salt = SaltString::generate(rand::thread_rng());
    match PasswordHash::generate(Argon2::default(), password, salt.as_str()) {
        Ok(h) => Ok(h.to_string()),
        Err(_) => Err(()),
    }
}

/// Relies on password_hash's `PasswordHash::new` (fails exactly on a
/// malformed PHC string) and `PasswordHash::verify_password` with argon2's
/// verifier, which deterministically recomputes the hash from the digest's
/// own salt and parameters and compares in constant time.
#[verifier::external_body]
fn argon2_check(password: &str, digest: &str) -> (r: VerifyOutcome)
    ensures
        (r == VerifyOutcome::MalformedDigest) == !digest_well_formed(digest@),
        (r == VerifyOutcome::Match) == (digest_well_formed(digest@) && digest_matches(
            digest@,
            password@,
        )),
        (r == VerifyOutcome::Mismatch) == (digest_well_formed(digest@) && !digest_matches(
            digest@,
            password@,
        )),
{
    match PasswordHash::new(digest) {
        Err(_) => VerifyOutcome::MalformedDigest,
        Ok(h) => match h.verify_password(&[&Argon2::default()], password) {
            Ok(()) => VerifyOutcome::Match,
            Err(_) => VerifyOutcome::Mismatch,
        },
    }
}

/// Check a plaintext password against a stored digest.
pub fn verify(password: &str, digest: &str) -> (r: VerifyOutcome)
    ensures
        r is MalformedDigest <==> !digest_well_formed(digest@),
        r is Match <==> digest_well_formed(digest@) && digest_matches(digest@, password@),
        r is Mismatch <==> digest_well_formed(digest@) && !digest_matches(digest@, password@),
{
    argon2_check(password, digest)
}

/// Attempt to hash a password using Argon2.
///
/// Hashing is deliberately slow and memory-hard; the surrounding program must
/// run this off any latency-critical scheduling path.
pub fn hash_password(password: &str) -> (r: Result<String, Error>)
    ensures
        r matches Ok(d) ==> digest_well_formed(d@) && digest_matches(d@, password@),
        r matches Err(e) ==> e matches Error::Internal(_),
        password_within_limit(password@) ==> r is Ok,
{
    match argon2_generate(password) {
        Ok(d) => Ok(d),
        Err(_) => Err(Error::Internal("failed to generate password hash".to_owned())),
    }
}

/// The credential round-trip law: a digest freshly produced for a password
/// verifies as a `Match` for that same password, whenever hashing succeeds.
/// The digest is handed back for storage.
pub fn hash_verifies(password: &str) -> (r: Result<(String, VerifyOutcome), Error>)
    ensures
        r matches Ok(p) ==> (p.1 is Match && digest_well_formed(p.0@) && digest_matches(
            p.0@,
            password@,
        )),
        password_within_limit(password@) ==> r is Ok,
{
    let digest = hash_password(password)?;
    let outcome = verify(password, digest.as_str());
    Ok((digest, outcome))
}

/// Verify that a password digest matches plaintext.
///
/// A mismatch is a normal authentication failure; a malformed stored digest
/// is surfaced as an internal error so operators can tell data corruption
/// from a wrong password.
pub fn verify_password(password: &str, digest: &str) -> (r: Result<(), Error>)
    ensures
        r is Ok <==> digest_well_formed(digest@) && digest_matches(digest@, password@),
        (digest_well_formed(digest@) && !digest_matches(digest@, password@)) <==> r == Err::<
            (),
            Error,
        >(Error::IncorrectPassword),
        !digest_well_formed(digest@) ==> (r matches Err(e) && e matches Error::Internal(_)),
{
    match verify(password, digest) {
        VerifyOutcome::Match => Ok(()),
        VerifyOutcome::Mismatch => Err(Error::IncorrectPassword),
        VerifyOutcome::MalformedDigest => Err(
            Error::Internal("invalid stored password hash".to_owned()),
        ),
    }
}

} // verus!
