use argon2::PasswordHasher;
use argon2::PasswordVerifier;
use vstd::prelude::*;

verus! {

/// Whether `password` matches the self-describing hash string `hash`:
/// the digest recomputed with the algorithm, parameters and salt
/// embedded in `hash` equals the digest it carries. This depends on the
/// two arguments alone, so the outside calls below are specified
/// through this one name.
pub uninterp spec fn password_matches(password: Seq<u8>, hash: Seq<char>) -> bool;

/// Hashes `password` with a freshly drawn random salt into a
/// self-describing string; `None` only on an internal algorithm or
/// RNG error, never because of the password's content being a mismatch.
///
/// Relies on `argon2::Argon2::hash_password` (through the
/// `password_hash::PasswordHasher` trait): the returned string embeds
/// the algorithm id, its parameters, the salt and the digest, and
/// `Argon2::verify_password` accepts the same password against it. The
/// salt is random, so nothing more is promised of the string itself.
#[verifier::external_body]
pub fn hash_password(password: &Vec<u8>) -> (r: Option<String>)
    ensures
        match r {
            Some(h) => password_matches(password@, h@),
            None => true,
        },
{
    match argon2::Argon2::default().hash_password(password.as_slice()) {
        Ok(h) => Some(h.to_string()),
        Err(_) => None,
    }
}

/// Recomputes the digest of `password` under the parameters and salt
/// embedded in `hash` and compares in constant time. A mismatch — or a
/// hash string that does not parse — is an ordinary `false`, never a
/// failure.
///
/// Relies on `argon2::Argon2::verify_password` (through the
/// `password_hash::PasswordVerifier<str>` trait), which returns `Ok`
/// exactly when the recomputed digest equals the embedded one.
#[verifier::external_body]
pub fn verify_password(password: &Vec<u8>, hash: &String) -> (r: bool)
    ensures
        r == password_matches(password@, hash@),
{
    argon2::Argon2::default().verify_password(password.as_slice(), hash.as_str()).is_ok()
}

} // verus!
