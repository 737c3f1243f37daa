use vstd::prelude::*;

verus! {

// The credential hasher: salted, adaptive one-way hashing of passwords. The
// round trip — a digest fresh from `hash_password` verifies against the same
// password — is the contract the login path rests on. A mismatching digest
// verifies false; a structurally invalid digest verifies false rather than
// raising; a hashing failure is reported, never treated as success.

/// The adaptive cost factor for stored credentials.
pub const HASH_COST: u32 = 12;

/// What `bcrypt::verify` decides for a password and a digest: `Some(b)` with
/// the outcome of the constant-time comparison, `None` where the digest does
/// not parse as a bcrypt hash string. Deterministic in its inputs.
pub uninterp spec fn bcrypt_check(pwd: Seq<char>, digest: Seq<char>) -> Option<bool>;

/// True exactly when bcrypt accepts the password against the digest.
pub open spec fn digest_matches(pwd: Seq<char>, digest: Seq<char>) -> bool {
    bcrypt_check(pwd, digest) == Some(true)
}

/// Relies on `bcrypt::hash`: a fresh random salt goes into the digest, so
/// nothing is stated of the digest's spelling beyond its 60-character
/// hash-string format — and on the round trip that `bcrypt::verify` shows in
/// its source: it re-derives the digest from the password and the cost and
/// salt carried in the hash string, so a digest fresh from `bcrypt::hash`
/// verifies true against the password it was made from.
#[verifier::external_body]
fn bcrypt_hash(password: &str, cost: u32) -> (r: Result<String, ()>)
    ensures
        r is Ok ==> bcrypt_check(password@, r->Ok_0@) == Some(true),
        r is Ok ==> r->Ok_0@.len() == 60,
{
    match bcrypt::hash(password, cost) {
        Ok(h) => Ok(h),
        Err(_) => Err(()),
    }
}

/// Relies on `bcrypt::verify`: deterministic in password and digest; an
/// error comes exactly where the digest does not parse as a bcrypt hash
/// string, never from the password.
#[verifier::external_body]
fn bcrypt_verify(password: &str, digest: &str) -> (r: Result<bool, ()>)
    ensures
        match r {
            Ok(b) => bcrypt_check(password@, digest@) == Some(b),
            Err(_) => bcrypt_check(password@, digest@) is None,
        },
{
    match bcrypt::verify(password, digest) {
        Ok(b) => Ok(b),
        Err(_) => Err(()),
    }
}

/// Hashes a password for storage. A digest this returns verifies against the
/// password it was made from.
pub fn hash_password(password: &str) -> (r: Option<String>)
    ensures
        r is Some ==> digest_matches(password@, r->0@) && r->0@.len() == 60,
{
    match bcrypt_hash(password, HASH_COST) {
        Ok(h) => Some(h),
        Err(()) => None,
    }
}

/// Verifies a password against a stored digest: true exactly when bcrypt
/// accepts the pair; false on mismatch and on a structurally invalid digest,
/// never an error.
pub fn verify_password(password: &str, digest: &str) -> (r: bool)
    ensures
        r == digest_matches(password@, digest@),
{
    match bcrypt_verify(password, digest) {
        Ok(b) => b,
        Err(()) => false,
    }
}

} // verus!
