use vstd::prelude::*;
use vstd::string::StringSliceAdditionalSpecFns;

use crate::errors::VaultError;

verus! {

/// Whether a password matches a bcrypt hash string: the outcome of
/// recomputing the bcrypt digest with the hash's own salt and cost and
/// comparing. A function of the password bytes and the hash alone.
pub uninterp spec fn bcrypt_matches(password: Seq<u8>, hash: Seq<char>) -> bool;

/// Whether a string is a well-formed bcrypt hash (60 ASCII characters in an
/// accepted format with an allowed cost): exactly the strings on which
/// bcrypt::verify does not fail. A function of the hash alone.
pub uninterp spec fn bcrypt_hash_wellformed(hash: Seq<char>) -> bool;

/// Relies on bcrypt::hash: with the default cost it fails only when the
/// system random source does, and on success yields a 60-character
/// well-formed hash string that bcrypt::verify matches against the same
/// password.
#[verifier::external_body]
fn bcrypt_hash(password: &str) -> (r: Option<String>)
    ensures
        r is Some ==> bcrypt_hash_wellformed(r->0@),
        r is Some ==> bcrypt_matches(password.spec_bytes(), r->0@),
        r is Some ==> r->0@.len() == 60,
{
    bcrypt::hash(password, bcrypt::DEFAULT_COST).ok()
}

/// Relies on bcrypt::verify: it fails exactly on malformed hash strings and
/// otherwise reports whether the password matches the hash.
#[verifier::external_body]
fn bcrypt_verify(password: &str, hash: &str) -> (r: Option<bool>)
    ensures
        r is Some <==> bcrypt_hash_wellformed(hash@),
        r is Some ==> r->0 == bcrypt_matches(password.spec_bytes(), hash@),
{
    bcrypt::verify(password, hash).ok()
}

/// The outcome of `verify_master_password`, as a function of the password
/// bytes and the stored hash.
pub open spec fn spec_verify_master_password(password: Seq<u8>, hash: Seq<char>) -> Result<
    bool,
    VaultError,
> {
    if bcrypt_hash_wellformed(hash) {
        Ok(bcrypt_matches(password, hash))
    } else {
        Err(VaultError::CryptoFailure)
    }
}

/// Hashes the master password into a salted, self-contained one-way hash,
/// independent of the key-derivation salt. Fails only when the hashing
/// primitive does.
pub fn hash_master_password(password: &str) -> (r: Result<String, VaultError>)
    ensures
        r is Ok ==> bcrypt_hash_wellformed(r->Ok_0@),
        r is Ok ==> bcrypt_matches(password.spec_bytes(), r->Ok_0@),
        r is Ok ==> r->Ok_0@.len() == 60,
        r is Err ==> r->Err_0 == VaultError::CryptoFailure,
{
    match bcrypt_hash(password) {
        Some(h) => Ok(h),
        None => Err(VaultError::CryptoFailure),
    }
}

/// Verifies the master password against a stored hash: false on mismatch,
/// an error only on a malformed hash string.
pub fn verify_master_password(password: &str, hash: &str) -> (r: Result<bool, VaultError>)
    ensures
        r == spec_verify_master_password(password.spec_bytes(), hash@),
{
    match bcrypt_verify(password, hash) {
        Some(b) => Ok(b),
        None => Err(VaultError::CryptoFailure),
    }
}

/// A hash produced from a password verifies against that password: what
/// `hash_master_password` ensures of its output is exactly what makes
/// `verify_master_password` report a match.
pub proof fn lemma_hash_then_verify(password: Seq<u8>, hash: Seq<char>)
    requires
        bcrypt_hash_wellformed(hash),
        bcrypt_matches(password, hash),
    ensures
        spec_verify_master_password(password, hash) == Ok::<bool, VaultError>(true),
{
}

/// A password that does not match a well-formed stored hash is reported as
/// a mismatch, never as an error. That a password other than the hashed one
/// fails to match is the hash's collision resistance, an outside fact no
/// contract states; it stands here as the hypothesis.
pub proof fn lemma_verify_rejects_nonmatching(password: Seq<u8>, hash: Seq<char>)
    requires
        bcrypt_hash_wellformed(hash),
        !bcrypt_matches(password, hash),
    ensures
        spec_verify_master_password(password, hash) == Ok::<bool, VaultError>(false),
{
}

} // verus!
