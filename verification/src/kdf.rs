use sha2::Digest;
use vstd::prelude::*;
use vstd::string::StrSliceExecFns;
use vstd::utf8::encode_utf8;

verus! {

/// The SHA-256 digest of a byte sequence: 32 bytes, a function of the input
/// alone.
pub uninterp spec fn sha256_of(data: Seq<u8>) -> Seq<u8>;

/// Relies on sha2::Sha256 (Digest::digest): one SHA-256 digest, 32 bytes,
/// a function of the input bytes alone.
#[verifier::external_body]
fn sha256(data: &[u8]) -> (r: Vec<u8>)
    ensures
        r@ == sha256_of(data@),
        r@.len() == 32,
{
    sha2::Sha256::digest(data).to_vec()
}

/// The derived symmetric key: the SHA-256 digest of the password bytes
/// followed by the salt bytes. A function of its inputs alone, so repeated
/// derivations from the same password and salt agree.
pub open spec fn spec_derive_key(password: Seq<char>, salt: Seq<u8>) -> Seq<u8> {
    sha256_of(encode_utf8(password) + salt)
}

/// Derives the 32-byte symmetric key from the master password and the salt.
pub fn derive_key(master_password: &str, salt: &[u8]) -> (r: Vec<u8>)
    ensures
        r@ == spec_derive_key(master_password@, salt@),
        r@.len() == 32,
{
    let mut buf = master_password.as_bytes_vec();
    buf.extend_from_slice(salt);
    proof {
        assert(buf@ == encode_utf8(master_password@) + salt@);
    }
    sha256(buf.as_slice())
}

/// Key derivation is deterministic: two keys derived from the same password
/// and salt are the same key.
pub proof fn lemma_derive_key_deterministic(
    k1: Seq<u8>,
    k2: Seq<u8>,
    password: Seq<char>,
    salt: Seq<u8>,
)
    requires
        k1 == spec_derive_key(password, salt),
        k2 == spec_derive_key(password, salt),
    ensures
        k1 == k2,
{
}

} // verus!
