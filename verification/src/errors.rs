use vstd::prelude::*;

verus! {

/// Failure of a single encrypt or decrypt operation.
#[derive(Clone, Copy, Debug, PartialEq, Eq, Structural)]
pub enum CipherError {
    /// The ciphertext does not decode to at least one random prefix block
    /// followed by whole cipher blocks.
    InvalidCiphertext,
    /// The decrypted, depadded bytes are not valid text.
    InvalidUtf8,
    /// The key is not exactly `KEY_LEN` bytes.
    KeyError,
}

/// Failure of a vault lifecycle or CRUD operation.
#[derive(Clone, Copy, Debug, PartialEq, Eq, Structural)]
pub enum VaultError {
    /// Initialization was asked for while a vault document already exists.
    AlreadyExists,
    /// The vault document, an entry or a category is absent.
    NotFound,
    /// The supplied master password does not match the stored hash.
    AuthFailure,
    /// The stored document does not have the expected shape.
    Corrupt,
    /// A hash or cipher primitive failed.
    CryptoFailure,
    /// Reading or writing the document failed.
    IoError,
}

} // verus!
