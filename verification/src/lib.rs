//! A local secrets vault: credential entries encrypted at rest behind a
//! single master password.
//!
//! The vault document holds a salted one-way hash of the master password, a
//! salt for key derivation, an ordered list of encrypted entries and an
//! ordered list of categories. Every operation that touches a secret first
//! verifies the master password, derives the symmetric key from it, and
//! encrypts or decrypts the secret field; reading and writing the document
//! itself is left to the caller.

pub mod auth;
pub mod blockcipher;
pub mod errors;
pub mod hexcodec;
pub mod kdf;
pub mod service;
pub mod textenc;
pub mod vault;
