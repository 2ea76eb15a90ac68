//! A local secret store: account records are kept in an encrypted vault file,
//! sealed under a key derived from a master password, with atomic persistence,
//! backup rotation, and a failed-attempt lockout on the session.
#![allow(unused_imports)]
use vstd::prelude::*;

pub mod auth;
pub mod codec;
pub mod crypto;
pub mod generator;
pub mod models;
pub mod storage;
pub mod vault;

verus! {

/// The error kinds that vault operations report.
///
/// A wrong password and a corrupted vault file both surface as `CryptoError`
/// (the AEAD tag fails to verify in either case); this is deliberate, so that
/// a caller cannot tell how close a wrong guess was.
#[derive(Clone, Copy, Debug, PartialEq, Eq, Structural)]
pub enum PassManError {
    /// Wrong password, not authenticated, or locked out.
    AuthenticationFailed,
    /// Encryption could not be performed.
    EncryptionError,
    /// A filesystem-level failure (short or missing file, write failure).
    StorageError,
    /// An operation addressed a vault that does not exist.
    VaultNotFound,
    /// A record lookup missed.
    AccountNotFound,
    /// Malformed caller-supplied parameters.
    InvalidInput,
    /// An I/O failure reported by the surrounding application.
    IoError,
    /// The document bytes could not be produced or understood.
    SerializationError,
    /// Key derivation or AEAD sealing/opening failed.
    CryptoError,
}

} // verus!
