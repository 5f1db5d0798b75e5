use vstd::prelude::*;

verus! {

/// The ways in which an operation on the key store can fail.
#[derive(Debug, Clone, Copy, PartialEq, Eq, Structural)]
pub enum TesseractError {
    /// The store holds no usable passphrase (it is locked or only half unlocked).
    TesseractLocked,
    /// No entry is stored under the requested key.
    ObjectNotFound,
    /// The passphrase given does not match, or the new passphrase is not new.
    InvalidPassphrase,
    /// Encryption could not be carried out.
    EncryptionError,
    /// Data could not be authenticated and decrypted with the key at hand.
    DecryptionError,
    /// A saved store is not a JSON object mapping keys to byte arrays.
    InvalidJson,
}

} // verus!
