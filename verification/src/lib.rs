//! A key store that keeps string values encrypted under a passphrase.
//!
//! `Tesseract` holds named entries, each the authenticated encryption of a
//! UTF-8 value under the passphrase that unlocked the store. The passphrase
//! itself is kept only in self-encrypted form while the store is unlocked and
//! is wiped when it is locked.

mod primitives;

pub mod bytes;
pub mod cipher;
pub mod entries;
pub mod error;
pub mod laws;
pub mod tesseract;

pub use cipher::Cipher;
pub use error::TesseractError;
pub use tesseract::{Group, Tesseract, TesseractEvent, TesseractView};
