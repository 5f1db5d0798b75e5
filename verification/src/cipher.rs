//! Authenticated encryption of byte strings under a passphrase.
//!
//! A ciphertext made by [`Cipher::direct_encrypt`] is the AES-256-GCM sealing
//! of the data followed by the 12-byte random nonce it was sealed with. A
//! passphrase of exactly 32 bytes is the AES key itself; any other passphrase
//! is stretched to a key by hashing it together with the nonce.
//!
//! [`Cipher::self_encrypt`] encrypts under a fresh random 32-byte key and
//! appends that key, so that [`Cipher::self_decrypt`] needs nothing else.
use vstd::prelude::*;
use crate::bytes::{concat, sub_bytes};
use crate::error::TesseractError;
use crate::primitives::{
    aes256gcm_decrypt, aes256gcm_encrypt, aes256gcm_open, aes256gcm_seal, aes_gcm_max_plaintext,
    random_bytes, sha256, sha256_digest,
};

verus! {

/// Length in bytes of the nonce appended to every ciphertext.
pub const NONCE_LEN: usize = 12;

/// Length in bytes of an AES-256 key, and of the key appended by `self_encrypt`.
pub const KEY_LEN: usize = 32;

/// The AES key used with `passphrase` for a ciphertext sealed under `nonce`.
pub open spec fn derive_key(passphrase: Seq<u8>, nonce: Seq<u8>) -> Seq<u8> {
    if passphrase.len() == KEY_LEN {
        passphrase
    } else {
        sha256_digest(passphrase + nonce)
    }
}

/// The ciphertext of `data` under `passphrase` with the given nonce.
pub open spec fn seal_with_nonce(data: Seq<u8>, passphrase: Seq<u8>, nonce: Seq<u8>) -> Seq<u8> {
    aes256gcm_seal(derive_key(passphrase, nonce), nonce, data) + nonce
}

/// `c` is the sealing of `data` under `passphrase` with the nonce that ends it.
pub open spec fn sealed_under(c: Seq<u8>, data: Seq<u8>, passphrase: Seq<u8>) -> bool {
    &&& c.len() >= NONCE_LEN
    &&& c == seal_with_nonce(data, passphrase, c.subrange(c.len() - NONCE_LEN, c.len() as int))
}

/// `c` is a sealing of `data` under the 32-byte key that ends it, followed by that key.
pub open spec fn self_sealed(c: Seq<u8>, data: Seq<u8>) -> bool {
    &&& c.len() >= KEY_LEN
    &&& sealed_under(c.subrange(0, c.len() - KEY_LEN), data, c.subrange(c.len() - KEY_LEN, c.len() as int))
}

/// What decrypting `data` under `passphrase` yields: `None` when `data` is too
/// short to hold a nonce or does not authenticate.
pub open spec fn direct_decryption(data: Seq<u8>, passphrase: Seq<u8>) -> Option<Seq<u8>> {
    if data.len() < NONCE_LEN {
        None
    } else {
        let split = data.len() - NONCE_LEN;
        let nonce = data.subrange(split, data.len() as int);
        aes256gcm_open(derive_key(passphrase, nonce), nonce, data.subrange(0, split))
    }
}

/// What self-decrypting `data` yields: the trailing 32 bytes are the key for
/// the ciphertext in front of them.
pub open spec fn self_decryption(data: Seq<u8>) -> Option<Seq<u8>> {
    if data.len() < KEY_LEN {
        None
    } else {
        let split = data.len() - KEY_LEN;
        direct_decryption(data.subrange(0, split), data.subrange(split, data.len() as int))
    }
}

/// The largest data, in bytes, that can be encrypted.
pub open spec fn max_plaintext() -> int {
    aes_gcm_max_plaintext()
}

/// Random bytes, or `None` when the system cannot supply them.
pub fn generate(len: usize) -> (r: Option<Vec<u8>>)
    ensures
        r matches Some(v) ==> v@.len() == len,
{
    match random_bytes(len) {
        Ok(v) => Some(v),
        Err(_) => None,
    }
}

/// Namespace of the encryption operations.
pub struct Cipher;

impl Cipher {
    /// The AES key for `passphrase` and `nonce`.
    fn key_for(passphrase: &[u8], nonce: &[u8]) -> (k: Vec<u8>)
        requires
            nonce@.len() == NONCE_LEN,
        ensures
            k@ == derive_key(passphrase@, nonce@),
            k@.len() == KEY_LEN,
    {
        if passphrase.len() == KEY_LEN {
            vstd::slice::slice_to_vec(passphrase)
        } else {
            let material = concat(passphrase, nonce);
            sha256(material.as_slice())
        }
    }

    /// Encrypts `data` under `passphrase` with the given nonce. Fails exactly
    /// when `data` is longer than the cipher accepts.
    pub fn encrypt_with_nonce(data: &[u8], passphrase: &[u8], nonce: &[u8]) -> (r: Result<Vec<u8>, TesseractError>)
        requires
            nonce@.len() == NONCE_LEN,
        ensures
            r is Ok <==> data@.len() <= max_plaintext(),
            r matches Err(e) ==> e == TesseractError::EncryptionError,
            r matches Ok(c) ==> c@ == seal_with_nonce(data@, passphrase@, nonce@),
            r matches Ok(c) ==> direct_decryption(c@, passphrase@) == Some(data@),
    {
        let key = Self::key_for(passphrase, nonce);
        match aes256gcm_encrypt(key.as_slice(), nonce, data) {
            Ok(sealed) => {
                let out = concat(sealed.as_slice(), nonce);
                proof {
                    let split = out@.len() - NONCE_LEN;
                    assert(out@.subrange(split, out@.len() as int) =~= nonce@);
                    assert(out@.subrange(0, split) =~= sealed@);
                }
                Ok(out)
            },
            Err(_) => Err(TesseractError::EncryptionError),
        }
    }

    /// Encrypts `data` under `passphrase` with a fresh random nonce. Fails only
    /// when `data` is too long or no randomness is available.
    pub fn direct_encrypt(data: &[u8], passphrase: &[u8]) -> (r: Result<Vec<u8>, TesseractError>)
        ensures
            data@.len() > max_plaintext() ==> r is Err,
            r matches Err(e) ==> e == TesseractError::EncryptionError,
            r matches Ok(c) ==> sealed_under(c@, data@, passphrase@),
            r matches Ok(c) ==> direct_decryption(c@, passphrase@) == Some(data@),
    {
        match generate(NONCE_LEN) {
            Some(nonce) => {
                let r = Self::encrypt_with_nonce(data, passphrase, nonce.as_slice());
                proof {
                    if r is Ok {
                        let c = r->Ok_0@;
                        assert(c.subrange(c.len() - NONCE_LEN, c.len() as int) =~= nonce@);
                    }
                }
                r
            },
            None => Err(TesseractError::EncryptionError),
        }
    }

    /// Decrypts `data` under `passphrase`.
    pub fn direct_decrypt(data: &[u8], passphrase: &[u8]) -> (r: Result<Vec<u8>, TesseractError>)
        ensures
            match r {
                Ok(p) => direct_decryption(data@, passphrase@) == Some(p@),
                Err(e) => e == TesseractError::DecryptionError && direct_decryption(data@, passphrase@) is None,
            },
    {
        if data.len() < NONCE_LEN {
            return Err(TesseractError::DecryptionError);
        }
        let split = data.len() - NONCE_LEN;
        let nonce = sub_bytes(data, split, data.len());
        let body = sub_bytes(data, 0, split);
        let key = Self::key_for(passphrase, nonce.as_slice());
        match aes256gcm_decrypt(key.as_slice(), nonce.as_slice(), body.as_slice()) {
            Ok(p) => Ok(p),
            Err(_) => Err(TesseractError::DecryptionError),
        }
    }

    /// Encrypts `data` under the 32-byte `key` with the given nonce and
    /// appends the key. Fails exactly when `data` is longer than the cipher
    /// accepts.
    pub fn self_encrypt_with(data: &[u8], key: &[u8], nonce: &[u8]) -> (r: Result<Vec<u8>, TesseractError>)
        requires
            key@.len() == KEY_LEN,
            nonce@.len() == NONCE_LEN,
        ensures
            r is Ok <==> data@.len() <= max_plaintext(),
            r matches Err(e) ==> e == TesseractError::EncryptionError,
            r matches Ok(c) ==> c@ == seal_with_nonce(data@, key@, nonce@) + key@,
            r matches Ok(c) ==> self_sealed(c@, data@),
            r matches Ok(c) ==> self_decryption(c@) == Some(data@),
    {
        let sealed = Self::encrypt_with_nonce(data, key, nonce)?;
        let out = concat(sealed.as_slice(), key);
        proof {
            let split = out@.len() - KEY_LEN;
            assert(out@.subrange(split, out@.len() as int) =~= key@);
            assert(out@.subrange(0, split) =~= sealed@);
            assert(sealed@.subrange(sealed@.len() - NONCE_LEN, sealed@.len() as int) =~= nonce@);
        }
        Ok(out)
    }

    /// Encrypts `data` under a fresh random key and nonce and appends the
    /// key: draws both, then [`Cipher::self_encrypt_with`]. Fails only when
    /// `data` is too long or no randomness is available.
    pub fn self_encrypt(data: &[u8]) -> (r: Result<Vec<u8>, TesseractError>)
        ensures
            data@.len() > max_plaintext() ==> r is Err,
            r matches Err(e) ==> e == TesseractError::EncryptionError,
            r matches Ok(c) ==> self_sealed(c@, data@),
            r matches Ok(c) ==> self_decryption(c@) == Some(data@),
    {
        let key = match generate(KEY_LEN) {
            Some(k) => k,
            None => return Err(TesseractError::EncryptionError),
        };
        let nonce = match generate(NONCE_LEN) {
            Some(n) => n,
            None => return Err(TesseractError::EncryptionError),
        };
        Self::self_encrypt_with(data, key.as_slice(), nonce.as_slice())
    }

    /// Decrypts what `self_encrypt` produced.
    pub fn self_decrypt(data: &[u8]) -> (r: Result<Vec<u8>, TesseractError>)
        ensures
            match r {
                Ok(p) => self_decryption(data@) == Some(p@),
                Err(e) => e == TesseractError::DecryptionError && self_decryption(data@) is None,
            },
    {
        if data.len() < KEY_LEN {
            return Err(TesseractError::DecryptionError);
        }
        let split = data.len() - KEY_LEN;
        let key = sub_bytes(data, split, data.len());
        let body = sub_bytes(data, 0, split);
        Self::direct_decrypt(body.as_slice(), key.as_slice())
    }
}

} // verus!
