//! The outside functions this library relies on, with the contracts assumed of them.
use vstd::prelude::*;
use vstd::utf8::{decode_utf8, valid_utf8};
use aes_gcm::aead::{Aead, KeyInit};
use sha2::Digest;
use zeroize::Zeroize;
use std::collections::{BTreeMap, HashMap};
use crate::entries::{keys_distinct, pairs_map};

verus! {

/// `aes_gcm::Error`, the opaque failure of an AEAD operation.
#[verifier::external_type_specification]
#[verifier::external_body]
pub struct ExAeadError(aes_gcm::Error);

/// `getrandom::Error`, the failure to obtain randomness from the system.
#[verifier::external_type_specification]
#[verifier::external_body]
pub struct ExRandomError(getrandom::Error);

/// `serde_json::Error`, the failure to parse JSON into the expected shape.
#[verifier::external_type_specification]
#[verifier::external_body]
pub struct ExJsonError(serde_json::Error);

/// The map from string keys to byte strings that `serde_json::from_slice`
/// parses from `json`, or `None` where it fails.
pub uninterp spec fn json_entries(json: Seq<u8>) -> Option<Map<Seq<char>, Seq<u8>>>;

/// The JSON text `serde_json::to_vec` writes for a map from string keys to
/// byte strings, taken in key order.
pub uninterp spec fn entries_json(entries: Map<Seq<char>, Seq<u8>>) -> Seq<u8>;

/// The SHA-256 digest of a byte string (`sha2::Sha256::digest`).
pub uninterp spec fn sha256_digest(data: Seq<u8>) -> Seq<u8>;

/// The AES-256-GCM ciphertext (tag appended, no associated data) of `plaintext`
/// under `key` and `nonce` (`aes_gcm::Aes256Gcm::encrypt`).
pub uninterp spec fn aes256gcm_seal(key: Seq<u8>, nonce: Seq<u8>, plaintext: Seq<u8>) -> Seq<u8>;

/// What AES-256-GCM decryption of `ciphertext` under `key` and `nonce` yields:
/// the plaintext, or `None` when the tag does not authenticate
/// (`aes_gcm::Aes256Gcm::decrypt`).
pub uninterp spec fn aes256gcm_open(key: Seq<u8>, nonce: Seq<u8>, ciphertext: Seq<u8>) -> Option<Seq<u8>>;

/// The characters `String::from_utf8_lossy` makes of a byte string.
pub uninterp spec fn utf8_lossy(bytes: Seq<u8>) -> Seq<char>;

/// What `String::from_utf8_lossy` makes of a byte string: the exact decoding
/// of valid UTF-8, the named lossy decoding otherwise.
pub open spec fn lossy_utf8(bytes: Seq<u8>) -> Seq<char> {
    if valid_utf8(bytes) {
        decode_utf8(bytes)
    } else {
        utf8_lossy(bytes)
    }
}

/// The largest plaintext, in bytes, that AES-GCM encrypts (`aes_gcm::P_MAX`).
pub open spec fn aes_gcm_max_plaintext() -> int {
    68719476736
}

/// Calls `sha2::Sha256::digest`. Claimed: the result is the named SHA-256
/// digest of the input, 32 bytes long.
#[verifier::external_body]
pub fn sha256(data: &[u8]) -> (digest: Vec<u8>)
    ensures
        digest@ == sha256_digest(data@),
        digest@.len() == 32,
{
    sha2::Sha256::digest(data).to_vec()
}

/// Calls `aes_gcm::Aes256Gcm::encrypt` with no associated data. Claimed: the
/// call succeeds exactly when the plaintext is at most `P_MAX` bytes; its
/// ciphertext is the named sealing of the arguments, and decryption under the
/// same key and nonce gives the plaintext back.
#[verifier::external_body]
pub fn aes256gcm_encrypt(key: &[u8], nonce: &[u8], plaintext: &[u8]) -> (r: Result<Vec<u8>, aes_gcm::Error>)
    requires
        key@.len() == 32,
        nonce@.len() == 12,
    ensures
        r is Ok <==> plaintext@.len() <= aes_gcm_max_plaintext(),
        r matches Ok(c) ==> c@ == aes256gcm_seal(key@, nonce@, plaintext@),
        r matches Ok(c) ==> aes256gcm_open(key@, nonce@, c@) == Some(plaintext@),
{
    let cipher = aes_gcm::Aes256Gcm::new(aes_gcm::Key::<aes_gcm::Aes256Gcm>::from_slice(key));
    cipher.encrypt(aes_gcm::Nonce::from_slice(nonce), plaintext)
}

/// Calls `aes_gcm::Aes256Gcm::decrypt` with no associated data. Claimed: it
/// returns the named opening of the arguments, failing exactly when that is `None`.
#[verifier::external_body]
pub fn aes256gcm_decrypt(key: &[u8], nonce: &[u8], ciphertext: &[u8]) -> (r: Result<Vec<u8>, aes_gcm::Error>)
    requires
        key@.len() == 32,
        nonce@.len() == 12,
    ensures
        match r {
            Ok(p) => aes256gcm_open(key@, nonce@, ciphertext@) == Some(p@),
            Err(_) => aes256gcm_open(key@, nonce@, ciphertext@) is None,
        },
{
    let cipher = aes_gcm::Aes256Gcm::new(aes_gcm::Key::<aes_gcm::Aes256Gcm>::from_slice(key));
    cipher.decrypt(aes_gcm::Nonce::from_slice(nonce), ciphertext)
}

/// Calls `getrandom::getrandom` on a zeroed buffer of `len` bytes. The bytes
/// are random, so nothing is claimed of them but their number; whether the
/// system supplies randomness is not claimed either.
#[verifier::external_body]
pub fn random_bytes(len: usize) -> (r: Result<Vec<u8>, getrandom::Error>)
    ensures
        r matches Ok(v) ==> v@.len() == len,
{
    let mut buf = vec![0u8; len];
    getrandom::getrandom(&mut buf)?;
    Ok(buf)
}

/// Calls `String::from_utf8_lossy`. Claimed: on valid UTF-8 the result is the
/// exact decoding (the standard library documents that valid input is returned
/// unchanged); on other input it is the named lossy decoding.
#[verifier::external_body]
pub fn utf8_lossy_string(bytes: &[u8]) -> (s: String)
    ensures
        s@ == (if valid_utf8(bytes@) { decode_utf8(bytes@) } else { utf8_lossy(bytes@) }),
{
    String::from_utf8_lossy(bytes).into_owned()
}

/// Calls `serde_json::from_slice` to parse a JSON object mapping strings to
/// byte arrays into a `HashMap<String, Vec<u8>>`, handed out as pairs.
/// Claimed: it succeeds exactly when the named parse does, and the pairs,
/// one per key, are that map.
#[verifier::external_body]
pub fn parse_entries(json: &[u8]) -> (r: Result<Vec<(String, Vec<u8>)>, serde_json::Error>)
    ensures
        r is Ok <==> json_entries(json@) is Some,
        r matches Ok(v) ==> keys_distinct(v@) && json_entries(json@) == Some(pairs_map(v@)),
{
    serde_json::from_slice::<HashMap<String, Vec<u8>>>(json).map(|m| m.into_iter().collect())
}

/// Calls `serde_json::to_vec` on the pairs, which have distinct keys,
/// gathered into a `BTreeMap` so that keys are written in order. Claimed: the
/// result is the named JSON text of the map the pairs denote; writing it
/// succeeds, as serde_json documents that serialising fails only for a
/// failing `Serialize` impl or non-string map keys; and `serde_json::from_slice`
/// into a map parses it back to that map (each key is written as a JSON
/// string and each value as an array of its bytes, which is what the
/// parse reads).
#[verifier::external_body]
pub fn write_entries_json(pairs: &Vec<(String, Vec<u8>)>) -> (r: Result<Vec<u8>, serde_json::Error>)
    requires
        keys_distinct(pairs@),
    ensures
        r is Ok,
        r matches Ok(json) ==> json@ == entries_json(pairs_map(pairs@)),
        r matches Ok(json) ==> json_entries(json@) == Some(pairs_map(pairs@)),
{
    serde_json::to_vec(&pairs.iter().cloned().collect::<BTreeMap<String, Vec<u8>>>())
}

/// Calls `zeroize::Zeroize::zeroize` on a byte vector, which overwrites its
/// bytes with zeroes and then clears it. Claimed: the vector is empty afterwards.
#[verifier::external_body]
pub fn zeroize_bytes(v: &mut Vec<u8>)
    ensures
        final(v)@ == Seq::<u8>::empty(),
{
    v.zeroize();
}

} // verus!
