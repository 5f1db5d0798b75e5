use tesseract::cipher::{generate, Cipher, KEY_LEN, NONCE_LEN};
use tesseract::TesseractError;

#[test]
fn generate_gives_the_length_asked_and_fresh_bytes() {
    let a = generate(32).unwrap();
    let b = generate(32).unwrap();
    assert_eq!(a.len(), 32);
    assert_ne!(a, b);
    assert_eq!(generate(0).unwrap().len(), 0);
}

#[test]
fn direct_round_trip_with_a_32_byte_passphrase() {
    let key = generate(32).unwrap();
    let c = Cipher::direct_encrypt(b"hello", &key).unwrap();
    assert_eq!(c.len(), 5 + 16 + NONCE_LEN);
    assert_ne!(&c[..5], b"hello");
    assert_eq!(Cipher::direct_decrypt(&c, &key).unwrap(), b"hello".to_vec());
}

#[test]
fn direct_round_trip_with_a_short_passphrase() {
    let c = Cipher::direct_encrypt(b"hello", b"pw").unwrap();
    assert_eq!(Cipher::direct_decrypt(&c, b"pw").unwrap(), b"hello".to_vec());
    assert_eq!(Cipher::direct_decrypt(&c, b"pv"), Err(TesseractError::DecryptionError));
}

#[test]
fn nonces_differ_between_encryptions() {
    let a = Cipher::direct_encrypt(b"same", b"pw").unwrap();
    let b = Cipher::direct_encrypt(b"same", b"pw").unwrap();
    assert_ne!(a, b);
}

#[test]
fn tampered_ciphertext_is_refused() {
    let mut c = Cipher::direct_encrypt(b"hello", b"pw").unwrap();
    c[0] ^= 1;
    assert_eq!(Cipher::direct_decrypt(&c, b"pw"), Err(TesseractError::DecryptionError));
}

#[test]
fn short_data_is_refused() {
    assert_eq!(Cipher::direct_decrypt(&[1, 2, 3], b"pw"), Err(TesseractError::DecryptionError));
    assert_eq!(Cipher::self_decrypt(&[0u8; 31]), Err(TesseractError::DecryptionError));
}

#[test]
fn encrypt_with_nonce_appends_the_nonce() {
    let nonce = [7u8; 12];
    let c = Cipher::encrypt_with_nonce(b"abc", b"pw", &nonce).unwrap();
    assert_eq!(&c[c.len() - NONCE_LEN..], &nonce);
    let again = Cipher::encrypt_with_nonce(b"abc", b"pw", &nonce).unwrap();
    assert_eq!(c, again);
}

#[test]
fn self_round_trip() {
    let c = Cipher::self_encrypt(b"passphrase").unwrap();
    assert_eq!(c.len(), 10 + 16 + NONCE_LEN + KEY_LEN);
    assert_eq!(Cipher::self_decrypt(&c).unwrap(), b"passphrase".to_vec());
}

#[test]
fn self_encrypt_with_is_deterministic_and_appends_the_key() {
    let key = [3u8; 32];
    let nonce = [9u8; 12];
    let c = Cipher::self_encrypt_with(b"secret", &key, &nonce).unwrap();
    assert_eq!(c, Cipher::self_encrypt_with(b"secret", &key, &nonce).unwrap());
    assert_eq!(&c[c.len() - KEY_LEN..], &key);
    assert_eq!(&c[c.len() - KEY_LEN - NONCE_LEN..c.len() - KEY_LEN], &nonce);
    assert_eq!(Cipher::self_decrypt(&c).unwrap(), b"secret".to_vec());
}
