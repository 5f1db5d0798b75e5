use tesseract::cipher::generate;
use tesseract::{Tesseract, TesseractError, TesseractEvent};

const LONG_KEY: &[u8] = b"This is a secret key that will be used for encryption. Totally not 256bit key";

#[test]
pub fn test_default() -> Result<(), TesseractError> {
    let mut tesseract = Tesseract::default();
    let key = generate(32).unwrap();
    tesseract.unlock(&key)?;
    assert!(tesseract.is_unlock());
    tesseract.set("API", "MYKEY")?;
    let data = tesseract.retrieve("API")?;
    assert_eq!(data, String::from("MYKEY"));
    tesseract.lock();
    assert!(!tesseract.is_unlock());
    Ok(())
}

#[test]
pub fn test_with_256bit_passphase() -> Result<(), TesseractError> {
    let mut tesseract = Tesseract::default();
    tesseract.unlock(b"an example very very secret key.")?;
    tesseract.set("API", "MYKEY")?;
    let data = tesseract.retrieve("API")?;
    assert_eq!(data, String::from("MYKEY"));
    Ok(())
}

#[test]
pub fn test_with_non_256bit_passphase() -> Result<(), TesseractError> {
    let mut tesseract = Tesseract::default();
    tesseract.unlock(LONG_KEY)?;
    tesseract.set("API", "MYKEY")?;
    let data = tesseract.retrieve("API")?;
    assert_eq!(data, String::from("MYKEY"));
    Ok(())
}

#[test]
pub fn test_with_invalid_passphrase() -> Result<(), TesseractError> {
    let mut tesseract = Tesseract::default();
    tesseract.unlock(LONG_KEY)?;
    tesseract.set("API", "MYKEY")?;
    let data = tesseract.retrieve("API")?;
    assert_eq!(data, String::from("MYKEY"));
    tesseract.lock();
    tesseract.unlock(b"this is a dif key")?;
    assert!(tesseract.retrieve("API").is_err());
    Ok(())
}

#[test]
pub fn test_with_lock_store_default() -> Result<(), TesseractError> {
    let mut tesseract = Tesseract::default();
    assert!(tesseract.set("API", "MYKEY").is_err());
    Ok(())
}

#[test]
pub fn tesseract_eq() -> Result<(), TesseractError> {
    let mut tesseract = Tesseract::default();
    let key = generate(32).unwrap();
    tesseract.unlock(&key)?;
    assert!(tesseract.is_unlock());
    tesseract.set("API", "MYKEY")?;
    let tess_dup = tesseract.clone();
    assert!(tesseract.same_state(&tess_dup));
    Ok(())
}

#[test]
fn events_follow_unlock_and_lock() {
    let mut tesseract = Tesseract::new();
    assert!(tesseract.take_events().is_empty());
    tesseract.unlock(&generate(32).unwrap()).unwrap();
    assert_eq!(tesseract.take_events(), vec![TesseractEvent::Unlocked]);
    tesseract.lock();
    assert_eq!(tesseract.take_events(), vec![TesseractEvent::Locked]);
    assert!(tesseract.take_events().is_empty());
}

#[test]
fn import_then_export_gives_the_map_back() {
    let key = generate(32).unwrap();
    let map = vec![
        (String::from("API"), String::from("MYKEY")),
        (String::from("OTHER"), String::from("välue ✓")),
    ];
    let tesseract = Tesseract::import(&key, map).unwrap();
    assert!(tesseract.exist("API"));
    assert_eq!(tesseract.retrieve("API").unwrap(), String::from("MYKEY"));
    let mut exported = tesseract.export().unwrap();
    exported.sort();
    assert_eq!(
        exported,
        vec![
            (String::from("API"), String::from("MYKEY")),
            (String::from("OTHER"), String::from("välue ✓")),
        ]
    );
}

#[test]
fn import_keeps_the_last_value_of_a_repeated_key() {
    let map = vec![
        (String::from("K"), String::from("first")),
        (String::from("K"), String::from("second")),
    ];
    let tesseract = Tesseract::import(LONG_KEY, map).unwrap();
    assert_eq!(tesseract.retrieve("K").unwrap(), "second");
    assert_eq!(tesseract.internal_keys().len(), 1);
}

#[test]
fn export_of_a_locked_store_fails() {
    let tesseract = Tesseract::new();
    assert_eq!(tesseract.export(), Err(TesseractError::TesseractLocked));
}

#[test]
fn set_overwrites_and_keeps_other_keys() {
    let mut tesseract = Tesseract::new();
    tesseract.unlock(b"pass").unwrap();
    tesseract.set("A", "1").unwrap();
    tesseract.set("B", "2").unwrap();
    tesseract.set("A", "3").unwrap();
    assert_eq!(tesseract.retrieve("A").unwrap(), "3");
    assert_eq!(tesseract.retrieve("B").unwrap(), "2");
    assert_eq!(tesseract.internal_keys().len(), 2);
}

#[test]
fn retrieve_errors() {
    let mut tesseract = Tesseract::new();
    assert_eq!(tesseract.retrieve("API"), Err(TesseractError::TesseractLocked));
    tesseract.unlock(b"pass").unwrap();
    assert_eq!(tesseract.retrieve("API"), Err(TesseractError::ObjectNotFound));
    tesseract.set("API", "MYKEY").unwrap();
    tesseract.lock();
    assert_eq!(tesseract.retrieve("API"), Err(TesseractError::TesseractLocked));
    tesseract.unlock(b"another pass").unwrap();
    assert_eq!(tesseract.retrieve("API"), Err(TesseractError::DecryptionError));
}

#[test]
fn delete_removes_even_when_locked() {
    let mut tesseract = Tesseract::default();
    tesseract.unlock(&generate(32).unwrap()).unwrap();
    tesseract.set("API", "MYKEY").unwrap();
    assert!(tesseract.exist("API"));
    tesseract.lock();
    assert_eq!(tesseract.delete("API"), Ok(()));
    assert!(!tesseract.exist("API"));
    assert_eq!(tesseract.delete("API"), Err(TesseractError::ObjectNotFound));
}

#[test]
fn clear_removes_everything() {
    let mut tesseract = Tesseract::default();
    tesseract.unlock(&generate(32).unwrap()).unwrap();
    tesseract.set("API", "MYKEY").unwrap();
    tesseract.set("NOT_API", "X").unwrap();
    tesseract.clear();
    assert!(!tesseract.exist("API"));
    assert!(!tesseract.exist("NOT_API"));
    assert!(tesseract.is_unlock());
}

#[test]
fn update_unlock_changes_the_passphrase() {
    let mut tesseract = Tesseract::default();
    tesseract.unlock(b"current_phrase").unwrap();
    tesseract.set("API", "MYKEY").unwrap();
    tesseract.update_unlock(b"current_phrase", b"new_phrase").unwrap();
    let val = tesseract.retrieve("API").unwrap();
    assert_eq!("MYKEY", val);
    tesseract.lock();
    tesseract.enable_key_check();
    assert_eq!(tesseract.unlock(b"current_phrase"), Err(TesseractError::DecryptionError));
    tesseract.unlock(b"new_phrase").unwrap();
    assert_eq!(tesseract.retrieve("API").unwrap(), "MYKEY");
}

#[test]
fn update_unlock_refusals() {
    let mut tesseract = Tesseract::default();
    assert_eq!(tesseract.update_unlock(b"a", b"b"), Err(TesseractError::TesseractLocked));
    tesseract.unlock(b"current").unwrap();
    assert_eq!(tesseract.update_unlock(b"wrong", b"new"), Err(TesseractError::InvalidPassphrase));
    assert_eq!(tesseract.update_unlock(b"current", b"current"), Err(TesseractError::InvalidPassphrase));
    assert!(tesseract.is_unlock());
}

#[test]
fn update_unlock_drops_unreadable_entries_without_key_check() {
    let mut tesseract = Tesseract::default();
    tesseract.unlock(b"first").unwrap();
    tesseract.set("OLD", "value").unwrap();
    tesseract.lock();
    tesseract.unlock(b"second").unwrap();
    tesseract.set("NEW", "kept").unwrap();
    tesseract.update_unlock(b"second", b"third").unwrap();
    assert!(!tesseract.exist("OLD"));
    assert_eq!(tesseract.retrieve("NEW").unwrap(), "kept");
}

#[test]
fn export_with_key_check_fails_on_unreadable_entry() {
    let mut tesseract = Tesseract::default();
    tesseract.unlock(b"first").unwrap();
    tesseract.set("OLD", "value").unwrap();
    tesseract.lock();
    tesseract.unlock(b"second").unwrap();
    assert_eq!(tesseract.export().unwrap(), vec![]);
    tesseract.enable_key_check();
    assert_eq!(tesseract.export(), Err(TesseractError::DecryptionError));
}

#[test]
fn key_check_refuses_a_wrong_passphrase_and_locks() {
    let mut tesseract = Tesseract::new();
    assert!(!tesseract.is_key_check_enabled());
    tesseract.enable_key_check();
    assert!(tesseract.is_key_check_enabled());
    tesseract.unlock(b"right").unwrap();
    tesseract.set("API", "MYKEY").unwrap();
    tesseract.lock();
    tesseract.take_events();
    assert_eq!(tesseract.unlock(b"wrong"), Err(TesseractError::DecryptionError));
    assert!(!tesseract.is_unlock());
    assert_eq!(tesseract.take_events(), vec![TesseractEvent::Locked]);
    tesseract.unlock(b"right").unwrap();
    assert_eq!(tesseract.retrieve("API").unwrap(), "MYKEY");
    tesseract.disable_key_check();
    assert!(!tesseract.is_key_check_enabled());
}

#[test]
fn key_check_refuses_unlocking_twice() {
    let mut tesseract = Tesseract::new();
    tesseract.enable_key_check();
    tesseract.unlock(b"right").unwrap();
    tesseract.set("API", "MYKEY").unwrap();
    assert_eq!(tesseract.unlock(b"right"), Err(TesseractError::TesseractLocked));
    assert!(!tesseract.is_unlock());
}

#[test]
fn empty_store_passes_the_key_check() {
    let mut tesseract = Tesseract::new();
    tesseract.enable_key_check();
    tesseract.unlock(b"anything").unwrap();
    assert!(tesseract.is_unlock());
}

#[test]
fn autosave_and_file_settings() {
    let mut tesseract = Tesseract::default();
    assert!(!tesseract.autosave_enabled());
    assert!(tesseract.file().is_none());
    assert!(tesseract.save_target().is_none());
    tesseract.set_file("my_file");
    assert_eq!(tesseract.file(), Some(String::from("my_file")));
    assert!(tesseract.save_target().is_none());
    tesseract.set_autosave();
    assert!(tesseract.autosave_enabled());
    tesseract.set_autosave();
    assert!(tesseract.autosave_enabled());
    assert_eq!(tesseract.save_target(), Some(String::from("my_file")));
}

#[test]
fn raw_entries_round_trip_through_from_entries() {
    let mut tesseract = Tesseract::new();
    tesseract.unlock(b"pass").unwrap();
    tesseract.set("API", "MYKEY").unwrap();
    tesseract.set("B", "two").unwrap();
    let raw = tesseract.raw_entries();
    assert_eq!(raw.len(), 2);
    let mut loaded = Tesseract::from_entries(raw);
    assert!(loaded.is_key_check_enabled());
    assert!(!loaded.is_unlock());
    assert_eq!(loaded.unlock(b"wrong"), Err(TesseractError::DecryptionError));
    loaded.unlock(b"pass").unwrap();
    assert_eq!(loaded.retrieve("API").unwrap(), "MYKEY");
    assert_eq!(loaded.retrieve("B").unwrap(), "two");
}

#[test]
fn invalid_utf8_is_read_lossily() {
    let data = tesseract::Cipher::direct_encrypt(&[0x61, 0xff, 0x62], b"pass").unwrap();
    let mut loaded = Tesseract::from_entries(vec![(String::from("K"), data)]);
    loaded.unlock(b"pass").unwrap();
    assert_eq!(loaded.retrieve("K").unwrap(), "a\u{FFFD}b");
}

#[test]
fn json_round_trip_restores_the_entries() {
    let mut tesseract = Tesseract::new();
    tesseract.unlock(b"pass").unwrap();
    tesseract.set("B", "two").unwrap();
    tesseract.set("API", "MYKEY").unwrap();
    let json = tesseract.to_json();
    let text = String::from_utf8(json.clone()).unwrap();
    assert!(text.starts_with("{\"API\":["));
    let mut loaded = Tesseract::from_json(&json).unwrap();
    assert!(loaded.is_key_check_enabled());
    assert!(!loaded.is_unlock());
    assert_eq!(loaded.to_json(), json);
    loaded.unlock(b"pass").unwrap();
    assert_eq!(loaded.retrieve("API").unwrap(), "MYKEY");
    assert_eq!(loaded.retrieve("B").unwrap(), "two");
}

#[test]
fn empty_store_saves_as_an_empty_object() {
    let tesseract = Tesseract::new();
    assert_eq!(tesseract.to_json(), b"{}".to_vec());
    let loaded = Tesseract::from_json(b"{}").unwrap();
    assert!(loaded.internal_keys().is_empty());
}

#[test]
fn malformed_json_is_refused() {
    assert_eq!(Tesseract::from_json(b"not json").err(), Some(TesseractError::InvalidJson));
    assert_eq!(Tesseract::from_json(b"[1, 2]").err(), Some(TesseractError::InvalidJson));
    assert_eq!(Tesseract::from_json(b"{\"k\": \"text\"}").err(), Some(TesseractError::InvalidJson));
}

#[test]
fn load_entries_adds_to_the_store() {
    let mut source = Tesseract::new();
    source.unlock(b"pass").unwrap();
    source.set("NEW", "fresh").unwrap();
    source.set("A", "replaced").unwrap();
    let raw = source.raw_entries();

    let mut tesseract = Tesseract::new();
    tesseract.unlock(b"pass").unwrap();
    tesseract.set("A", "old").unwrap();
    tesseract.set("KEEP", "kept").unwrap();
    tesseract.load_entries(raw);
    assert!(tesseract.is_unlock());
    assert_eq!(tesseract.retrieve("A").unwrap(), "replaced");
    assert_eq!(tesseract.retrieve("NEW").unwrap(), "fresh");
    assert_eq!(tesseract.retrieve("KEEP").unwrap(), "kept");
}

#[test]
fn unlock_sealed_follows_the_key_check() {
    let sealed = tesseract::Cipher::self_encrypt_with(b"right", &[1u8; 32], &[2u8; 12]).unwrap();
    let mut tesseract = Tesseract::new();
    tesseract.unlock_sealed(sealed.clone()).unwrap();
    assert!(tesseract.is_unlock());
    tesseract.set("API", "MYKEY").unwrap();
    tesseract.enable_key_check();
    assert_eq!(tesseract.unlock_sealed(sealed.clone()), Err(TesseractError::TesseractLocked));
    assert!(!tesseract.is_unlock());
    let wrong = tesseract::Cipher::self_encrypt_with(b"wrong", &[1u8; 32], &[2u8; 12]).unwrap();
    assert_eq!(tesseract.unlock_sealed(wrong), Err(TesseractError::DecryptionError));
    tesseract.unlock_sealed(sealed).unwrap();
    assert_eq!(tesseract.retrieve("API").unwrap(), "MYKEY");
}

#[test]
fn set_sealed_stores_the_given_ciphertext() {
    let mut tesseract = Tesseract::new();
    tesseract.unlock(b"pass").unwrap();
    let data = tesseract::Cipher::encrypt_with_nonce(b"value", b"pass", &[5u8; 12]).unwrap();
    tesseract.set_sealed("K", data.clone());
    assert_eq!(tesseract.retrieve("K").unwrap(), "value");
    assert_eq!(tesseract.raw_entries(), vec![(String::from("K"), data)]);
}

#[test]
fn rekey_locked_locks_and_replaces_the_entries() {
    let mut tesseract = Tesseract::new();
    tesseract.unlock(b"old").unwrap();
    tesseract.set("GONE", "x").unwrap();
    tesseract.take_events();
    let data = tesseract::Cipher::encrypt_with_nonce(b"value", b"new", &[5u8; 12]).unwrap();
    tesseract.rekey_locked(vec![(String::from("K"), data)]);
    assert!(!tesseract.is_unlock());
    assert!(!tesseract.exist("GONE"));
    assert_eq!(tesseract.take_events(), vec![TesseractEvent::Locked]);
    tesseract.unlock(b"new").unwrap();
    assert_eq!(tesseract.retrieve("K").unwrap(), "value");
}
