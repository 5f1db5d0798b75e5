# tesseract

A key store that keeps string values encrypted under a passphrase, verified
with Verus.

- `src/` — the verified library
  - `tesseract.rs`: the store (`Tesseract`), its abstract state
    (`TesseractView`) and the contracts of every operation
  - `entries.rs`: the list of distinct keys with encrypted values, seen as a map
  - `cipher.rs`: authenticated encryption under a passphrase (AES-256-GCM,
    random nonce, SHA-256 key stretching for passphrases that are not 32 bytes)
  - `laws.rs`: properties that span several operations
  - `primitives.rs`: the outside functions used (aes-gcm, sha2, getrandom,
    zeroize, serde_json, `String::from_utf8_lossy`) and what is assumed of them
- `app/` — the shared handle: clones share one store behind a lock, the
  store's JSON (made and parsed in `src/`) is written to and read from files, and unlock/lock events are broadcast
  to subscribers
- `tests/` — tests of the library
