//! The key store.
use vstd::prelude::*;
use vstd::utf8::encode_utf8;
use crate::bytes::bytes_eq;
use crate::cipher::{direct_decryption, max_plaintext, self_decryption, Cipher};
use crate::entries::{keys_distinct, pairs_map, Entries};
use crate::error::TesseractError;
use crate::primitives::{
    entries_json, json_entries, lossy_utf8, parse_entries, utf8_lossy_string, write_entries_json, zeroize_bytes,
};

verus! {

/// A named group.
pub struct Group {
    name: String,
}

/// What the store announces when it changes between locked and unlocked.
#[derive(Debug, Clone, Copy, PartialEq, Eq, Structural, PartialOrd, Ord)]
pub enum TesseractEvent {
    Unlocked,
    Locked,
}

/// The abstract state of a [`Tesseract`].
pub struct TesseractView {
    /// The encrypted value stored under each key.
    pub entries: Map<Seq<char>, Seq<u8>>,
    /// The self-encrypted passphrase; empty while locked.
    pub enc_pass: Seq<u8>,
    /// Where the store is saved, if anywhere.
    pub file: Option<Seq<char>>,
    /// Whether changes are saved to `file`.
    pub autosave: bool,
    /// Whether unlocking first checks the passphrase against every entry.
    pub check: bool,
    /// Whether the store has been unlocked.
    pub unlocked: bool,
    /// Whether an unlock is in progress (the passphrase is held but not yet accepted).
    pub soft_unlock: bool,
    /// The events announced and not yet taken, oldest first.
    pub events: Seq<TesseractEvent>,
}

/// `entries` holds exactly the keys of `m`, each the encryption under `p` of
/// the UTF-8 encoding of its value.
pub open spec fn encrypts_under(entries: Map<Seq<char>, Seq<u8>>, m: Map<Seq<char>, Seq<char>>, p: Seq<u8>) -> bool {
    &&& entries.dom() == m.dom()
    &&& forall|k: Seq<char>| #[trigger] m.dom().contains(k) ==> direct_decryption(entries[k], p) == Some(encode_utf8(m[k]))
}

/// The value of a successful lookup, or the empty string.
pub open spec fn ok_value(r: Result<Seq<char>, TesseractError>) -> Seq<char> {
    match r {
        Ok(v) => v,
        Err(_) => Seq::empty(),
    }
}

impl TesseractView {
    /// A fresh store: empty, locked, not saved anywhere, key check off.
    pub open spec fn initial() -> TesseractView {
        TesseractView {
            entries: Map::empty(),
            enc_pass: Seq::empty(),
            file: None,
            autosave: false,
            check: false,
            unlocked: false,
            soft_unlock: false,
            events: Seq::empty(),
        }
    }

    /// No unlock is in progress; the store is unlocked exactly when it holds
    /// a passphrase, and a held passphrase can be recovered.
    pub open spec fn settled(self) -> bool {
        &&& !self.soft_unlock
        &&& self.unlocked <==> self.enc_pass.len() > 0
        &&& self.enc_pass.len() > 0 ==> self.passphrase() is Some
    }

    /// Values can be stored and read.
    pub open spec fn is_unlock(self) -> bool {
        self.enc_pass.len() > 0 && self.unlocked && !self.soft_unlock
    }

    /// An unlock is in progress.
    pub open spec fn is_soft_unlock(self) -> bool {
        self.enc_pass.len() > 0 && !self.unlocked && self.soft_unlock
    }

    /// The passphrase held, recovered from its self-encryption.
    pub open spec fn passphrase(self) -> Option<Seq<u8>> {
        self_decryption(self.enc_pass)
    }

    /// What reading `key` gives.
    pub open spec fn retrieve(self, key: Seq<char>) -> Result<Seq<char>, TesseractError> {
        if !self.is_unlock() {
            Err(TesseractError::TesseractLocked)
        } else if !self.entries.dom().contains(key) {
            Err(TesseractError::ObjectNotFound)
        } else {
            match self.passphrase() {
                None => Err(TesseractError::DecryptionError),
                Some(p) => match direct_decryption(self.entries[key], p) {
                    None => Err(TesseractError::DecryptionError),
                    Some(plain) => Ok(lossy_utf8(plain)),
                },
            }
        }
    }

    /// What checking `key` during an unlock gives.
    pub open spec fn dry_retrieve(self, key: Seq<char>) -> Result<(), TesseractError> {
        if !self.is_soft_unlock() {
            Err(TesseractError::TesseractLocked)
        } else if !self.entries.dom().contains(key) {
            Err(TesseractError::ObjectNotFound)
        } else {
            match self.passphrase() {
                None => Err(TesseractError::DecryptionError),
                Some(p) => match direct_decryption(self.entries[key], p) {
                    None => Err(TesseractError::DecryptionError),
                    Some(_) => Ok(()),
                },
            }
        }
    }

    /// The readable contents: every key whose value decrypts, with that value.
    pub open spec fn exported(self) -> Map<Seq<char>, Seq<char>> {
        Map::new(
            |k: Seq<char>| self.entries.dom().contains(k) && self.retrieve(k) is Ok,
            |k: Seq<char>| ok_value(self.retrieve(k)),
        )
    }

    /// Exporting fails: the key check is on and some entry cannot be read.
    pub open spec fn export_fails(self) -> bool {
        self.check && exists|k: Seq<char>| self.entries.dom().contains(k) && self.retrieve(k) is Err
    }

    /// The entries hold exactly the keys of `m`, each the encryption under
    /// `p` of the UTF-8 encoding of its value.
    pub open spec fn holds(self, m: Map<Seq<char>, Seq<char>>, p: Seq<u8>) -> bool {
        encrypts_under(self.entries, m, p)
    }

    /// The state after locking: passphrase wiped, a `Locked` event announced.
    pub open spec fn locked(self) -> TesseractView {
        TesseractView {
            enc_pass: Seq::empty(),
            unlocked: false,
            soft_unlock: false,
            events: self.events.push(TesseractEvent::Locked),
            ..self
        }
    }

    /// Unlocking with `p` is refused by the key check.
    pub open spec fn key_check_rejects(self, p: Seq<u8>) -> bool {
        &&& self.check
        &&& exists|k: Seq<char>| self.entries.dom().contains(k)
        &&& (self.unlocked || exists|k: Seq<char>| self.entries.dom().contains(k) && direct_decryption(self.entries[k], p) is None)
    }

    /// The error a refused unlock reports.
    pub open spec fn key_check_error(self) -> TesseractError {
        if self.unlocked {
            TesseractError::TesseractLocked
        } else {
            TesseractError::DecryptionError
        }
    }

    /// Changing the passphrase from `old_p` to `new_p` is refused: `old_p`
    /// is not the passphrase held, or nothing would change.
    pub open spec fn passphrase_change_refused(self, old_p: Seq<u8>, new_p: Seq<u8>) -> bool {
        match self.passphrase() {
            Some(p) => old_p != p || old_p == new_p || p == new_p,
            None => true,
        }
    }

    /// Where saving writes to: the file, when autosave is on.
    pub open spec fn save_target(self) -> Option<Seq<char>> {
        if self.autosave {
            self.file
        } else {
            None
        }
    }
}

/// Reading a store that holds `m` under its own passphrase gives back `m`.
pub proof fn lemma_held_contents(v: TesseractView, m: Map<Seq<char>, Seq<char>>, p: Seq<u8>)
    requires
        v.is_unlock(),
        v.passphrase() == Some(p),
        v.holds(m, p),
    ensures
        forall|k: Seq<char>| #[trigger] v.retrieve(k) == (if m.dom().contains(k) {
            Ok::<Seq<char>, TesseractError>(m[k])
        } else {
            Err::<Seq<char>, TesseractError>(TesseractError::ObjectNotFound)
        }),
        v.exported() == m,
        !v.export_fails(),
{
    broadcast use vstd::utf8::encode_utf8_decode_utf8, vstd::utf8::encode_utf8_valid_utf8;
    assert forall|k: Seq<char>| #[trigger] v.retrieve(k) == (if m.dom().contains(k) {
        Ok::<Seq<char>, TesseractError>(m[k])
    } else {
        Err::<Seq<char>, TesseractError>(TesseractError::ObjectNotFound)
    }) by {
        if m.dom().contains(k) {
            assert(direct_decryption(v.entries[k], p) == Some(encode_utf8(m[k])));
            assert(lossy_utf8(encode_utf8(m[k])) == m[k]);
        }
    }
    assert(v.exported() =~= m) by {
        assert forall|k: Seq<char>| v.exported().dom().contains(k) <==> m.dom().contains(k) by {
            assert(v.retrieve(k) == (if m.dom().contains(k) {
                Ok::<Seq<char>, TesseractError>(m[k])
            } else {
                Err::<Seq<char>, TesseractError>(TesseractError::ObjectNotFound)
            }));
        }
        assert forall|k: Seq<char>| v.exported().dom().contains(k) implies v.exported()[k] == m[k] by {
            assert(v.retrieve(k) == Ok::<Seq<char>, TesseractError>(m[k]));
        }
    }
    assert forall|k: Seq<char>| v.entries.dom().contains(k) implies v.retrieve(k) is Ok by {
        assert(v.retrieve(k) == Ok::<Seq<char>, TesseractError>(m[k]));
    }
}

/// Pairs whose values encrypt those of `plain`, key by key, denote a map
/// that encrypts the map of `plain`.
pub proof fn lemma_encrypted_pairs(enc: Seq<(String, Vec<u8>)>, plain: Seq<(String, String)>, p: Seq<u8>)
    requires
        enc.len() == plain.len(),
        forall|j: int| 0 <= j < enc.len() ==> #[trigger] enc[j].0@ == plain[j].0@,
        forall|j: int| 0 <= j < enc.len() ==> direct_decryption(#[trigger] enc[j].1@, p) == Some(encode_utf8(plain[j].1@)),
    ensures
        encrypts_under(pairs_map(enc), pairs_map(plain), p),
    decreases enc.len(),
{
    if enc.len() > 0 {
        let e2 = enc.drop_last();
        let p2 = plain.drop_last();
        assert forall|j: int| 0 <= j < e2.len() implies #[trigger] e2[j].0@ == p2[j].0@ by {
            assert(e2[j] == enc[j] && p2[j] == plain[j]);
        }
        assert forall|j: int| 0 <= j < e2.len() implies direct_decryption(#[trigger] e2[j].1@, p) == Some(encode_utf8(p2[j].1@)) by {
            assert(e2[j] == enc[j] && p2[j] == plain[j]);
        }
        lemma_encrypted_pairs(e2, p2, p);
        let last = enc.len() - 1;
        assert(enc.last().0@ == plain.last().0@);
        assert(direct_decryption(enc[last].1@, p) == Some(encode_utf8(plain[last].1@)));
        assert(pairs_map(enc).dom() =~= pairs_map(plain).dom());
    }
}

/// The key store.
#[derive(Clone, Debug)]
pub struct Tesseract {
    entries: Entries,
    enc_pass: Vec<u8>,
    file: Option<String>,
    autosave: bool,
    check: bool,
    unlocked: bool,
    soft_unlock: bool,
    events: Vec<TesseractEvent>,
}

/// The view of an optional string.
pub open spec fn option_string_view(s: Option<String>) -> Option<Seq<char>> {
    match s {
        Some(s) => Some(s@),
        None => None,
    }
}

impl View for Tesseract {
    type V = TesseractView;

    closed spec fn view(&self) -> TesseractView {
        TesseractView {
            entries: self.entries@,
            enc_pass: self.enc_pass@,
            file: option_string_view(self.file),
            autosave: self.autosave,
            check: self.check,
            unlocked: self.unlocked,
            soft_unlock: self.soft_unlock,
            events: self.events@,
        }
    }
}

impl Tesseract {
    /// The entries hold no key twice, and a held passphrase can be recovered.
    pub closed spec fn wf(&self) -> bool {
        &&& self.wf_data()
        &&& self@.settled()
    }

    /// The entries hold no key twice, and a held passphrase can be recovered
    /// (so also while an unlock is in progress).
    spec fn wf_data(&self) -> bool {
        &&& self.entries.wf()
        &&& self.enc_pass@.len() > 0 ==> self_decryption(self.enc_pass@) is Some
    }

    /// Every store in use is settled: never half unlocked, unlocked exactly
    /// when it holds a passphrase, and that passphrase can be recovered.
    pub proof fn lemma_settled(t: &Tesseract)
        requires
            t.wf(),
        ensures
            t@.settled(),
            !t@.is_soft_unlock(),
            t@.is_unlock() <==> t@.unlocked,
            t@.is_unlock() ==> t@.passphrase() is Some,
    {
    }

    /// A fresh, empty, locked store.
    pub fn new() -> (t: Tesseract)
        ensures
            t.wf(),
            t@ == TesseractView::initial(),
    {
        Tesseract {
            entries: Entries::new(),
            enc_pass: Vec::new(),
            file: None,
            autosave: false,
            check: false,
            unlocked: false,
            soft_unlock: false,
            events: Vec::new(),
        }
    }

    /// A locked store holding the given encrypted entries, with the key check
    /// on; where a key occurs twice, its last value counts.
    pub fn from_entries(data: Vec<(String, Vec<u8>)>) -> (t: Tesseract)
        ensures
            t.wf(),
            t@ == (TesseractView { entries: pairs_map(data@), check: true, ..TesseractView::initial() }),
    {
        let entries = Entries::from_pairs(&data);
        let mut t = Tesseract::new();
        t.entries = entries;
        t.check = true;
        t
    }

    /// Whether values can be stored and read.
    pub fn is_unlock(&self) -> (r: bool)
        ensures
            r == self@.is_unlock(),
    {
        self.enc_pass.len() > 0 && self.unlocked && !self.soft_unlock
    }

    /// Whether an unlock is in progress.
    fn is_soft_unlock(&self) -> (r: bool)
        ensures
            r == self@.is_soft_unlock(),
    {
        self.enc_pass.len() > 0 && !self.unlocked && self.soft_unlock
    }

    /// Whether an entry is stored under `key`, locked or not.
    pub fn exist(&self, key: &str) -> (r: bool)
        requires
            self.wf(),
        ensures
            r == self@.entries.dom().contains(key@),
    {
        self.entries.contains(key)
    }

    /// Turns autosave on.
    pub fn set_autosave(&mut self)
        requires
            old(self).wf(),
        ensures
            final(self).wf(),
            final(self)@ == (TesseractView { autosave: true, ..old(self)@ }),
    {
        self.autosave = true;
    }

    /// Whether autosave is on.
    pub fn autosave_enabled(&self) -> (r: bool)
        ensures
            r == self@.autosave,
    {
        self.autosave
    }

    /// Turns the key check off: unlocking then accepts any passphrase.
    pub fn disable_key_check(&mut self)
        requires
            old(self).wf(),
        ensures
            final(self).wf(),
            final(self)@ == (TesseractView { check: false, ..old(self)@ }),
    {
        self.check = false;
    }

    /// Turns the key check on: unlocking then requires every entry to decrypt.
    pub fn enable_key_check(&mut self)
        requires
            old(self).wf(),
        ensures
            final(self).wf(),
            final(self)@ == (TesseractView { check: true, ..old(self)@ }),
    {
        self.check = true;
    }

    /// Whether the key check is on.
    pub fn is_key_check_enabled(&self) -> (r: bool)
        ensures
            r == self@.check,
    {
        self.check
    }

    /// Records the file the store is saved to.
    pub fn set_file(&mut self, file: &str)
        requires
            old(self).wf(),
        ensures
            final(self).wf(),
            final(self)@ == (TesseractView { file: Some(file@), ..old(self)@ }),
    {
        self.file = Some(file.to_owned());
    }

    /// The file the store is saved to, if any.
    pub fn file(&self) -> (r: Option<String>)
        ensures
            option_string_view(r) == self@.file,
    {
        match &self.file {
            Some(f) => Some(f.clone()),
            None => None,
        }
    }

    /// Where saving writes to: the file, when autosave is on.
    pub fn save_target(&self) -> (r: Option<String>)
        ensures
            option_string_view(r) == self@.save_target(),
    {
        if self.autosave {
            self.file()
        } else {
            None
        }
    }

    /// Hands out the announced events, oldest first, and forgets them.
    pub fn take_events(&mut self) -> (r: Vec<TesseractEvent>)
        requires
            old(self).wf(),
        ensures
            final(self).wf(),
            r@ == old(self)@.events,
            final(self)@ == (TesseractView { events: Seq::empty(), ..old(self)@ }),
    {
        let mut out: Vec<TesseractEvent> = Vec::new();
        std::mem::swap(&mut out, &mut self.events);
        out
    }

    /// The keys, one each.
    pub fn internal_keys(&self) -> (r: Vec<String>)
        requires
            self.wf(),
        ensures
            r@.len() == self@.entries.dom().len(),
            forall|i: int, j: int| 0 <= i < r@.len() && 0 <= j < r@.len() && i != j ==> r@[i]@ != r@[j]@,
            forall|k: Seq<char>| self@.entries.dom().contains(k) <==> exists|i: int| 0 <= i < r@.len() && r@[i]@ == k,
    {
        proof { self.entries.lemma_pairs(); }
        let r = self.entries.keys();
        proof {
            crate::entries::lemma_distinct_len(self.entries.pairs());
            assert forall|k: Seq<char>| self@.entries.dom().contains(k) <==> exists|i: int| 0 <= i < r@.len() && r@[i]@ == k by {
                if self@.entries.dom().contains(k) {
                    let i = choose|i: int| 0 <= i < self.entries.pairs().len() && self.entries.pairs()[i].0@ == k;
                    assert(r@[i]@ == k);
                }
                if exists|i: int| 0 <= i < r@.len() && r@[i]@ == k {
                    let i = choose|i: int| 0 <= i < r@.len() && r@[i]@ == k;
                    assert(self.entries.pairs()[i].0@ == k);
                }
            }
        }
        r
    }

    /// The stored (encrypted) entries, one pair per key.
    pub fn raw_entries(&self) -> (r: Vec<(String, Vec<u8>)>)
        requires
            self.wf(),
        ensures
            keys_distinct(r@),
            pairs_map(r@) == self@.entries,
    {
        proof { self.entries.lemma_pairs(); }
        let n = self.entries.len();
        let mut r: Vec<(String, Vec<u8>)> = Vec::new();
        let mut i: usize = 0;
        while i < n
            invariant
                n == self.entries.pairs().len(),
                i <= n,
                r@.len() == i,
                forall|j: int| 0 <= j < i ==> #[trigger] r@[j].0@ == self.entries.pairs()[j].0@ && r@[j].1@ == self.entries.pairs()[j].1@,
            decreases n - i,
        {
            let pair = self.entries.at(i);
            let ghost prev = r@;
            let k = pair.0.clone();
            let v = vstd::slice::slice_to_vec(pair.1.as_slice());
            assert(k@ == self.entries.pairs()[i as int].0@);
            assert(v@ == self.entries.pairs()[i as int].1@);
            r.push((k, v));
            assert forall|j: int| 0 <= j < i + 1 implies #[trigger] r@[j].0@ == self.entries.pairs()[j].0@ && r@[j].1@ == self.entries.pairs()[j].1@ by {
                if j < i {
                    assert(r@[j] == prev[j]);
                }
            }
            i = i + 1;
        }
        proof {
            let s = self.entries.pairs();
            assert(keys_distinct(r@)) by {
                assert forall|a: int, b: int| 0 <= a < r@.len() && 0 <= b < r@.len() && a != b implies r@[a].0@ != r@[b].0@ by {
                    assert(r@[a].0@ == s[a].0@ && r@[b].0@ == s[b].0@);
                }
            }
            crate::entries::lemma_distinct_pairs_map(r@);
            assert(pairs_map(r@) =~= self@.entries) by {
                assert forall|k: Seq<char>| pairs_map(r@).dom().contains(k) <==> self@.entries.dom().contains(k) by {
                    if pairs_map(r@).dom().contains(k) {
                        let j = choose|j: int| 0 <= j < r@.len() && r@[j].0@ == k;
                        assert(s[j].0@ == k);
                    }
                    if self@.entries.dom().contains(k) {
                        let j = choose|j: int| 0 <= j < s.len() && s[j].0@ == k;
                        assert(r@[j].0@ == k);
                    }
                }
                assert forall|k: Seq<char>| pairs_map(r@).dom().contains(k) implies pairs_map(r@)[k] == self@.entries[k] by {
                    let j = choose|j: int| 0 <= j < r@.len() && r@[j].0@ == k;
                    assert(pairs_map(r@)[r@[j].0@] == r@[j].1@);
                    assert(self@.entries[s[j].0@] == s[j].1@);
                }
            }
        }
        r
    }
}

impl Tesseract {
    /// Reads and decrypts the value stored under `key`.
    pub fn retrieve(&self, key: &str) -> (r: Result<String, TesseractError>)
        requires
            self.wf(),
        ensures
            match r {
                Ok(v) => self@.retrieve(key@) == Ok::<Seq<char>, TesseractError>(v@),
                Err(e) => self@.retrieve(key@) == Err::<Seq<char>, TesseractError>(e),
            },
    {
        if !self.is_unlock() {
            return Err(TesseractError::TesseractLocked);
        }
        if !self.exist(key) {
            return Err(TesseractError::ObjectNotFound);
        }
        let pkey = match Cipher::self_decrypt(self.enc_pass.as_slice()) {
            Ok(p) => p,
            Err(e) => return Err(e),
        };
        let data = match self.entries.get(key) {
            Some(d) => d,
            None => return Err(TesseractError::ObjectNotFound),
        };
        match Cipher::direct_decrypt(data.as_slice(), pkey.as_slice()) {
            Ok(plain) => Ok(utf8_lossy_string(plain.as_slice())),
            Err(e) => Err(e),
        }
    }

    /// Checks, during an unlock, that the value under `key` decrypts.
    fn dry_retrieve(&self, key: &str) -> (r: Result<(), TesseractError>)
        requires
            self.wf_data(),
        ensures
            r == self@.dry_retrieve(key@),
    {
        if !self.is_soft_unlock() {
            return Err(TesseractError::TesseractLocked);
        }
        if !self.entries.contains(key) {
            return Err(TesseractError::ObjectNotFound);
        }
        let pkey = match Cipher::self_decrypt(self.enc_pass.as_slice()) {
            Ok(p) => p,
            Err(e) => return Err(e),
        };
        let data = match self.entries.get(key) {
            Some(d) => d,
            None => return Err(TesseractError::ObjectNotFound),
        };
        match Cipher::direct_decrypt(data.as_slice(), pkey.as_slice()) {
            Ok(_) => Ok(()),
            Err(e) => Err(e),
        }
    }

    /// Encrypts `value` under the passphrase held and stores it under `key`,
    /// replacing what was there.
    pub fn set(&mut self, key: &str, value: &str) -> (r: Result<(), TesseractError>)
        requires
            old(self).wf(),
        ensures
            final(self).wf(),
            !old(self)@.is_unlock() ==> r == Err::<(), TesseractError>(TesseractError::TesseractLocked),
            old(self)@.is_unlock() ==> r is Ok || r == Err::<(), TesseractError>(TesseractError::EncryptionError),
            old(self)@.is_unlock() && encode_utf8(value@).len() > max_plaintext() ==> r is Err,
            r is Err ==> final(self)@ == old(self)@,
            r is Ok ==> final(self)@ == (TesseractView { entries: old(self)@.entries.insert(key@, final(self)@.entries[key@]), ..old(self)@ }),
            r is Ok ==> (old(self)@.passphrase() matches Some(p) && direct_decryption(final(self)@.entries[key@], p) == Some(encode_utf8(value@))),
            r is Ok ==> final(self)@.retrieve(key@) == Ok::<Seq<char>, TesseractError>(value@),
            r is Ok ==> forall|k: Seq<char>| k != key@ ==> #[trigger] final(self)@.retrieve(k) == old(self)@.retrieve(k),
    {
        if !self.is_unlock() {
            return Err(TesseractError::TesseractLocked);
        }
        let pkey = match Cipher::self_decrypt(self.enc_pass.as_slice()) {
            Ok(p) => p,
            Err(e) => return Err(e),
        };
        let data = match Cipher::direct_encrypt(value.as_bytes(), pkey.as_slice()) {
            Ok(d) => d,
            Err(e) => return Err(e),
        };
        let ghost d = data@;
        self.set_sealed(key, data);
        proof {
            broadcast use vstd::utf8::encode_utf8_decode_utf8, vstd::utf8::encode_utf8_valid_utf8;
            assert(self@.entries[key@] == d);
            assert(self@.entries =~= old(self)@.entries.insert(key@, d));
            assert(lossy_utf8(encode_utf8(value@)) == value@);
        }
        Ok(())
    }

    /// Stores the already encrypted `data` under `key`, replacing what was
    /// there: the step of [`Tesseract::set`] after the value is encrypted
    /// under a random nonce. Storing needs an unlocked store.
    pub fn set_sealed(&mut self, key: &str, data: Vec<u8>)
        requires
            old(self).wf(),
            old(self)@.is_unlock(),
        ensures
            final(self).wf(),
            final(self)@ == (TesseractView { entries: old(self)@.entries.insert(key@, data@), ..old(self)@ }),
    {
        self.entries.insert(key.to_owned(), data);
    }

    /// Removes the entry under `key`, locked or not.
    pub fn delete(&mut self, key: &str) -> (r: Result<(), TesseractError>)
        requires
            old(self).wf(),
        ensures
            final(self).wf(),
            r is Ok <==> old(self)@.entries.dom().contains(key@),
            r is Err ==> r == Err::<(), TesseractError>(TesseractError::ObjectNotFound),
            final(self)@ == (TesseractView { entries: old(self)@.entries.remove(key@), ..old(self)@ }),
    {
        if self.entries.remove(key) {
            Ok(())
        } else {
            Err(TesseractError::ObjectNotFound)
        }
    }

    /// Removes every entry.
    pub fn clear(&mut self)
        requires
            old(self).wf(),
        ensures
            final(self).wf(),
            final(self)@ == (TesseractView { entries: Map::empty(), ..old(self)@ }),
    {
        self.entries.clear();
    }

    /// Wipes the passphrase from memory and announces `Locked`.
    pub fn lock(&mut self)
        requires
            old(self).wf(),
        ensures
            final(self).wf(),
            final(self)@ == old(self)@.locked(),
    {
        self.wipe();
    }

    /// Wipes the passphrase, also in the middle of an unlock.
    fn wipe(&mut self)
        requires
            old(self).wf_data(),
        ensures
            final(self).wf(),
            final(self)@ == old(self)@.locked(),
    {
        zeroize_bytes(&mut self.enc_pass);
        self.unlocked = false;
        self.soft_unlock = false;
        self.events.push(TesseractEvent::Locked);
    }

    /// With the key check on, checks every entry against the passphrase held
    /// during an unlock.
    fn key_check(&self) -> (r: Result<(), TesseractError>)
        requires
            self.wf_data(),
            self@.enc_pass.len() > 0,
            self@.soft_unlock,
        ensures
            match self@.passphrase() {
                Some(p) => {
                    &&& r is Err <==> self@.key_check_rejects(p)
                    &&& r matches Err(e) ==> e == self@.key_check_error()
                },
                None => true,
            },
    {
        proof { self.entries.lemma_pairs(); }
        if !self.check {
            return Ok(());
        }
        let n = self.entries.len();
        let mut i: usize = 0;
        while i < n
            invariant
                self.wf_data(),
                self@.enc_pass.len() > 0,
                self@.soft_unlock,
                self.check,
                n == self.entries.pairs().len(),
                i <= n,
                forall|j: int| 0 <= j < i ==> #[trigger] self@.dry_retrieve(self.entries.pairs()[j].0@) is Ok,
            decreases n - i,
        {
            let key = self.entries.at(i).0.clone();
            let checked = self.dry_retrieve(key.as_str());
            if checked.is_err() {
                proof {
                    self.entries.lemma_pairs();
                    let k = self.entries.pairs()[i as int].0@;
                    assert(self@.entries.dom().contains(k));
                }
                return checked;
            }
            i = i + 1;
        }
        proof {
            self.entries.lemma_pairs();
            if let Some(p) = self@.passphrase() {
                if n > 0 {
                    assert(self@.dry_retrieve(self.entries.pairs()[0].0@) is Ok);
                    assert(!self@.unlocked);
                }
                assert forall|k: Seq<char>| self@.entries.dom().contains(k) implies direct_decryption(self@.entries[k], p) is Some by {
                    let j = choose|j: int| 0 <= j < self.entries.pairs().len() && self.entries.pairs()[j].0@ == k;
                    assert(self@.dry_retrieve(self.entries.pairs()[j].0@) is Ok);
                }
                if n == 0 {
                    assert(self@.entries.dom().len() == 0);
                    assert forall|k: Seq<char>| !self@.entries.dom().contains(k) by {
                        if self@.entries.dom().contains(k) {
                            let j = choose|j: int| 0 <= j < self.entries.pairs().len() && self.entries.pairs()[j].0@ == k;
                        }
                    }
                }
            }
        }
        Ok(())
    }

    /// Takes `passphrase` as the passphrase of the store. With the key check
    /// on, every entry must decrypt under it first; if one does not, the
    /// store is locked and the unlock refused.
    pub fn unlock(&mut self, passphrase: &[u8]) -> (r: Result<(), TesseractError>)
        requires
            old(self).wf(),
        ensures
            final(self).wf(),
            match r {
                Ok(()) => {
                    &&& !old(self)@.key_check_rejects(passphrase@)
                    &&& final(self)@.passphrase() == Some(passphrase@)
                    &&& final(self)@.enc_pass.len() > 0
                    &&& final(self)@ == (TesseractView {
                        enc_pass: final(self)@.enc_pass,
                        unlocked: true,
                        soft_unlock: false,
                        events: old(self)@.events.push(TesseractEvent::Unlocked),
                        ..old(self)@
                    })
                },
                Err(TesseractError::EncryptionError) => final(self)@ == old(self)@,
                Err(e) => {
                    &&& old(self)@.key_check_rejects(passphrase@)
                    &&& e == old(self)@.key_check_error()
                    &&& final(self)@ == old(self)@.locked()
                },
            },
            old(self)@.key_check_rejects(passphrase@) ==> r is Err,
            passphrase@.len() > max_plaintext() ==> r == Err::<(), TesseractError>(TesseractError::EncryptionError),
            r is Ok ==> final(self)@.is_unlock(),
    {
        let enc = match Cipher::self_encrypt(passphrase) {
            Ok(c) => c,
            Err(e) => return Err(e),
        };
        self.unlock_sealed(enc)
    }

    /// Takes the passphrase whose self-encryption is `sealed` as the
    /// passphrase of the store: the step of [`Tesseract::unlock`] after the
    /// random key is drawn. With the key check on, every entry must decrypt
    /// under it first; if one does not, the store is locked and the unlock
    /// refused.
    pub fn unlock_sealed(&mut self, sealed: Vec<u8>) -> (r: Result<(), TesseractError>)
        requires
            old(self).wf(),
            self_decryption(sealed@) is Some,
        ensures
            final(self).wf(),
            (self_decryption(sealed@) matches Some(p) && (r is Ok <==> !old(self)@.key_check_rejects(p))),
            r is Ok ==> final(self)@ == (TesseractView {
                enc_pass: sealed@,
                unlocked: true,
                soft_unlock: false,
                events: old(self)@.events.push(TesseractEvent::Unlocked),
                ..old(self)@
            }),
            r is Ok ==> final(self)@.is_unlock() && final(self)@.passphrase() == self_decryption(sealed@),
            r matches Err(e) ==> e == old(self)@.key_check_error() && final(self)@ == old(self)@.locked(),
    {
        assert(sealed@.len() > 0);
        self.enc_pass = sealed;
        self.soft_unlock = true;
        match self.key_check() {
            Ok(()) => {},
            Err(e) => {
                self.wipe();
                return Err(e);
            },
        }
        self.soft_unlock = false;
        self.unlocked = true;
        self.events.push(TesseractEvent::Unlocked);
        Ok(())
    }
}

impl Tesseract {
    /// Decrypts every entry. With the key check on, an entry that cannot be
    /// read fails the export; with it off, such an entry is left out.
    pub fn export(&self) -> (r: Result<Vec<(String, String)>, TesseractError>)
        requires
            self.wf(),
        ensures
            !self@.is_unlock() ==> r == Err::<Vec<(String, String)>, TesseractError>(TesseractError::TesseractLocked),
            self@.is_unlock() && self@.export_fails() ==> r == Err::<Vec<(String, String)>, TesseractError>(TesseractError::DecryptionError),
            self@.is_unlock() && !self@.export_fails() ==> r is Ok,
            r matches Ok(v) ==> keys_distinct(v@) && pairs_map(v@) == self@.exported(),
    {
        if !self.is_unlock() {
            return Err(TesseractError::TesseractLocked);
        }
        proof { self.entries.lemma_pairs(); }
        let n = self.entries.len();
        let ghost s = self.entries.pairs();
        let mut out: Vec<(String, String)> = Vec::new();
        let mut i: usize = 0;
        while i < n
            invariant
                self.wf(),
                self@.is_unlock(),
                s == self.entries.pairs(),
                keys_distinct(s),
                n == s.len(),
                i <= n,
                keys_distinct(out@),
                forall|k: Seq<char>| #[trigger] pairs_map(out@).dom().contains(k) <==> (exists|j: int| 0 <= j < i && s[j].0@ == k) && self@.retrieve(k) is Ok,
                forall|k: Seq<char>| #[trigger] pairs_map(out@).dom().contains(k) ==> pairs_map(out@)[k] == ok_value(self@.retrieve(k)),
                forall|j: int| 0 <= j < out@.len() ==> exists|m: int| 0 <= m < i && s[m].0@ == #[trigger] out@[j].0@,
                self.check ==> forall|j: int| 0 <= j < i ==> #[trigger] self@.retrieve(s[j].0@) is Ok,
            decreases n - i,
        {
            let key = self.entries.at(i).0.clone();
            match self.retrieve(key.as_str()) {
                Ok(v) => {
                    let ghost old_out = out@;
                    out.push((key, v));
                    proof {
                        assert(out@.drop_last() =~= old_out);
                        assert(pairs_map(out@) == pairs_map(old_out).insert(s[i as int].0@, v@));
                        assert forall|k: Seq<char>| #[trigger] pairs_map(out@).dom().contains(k) implies pairs_map(out@)[k] == ok_value(self@.retrieve(k)) by {
                            if k != s[i as int].0@ {
                                assert(pairs_map(old_out).dom().contains(k));
                            }
                        }
                        crate::entries::lemma_distinct_pairs_map(old_out);
                        assert(keys_distinct(out@)) by {
                            assert forall|a: int, b: int| 0 <= a < out@.len() && 0 <= b < out@.len() && a != b implies out@[a].0@ != out@[b].0@ by {
                                if a < old_out.len() && b < old_out.len() {
                                    assert(out@[a] == old_out[a] && out@[b] == old_out[b]);
                                } else if a < old_out.len() {
                                    assert(out@[a] == old_out[a]);
                                    let m = choose|m: int| 0 <= m < i && s[m].0@ == old_out[a].0@;
                                } else {
                                    assert(out@[b] == old_out[b]);
                                    let m = choose|m: int| 0 <= m < i && s[m].0@ == old_out[b].0@;
                                }
                            }
                        }
                        assert forall|j: int| 0 <= j < out@.len() implies exists|m: int| 0 <= m < i + 1 && s[m].0@ == #[trigger] out@[j].0@ by {
                            if j < old_out.len() {
                                assert(out@[j] == old_out[j]);
                                let m = choose|m: int| 0 <= m < i && s[m].0@ == old_out[j].0@;
                                assert(s[m].0@ == out@[j].0@);
                            } else {
                                assert(s[i as int].0@ == out@[j].0@);
                            }
                        }
                        assert forall|k: Seq<char>| #[trigger] pairs_map(out@).dom().contains(k) <==> (exists|j: int| 0 <= j < i + 1 && s[j].0@ == k) && self@.retrieve(k) is Ok by {
                            if exists|j: int| 0 <= j < i + 1 && s[j].0@ == k {
                                let j = choose|j: int| 0 <= j < i + 1 && s[j].0@ == k;
                                if j < i {
                                    assert(exists|j: int| 0 <= j < i && s[j].0@ == k);
                                }
                            }
                            if pairs_map(old_out).dom().contains(k) {
                                let j = choose|j: int| 0 <= j < i && s[j].0@ == k;
                                assert(exists|j: int| 0 <= j < i + 1 && s[j].0@ == k);
                            }
                        }
                    }
                },
                Err(e) => {
                    if self.check {
                        proof {
                            self.entries.lemma_pairs();
                            assert(self@.entries.dom().contains(s[i as int].0@));
                        }
                        return Err(e);
                    }
                    proof {
                        assert forall|k: Seq<char>| #[trigger] pairs_map(out@).dom().contains(k) <==> (exists|j: int| 0 <= j < i + 1 && s[j].0@ == k) && self@.retrieve(k) is Ok by {
                            if exists|j: int| 0 <= j < i + 1 && s[j].0@ == k {
                                let j = choose|j: int| 0 <= j < i + 1 && s[j].0@ == k;
                                if j < i {
                                    assert(exists|j: int| 0 <= j < i && s[j].0@ == k);
                                }
                            }
                        }
                        assert forall|j: int| 0 <= j < out@.len() implies exists|m: int| 0 <= m < i + 1 && s[m].0@ == #[trigger] out@[j].0@ by {
                            let m = choose|m: int| 0 <= m < i && s[m].0@ == out@[j].0@;
                        }
                    }
                },
            }
            i = i + 1;
        }
        proof {
            self.entries.lemma_pairs();
            assert(pairs_map(out@) =~= self@.exported()) by {
                assert forall|k: Seq<char>| #[trigger] pairs_map(out@).dom().contains(k) <==> self@.exported().dom().contains(k) by {
                    if self@.entries.dom().contains(k) {
                        let j = choose|j: int| 0 <= j < s.len() && s[j].0@ == k;
                    }
                }
            }
            if self.check {
                assert forall|k: Seq<char>| self@.entries.dom().contains(k) implies self@.retrieve(k) is Ok by {
                    let j = choose|j: int| 0 <= j < s.len() && s[j].0@ == k;
                    assert(self@.retrieve(s[j].0@) is Ok);
                }
            }
        }
        Ok(out)
    }
}

impl Tesseract {
    /// Encrypts each value of `pairs` under `passphrase`, keyed as in `pairs`.
    fn encrypt_all(pairs: &Vec<(String, String)>, passphrase: &[u8]) -> (r: Result<Vec<(String, Vec<u8>)>, TesseractError>)
        ensures
            match r {
                Ok(e) => encrypts_under(pairs_map(e@), pairs_map(pairs@), passphrase@),
                Err(e) => e == TesseractError::EncryptionError,
            },
    {
        let mut acc: Vec<(String, Vec<u8>)> = Vec::new();
        let mut i: usize = 0;
        while i < pairs.len()
            invariant
                i <= pairs@.len(),
                acc@.len() == i,
                forall|j: int| 0 <= j < i ==> #[trigger] acc@[j].0@ == pairs@[j].0@,
                forall|j: int| 0 <= j < i ==> direct_decryption(#[trigger] acc@[j].1@, passphrase@) == Some(encode_utf8(pairs@[j].1@)),
            decreases pairs@.len() - i,
        {
            let data = match Cipher::direct_encrypt(pairs[i].1.as_str().as_bytes(), passphrase) {
                Ok(d) => d,
                Err(e) => return Err(e),
            };
            acc.push((pairs[i].0.clone(), data));
            i = i + 1;
        }
        proof { lemma_encrypted_pairs(acc@, pairs@, passphrase@); }
        Ok(acc)
    }

    /// Locks the store and replaces its entries by the given encrypted ones:
    /// the step of [`Tesseract::update_unlock`] after the values are
    /// re-encrypted, before the new passphrase is taken.
    pub fn rekey_locked(&mut self, encrypted: Vec<(String, Vec<u8>)>)
        requires
            old(self).wf(),
        ensures
            final(self).wf(),
            final(self)@ == (TesseractView { entries: pairs_map(encrypted@), ..old(self)@.locked() }),
    {
        self.lock();
        self.entries = Entries::from_pairs(&encrypted);
    }

    /// Changes the passphrase from `old_passphrase` to `new_passphrase`,
    /// re-encrypting every readable entry under the new one. Entries that
    /// cannot be read (possible only with the key check off) are dropped.
    pub fn update_unlock(&mut self, old_passphrase: &[u8], new_passphrase: &[u8]) -> (r: Result<(), TesseractError>)
        requires
            old(self).wf(),
        ensures
            final(self).wf(),
            !old(self)@.is_unlock() ==> r == Err::<(), TesseractError>(TesseractError::TesseractLocked) && final(self)@ == old(self)@,
            old(self)@.is_unlock() && old(self)@.passphrase_change_refused(old_passphrase@, new_passphrase@) ==> r == Err::<(), TesseractError>(TesseractError::InvalidPassphrase) && final(self)@ == old(self)@,
            old(self)@.is_unlock() && !old(self)@.passphrase_change_refused(old_passphrase@, new_passphrase@) && old(self)@.export_fails() ==> r == Err::<(), TesseractError>(TesseractError::DecryptionError) && final(self)@ == old(self)@,
            old(self)@.is_unlock() && !old(self)@.passphrase_change_refused(old_passphrase@, new_passphrase@) && !old(self)@.export_fails() ==> r is Ok || r == Err::<(), TesseractError>(TesseractError::EncryptionError),
            r is Ok ==> {
                &&& final(self)@.is_unlock()
                &&& final(self)@.passphrase() == Some(new_passphrase@)
                &&& final(self)@.holds(old(self)@.exported(), new_passphrase@)
                &&& final(self)@ == (TesseractView {
                    entries: final(self)@.entries,
                    enc_pass: final(self)@.enc_pass,
                    unlocked: true,
                    soft_unlock: false,
                    events: old(self)@.events.push(TesseractEvent::Locked).push(TesseractEvent::Unlocked),
                    ..old(self)@
                })
            },
            old(self)@.is_unlock() ==> (r == Err::<(), TesseractError>(TesseractError::InvalidPassphrase) <==> (
                old(self)@.passphrase() != Some(old_passphrase@) || new_passphrase@ == old_passphrase@)),
            old(self)@.is_unlock() && old(self)@.passphrase() == Some(old_passphrase@) && new_passphrase@ != old_passphrase@
                && !old(self)@.export_fails() ==> r is Ok || r == Err::<(), TesseractError>(TesseractError::EncryptionError),
            r is Ok ==> forall|k: Seq<char>| #[trigger] final(self)@.retrieve(k) == (if old(self)@.exported().dom().contains(k) {
                old(self)@.retrieve(k)
            } else {
                Err::<Seq<char>, TesseractError>(TesseractError::ObjectNotFound)
            }),
            r == Err::<(), TesseractError>(TesseractError::EncryptionError) ==> final(self)@ == old(self)@ || (
                final(self)@.holds(old(self)@.exported(), new_passphrase@)
                && final(self)@ == (TesseractView { entries: final(self)@.entries, ..old(self)@.locked() })),
    {
        if !self.is_unlock() {
            return Err(TesseractError::TesseractLocked);
        }
        let pkey = match Cipher::self_decrypt(self.enc_pass.as_slice()) {
            Ok(p) => p,
            Err(e) => return Err(e),
        };
        if !bytes_eq(old_passphrase, pkey.as_slice()) || bytes_eq(old_passphrase, new_passphrase)
            || bytes_eq(pkey.as_slice(), new_passphrase) {
            return Err(TesseractError::InvalidPassphrase);
        }
        let exported = match self.export() {
            Ok(v) => v,
            Err(e) => return Err(e),
        };
        let encrypted = match Self::encrypt_all(&exported, new_passphrase) {
            Ok(e) => e,
            Err(e) => return Err(e),
        };
        let ghost before = self@;
        self.rekey_locked(encrypted);
        let ghost relocked = self@;
        assert(relocked == (TesseractView { entries: relocked.entries, ..before.locked() }));
        assert(!relocked.key_check_rejects(new_passphrase@));
        let r = self.unlock(new_passphrase);
        proof {
            if r is Ok {
                lemma_held_contents(self@, before.exported(), new_passphrase@);
                assert forall|k: Seq<char>| #[trigger] self@.retrieve(k) == (if before.exported().dom().contains(k) {
                    before.retrieve(k)
                } else {
                    Err::<Seq<char>, TesseractError>(TesseractError::ObjectNotFound)
                }) by {
                    assert(self@.retrieve(k) == (if before.exported().dom().contains(k) {
                        Ok::<Seq<char>, TesseractError>(before.exported()[k])
                    } else {
                        Err::<Seq<char>, TesseractError>(TesseractError::ObjectNotFound)
                    }));
                }
            }
        }
        r
    }

    /// A store unlocked with `passphrase` that holds each pair of `map`;
    /// where a key occurs twice, its last value counts.
    pub fn import(passphrase: &[u8], map: Vec<(String, String)>) -> (r: Result<Tesseract, TesseractError>)
        ensures
            match r {
                Ok(t) => {
                    &&& t.wf()
                    &&& t@.is_unlock()
                    &&& t@.passphrase() == Some(passphrase@)
                    &&& t@.holds(pairs_map(map@), passphrase@)
                    &&& t@ == (TesseractView {
                        entries: t@.entries,
                        enc_pass: t@.enc_pass,
                        unlocked: true,
                        events: seq![TesseractEvent::Unlocked],
                        ..TesseractView::initial()
                    })
                },
                Err(e) => e == TesseractError::EncryptionError,
            },
            r matches Ok(t) ==> forall|k: Seq<char>| #[trigger] t@.retrieve(k) == (if pairs_map(map@).dom().contains(k) {
                Ok::<Seq<char>, TesseractError>(pairs_map(map@)[k])
            } else {
                Err::<Seq<char>, TesseractError>(TesseractError::ObjectNotFound)
            }),
            r matches Ok(t) ==> t@.exported() == pairs_map(map@),
    {
        let mut t = Tesseract::new();
        match t.unlock(passphrase) {
            Ok(()) => {},
            Err(e) => return Err(e),
        }
        let ghost unlocked = t@;
        let mut i: usize = 0;
        while i < map.len()
            invariant
                i <= map@.len(),
                t.wf(),
                t@.is_unlock(),
                t@.passphrase() == Some(passphrase@),
                t@.holds(pairs_map(map@.subrange(0, i as int)), passphrase@),
                t@ == (TesseractView { entries: t@.entries, ..unlocked }),
                unlocked.passphrase() == Some(passphrase@),
            decreases map@.len() - i,
        {
            match t.set(map[i].0.as_str(), map[i].1.as_str()) {
                Ok(()) => {},
                Err(e) => return Err(e),
            }
            i = i + 1;
            proof {
                let sub = map@.subrange(0, i as int);
                assert(sub.drop_last() =~= map@.subrange(0, i - 1));
                let m = pairs_map(sub);
                assert(m == pairs_map(map@.subrange(0, i - 1)).insert(map@[i - 1].0@, map@[i - 1].1@));
                assert(t@.entries.dom() =~= m.dom());
            }
        }
        assert(map@.subrange(0, map@.len() as int) =~= map@);
        proof {
            lemma_held_contents(t@, pairs_map(map@), passphrase@);
        }
        Ok(t)
    }
}

impl Tesseract {
    /// Whether two stores agree on autosave, on being unlocked, on their
    /// entries and on the passphrase they hold.
    pub fn same_state(&self, other: &Tesseract) -> (r: bool)
        requires
            self.wf(),
            other.wf(),
        ensures
            r == same_state_spec(self@, other@),
            r <==> (self@.autosave == other@.autosave && self@.unlocked == other@.unlocked
                && self@.entries == other@.entries && self@.enc_pass == other@.enc_pass),
    {
        self.autosave == other.autosave && self.unlocked == other.unlocked
            && self.entries.same_map(&other.entries) && bytes_eq(self.enc_pass.as_slice(), other.enc_pass.as_slice())
    }
}

/// Two store states agree on autosave, on being unlocked, on their entries
/// and on the passphrase they hold.
pub open spec fn same_state_spec(a: TesseractView, b: TesseractView) -> bool {
    &&& a.autosave == b.autosave
    &&& a.unlocked == b.unlocked
    &&& a.entries == b.entries
    &&& a.enc_pass == b.enc_pass
}

impl Tesseract {
    /// A locked store, key check on, holding the entries saved as `json`: a
    /// JSON object mapping each key to its encrypted value as a byte array.
    pub fn from_json(json: &[u8]) -> (r: Result<Tesseract, TesseractError>)
        ensures
            r is Ok <==> json_entries(json@) is Some,
            r matches Err(e) ==> e == TesseractError::InvalidJson,
            r matches Ok(t) ==> t.wf() && json_entries(json@) == Some(t@.entries),
            r matches Ok(t) ==> t@ == (TesseractView { entries: t@.entries, check: true, ..TesseractView::initial() }),
    {
        match parse_entries(json) {
            Ok(pairs) => Ok(Self::from_entries(pairs)),
            Err(_) => Err(TesseractError::InvalidJson),
        }
    }

    /// The entries as saved: a JSON object mapping each key, in key order, to
    /// its encrypted value as a byte array.
    pub fn to_json(&self) -> (r: Vec<u8>)
        requires
            self.wf(),
        ensures
            r@ == entries_json(self@.entries),
            json_entries(r@) == Some(self@.entries),
    {
        let pairs = self.raw_entries();
        match write_entries_json(&pairs) {
            Ok(json) => json,
            Err(_) => Vec::new(),
        }
    }

    /// Adds the given encrypted entries to the store, each replacing what was
    /// stored under its key; where a key occurs twice, its last value counts.
    pub fn load_entries(&mut self, data: Vec<(String, Vec<u8>)>)
        requires
            old(self).wf(),
        ensures
            final(self).wf(),
            final(self)@ == (TesseractView { entries: old(self)@.entries.union_prefer_right(pairs_map(data@)), ..old(self)@ }),
    {
        assert(pairs_map(data@.subrange(0, 0)) == Map::<Seq<char>, Seq<u8>>::empty());
        assert(old(self)@.entries.union_prefer_right(pairs_map(data@.subrange(0, 0))) =~= old(self)@.entries);
        let mut i: usize = 0;
        while i < data.len()
            invariant
                i <= data@.len(),
                self.wf(),
                self@ == (TesseractView { entries: old(self)@.entries.union_prefer_right(pairs_map(data@.subrange(0, i as int))), ..old(self)@ }),
            decreases data@.len() - i,
        {
            let key = data[i].0.clone();
            let value = vstd::slice::slice_to_vec(data[i].1.as_slice());
            let ghost before = self@.entries;
            self.entries.insert(key, value);
            i = i + 1;
            proof {
                let sub = data@.subrange(0, i as int);
                assert(sub.drop_last() =~= data@.subrange(0, i - 1));
                assert(self@.entries =~= old(self)@.entries.union_prefer_right(pairs_map(sub)));
            }
        }
        assert(data@.subrange(0, data@.len() as int) =~= data@);
    }
}

/// A fresh, empty, locked store.
impl Default for Tesseract {
    fn default() -> (t: Self)
        ensures
            t.wf(),
            t@ == TesseractView::initial(),
    {
        Tesseract::new()
    }
}

} // verus!
