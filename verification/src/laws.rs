//! Properties of the key store that span its operations.
use vstd::prelude::*;
use crate::error::TesseractError;
use crate::cipher::{derive_key, direct_decryption, KEY_LEN};
use crate::primitives::{json_entries, sha256_digest};
use crate::tesseract::{same_state_spec, TesseractView};

verus! {

/// A locked store reads nothing: it is not unlocked, every read is refused
/// as locked, and it exports nothing.
pub proof fn lemma_locked_refuses_reads(v: TesseractView)
    ensures
        !v.locked().is_unlock(),
        forall|k: Seq<char>| #[trigger] v.locked().retrieve(k) == Err::<Seq<char>, TesseractError>(TesseractError::TesseractLocked),
        v.locked().exported() == Map::<Seq<char>, Seq<char>>::empty(),
{
    assert(v.locked().exported() =~= Map::<Seq<char>, Seq<char>>::empty());
}

/// What a store reads depends only on its entries and the passphrase it
/// holds: unlocking again with the same passphrase, after locking, reads
/// exactly what was read before.
pub proof fn lemma_same_passphrase_same_reads(before: TesseractView, after: TesseractView, p: Seq<u8>)
    requires
        before.is_unlock(),
        after.is_unlock(),
        before.passphrase() == Some(p),
        after.passphrase() == Some(p),
        after.entries == before.entries,
    ensures
        forall|k: Seq<char>| #[trigger] after.retrieve(k) == before.retrieve(k),
        after.exported() == before.exported(),
{
    assert(after.exported() =~= before.exported());
}

/// With the key check off, no passphrase is refused when unlocking.
pub proof fn lemma_no_key_check_accepts_any(v: TesseractView, p: Seq<u8>)
    requires
        !v.check,
    ensures
        !v.key_check_rejects(p),
{
}

/// With the key check on, a locked store whose every entry decrypts under
/// `p` accepts `p`.
pub proof fn lemma_key_check_accepts_right_passphrase(v: TesseractView, p: Seq<u8>)
    requires
        !v.unlocked,
        forall|k: Seq<char>| #[trigger] v.entries.dom().contains(k) ==> direct_decryption(v.entries[k], p) is Some,
    ensures
        !v.key_check_rejects(p),
{
}

} // verus!

verus! {

/// Saving and loading give the store back: a store loaded from the JSON that
/// `to_json` wrote for `saved` holds the same entries; with the key check on,
/// the passphrase `saved` held is accepted when every entry decrypts under it;
/// and once unlocked with that passphrase it reads exactly what `saved` read.
pub proof fn lemma_reload_reads_same(
    saved: TesseractView,
    json: Seq<u8>,
    loaded: TesseractView,
    reopened: TesseractView,
    p: Seq<u8>,
)
    requires
        json_entries(json) == Some(saved.entries),
        json_entries(json) == Some(loaded.entries),
        !loaded.unlocked,
        saved.is_unlock(),
        saved.passphrase() == Some(p),
        reopened.entries == loaded.entries,
        reopened.is_unlock(),
        reopened.passphrase() == Some(p),
    ensures
        loaded.entries == saved.entries,
        (forall|k: Seq<char>| #[trigger] saved.entries.dom().contains(k) ==> direct_decryption(saved.entries[k], p) is Some)
            ==> !loaded.key_check_rejects(p),
        forall|k: Seq<char>| #[trigger] reopened.retrieve(k) == saved.retrieve(k),
        reopened.exported() == saved.exported(),
{
    lemma_same_passphrase_same_reads(saved, reopened, p);
}

} // verus!

verus! {

/// Changing the passphrase of a store that holds `p` is refused exactly when
/// the old passphrase given is not `p`, or the new one is the old one.
pub proof fn lemma_passphrase_change_rule(v: TesseractView, old_p: Seq<u8>, new_p: Seq<u8>)
    requires
        v.passphrase() is Some,
    ensures
        v.passphrase_change_refused(old_p, new_p) <==> (v.passphrase() != Some(old_p) || new_p == old_p),
{
}

/// The AES key depends on the whole passphrase: two passphrases of the same
/// kind (both 32 bytes, or both not) that give the same key with the same
/// nonce are equal, provided SHA-256 does not collide on them.
pub proof fn lemma_derive_key_injective(p: Seq<u8>, q: Seq<u8>, nonce: Seq<u8>)
    requires
        (p.len() == KEY_LEN) == (q.len() == KEY_LEN),
        derive_key(p, nonce) == derive_key(q, nonce),
        sha256_digest(p + nonce) == sha256_digest(q + nonce) ==> p + nonce == q + nonce,
    ensures
        p == q,
{
    if p.len() != KEY_LEN {
        assert((p + nonce).len() == (q + nonce).len());
        assert(p =~= (p + nonce).subrange(0, p.len() as int));
        assert(q =~= (q + nonce).subrange(0, q.len() as int));
    }
}

/// Two stores compare the same only if they hold the same entries, the same
/// passphrase, and agree on being unlocked and on autosave.
pub proof fn lemma_same_state_means_same_store(a: TesseractView, b: TesseractView)
    requires
        same_state_spec(a, b),
    ensures
        a.entries == b.entries,
        a.enc_pass == b.enc_pass,
        a.unlocked == b.unlocked,
        a.autosave == b.autosave,
{
}

} // verus!
