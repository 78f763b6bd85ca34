//! The credential store engine: the record store with hashed-value
//! semantics. `add` stores a salted hash of the secret, never the secret;
//! `check` recomputes and compares; `remove` splices the record out.
//!
//! The backing file itself is owned by the caller: it loads the file's
//! bytes into a [`CredStore`], and mirrors the appends and rewrites that
//! the contracts here describe back to disk.

use vstd::prelude::*;
use crate::SucError;
use crate::codec::{rec_enc, Lookup, lookup, law_scan_after_add};
use crate::hashing::{verifies, wf_hash, hash_secret, verify_secret};
use crate::store::Store;

verus! {

/// Whether `enc` is an encoded record binding `key` to some stored hash
/// that is well-formed for verification and that the secret verifies
/// against.
pub open spec fn hashed_record_for(key: Seq<u8>, secret: Seq<u8>, enc: Seq<u8>) -> bool {
    exists|h: Seq<u8>|
        {
            &&& h.len() <= 255
            &&& verifies(secret, h)
            &&& wf_hash(h)
            &&& enc == rec_enc(key, h)
        }
}

/// A credential added to a store that does not hold its key can at once be
/// checked: the record that `add` appends for a fresh key is found by the
/// scan of the new contents, and its stored value is a well-formed hash
/// that the original secret verifies against — which is exactly the case in
/// which `check` returns `Ok(true)`, and in which a `check` with any wrong
/// in-bounds secret returns `Ok(false)`, never an error.
pub proof fn law_added_credential_checks(b: Seq<u8>, key: Seq<u8>, secret: Seq<u8>, enc: Seq<u8>)
    requires
        lookup(b, key) is Absent,
        key.len() <= 255,
        hashed_record_for(key, secret, enc),
    ensures
        lookup(b + enc, key) matches Lookup::Found { value, .. } && verifies(secret, value)
            && wf_hash(value),
{
    let h = choose|h: Seq<u8>|
        {
            &&& h.len() <= 255
            &&& verifies(secret, h)
            &&& wf_hash(h)
            &&& enc == rec_enc(key, h)
        };
    law_scan_after_add(b, key, h);
}

/// A credential store held in memory: a record store whose values are
/// salted password hashes. Its view is the byte contents of the backing
/// file.
pub struct CredStore {
    store: Store,
}

impl View for CredStore {
    type V = Seq<u8>;

    closed spec fn view(&self) -> Seq<u8> {
        self.store@
    }
}

impl CredStore {
    /// An empty credential store.
    pub fn new() -> (s: CredStore)
        ensures
            s@ == Seq::<u8>::empty(),
    {
        CredStore { store: Store::new() }
    }

    /// A credential store over bytes loaded from a file. Malformed bytes
    /// are not rejected here: a scan that runs into them fails with
    /// `CorruptStore`.
    pub fn from_bytes(buf: Vec<u8>) -> (s: CredStore)
        ensures
            s@ == buf@,
    {
        CredStore { store: Store::from_bytes(buf) }
    }

    /// The store's byte contents, as they would be written back to a file.
    pub fn as_bytes(&self) -> (r: &Vec<u8>)
        ensures
            r@ == self@,
    {
        self.store.as_bytes()
    }

    /// Validates the lengths of `key` and `secret`, scans for `key`, and
    /// appends a record binding `key` to a fresh salted hash of `secret`.
    /// Nothing is written when the key is already present. Returns the
    /// appended bytes, for a caller that mirrors the store to a file opened
    /// in append mode. On in-bounds inputs, a fresh key always succeeds:
    /// hashing an in-bounds secret cannot fail and its hash fits a record.
    pub fn add(&mut self, key: &[u8], secret: &[u8]) -> (r: Result<Vec<u8>, SucError>)
        ensures
            (r == Err::<Vec<u8>, SucError>(SucError::InvalidInput)) <==> (key@.len() > 255
                || secret@.len() > 255),
            key@.len() <= 255 && secret@.len() <= 255 ==> {
                &&& (r == Err::<Vec<u8>, SucError>(SucError::AlreadyExists)) <==> lookup(
                    old(self)@,
                    key@,
                ) is Found
                &&& (r == Err::<Vec<u8>, SucError>(SucError::CorruptStore)) <==> lookup(
                    old(self)@,
                    key@,
                ) is Corrupt
                &&& (r is Ok) <==> lookup(old(self)@, key@) is Absent
            },
            r is Err ==> final(self)@ == old(self)@,
            r matches Ok(enc) ==> {
                &&& lookup(old(self)@, key@) is Absent
                &&& hashed_record_for(key@, secret@, enc@)
                &&& final(self)@ == old(self)@ + enc@
            },
    {
        if key.len() > 255 || secret.len() > 255 {
            return Err(SucError::InvalidInput);
        }
        match self.store.get(key) {
            Err(e) => {
                return Err(e);
            },
            Ok(Some(_)) => {
                return Err(SucError::AlreadyExists);
            },
            Ok(None) => {},
        }
        let h = match hash_secret(secret) {
            Ok(h) => h,
            Err(e) => {
                return Err(e);
            },
        };
        match self.store.insert(key, h.as_slice()) {
            Ok(enc) => {
                proof {
                    assert(hashed_record_for(key@, secret@, enc@)) by {
                        assert(h@.len() <= 255 && verifies(secret@, h@) && wf_hash(h@) && enc@
                            == rec_enc(key@, h@));
                    }
                }
                Ok(enc)
            },
            Err(e) => Err(e),
        }
    }

    /// Validates the lengths of `key` and `secret`, scans for `key`, and
    /// verifies `secret` against the stored hash: `Ok(true)` exactly when
    /// the stored hash verifies, `Ok(false)` on a digest mismatch against a
    /// well-formed stored hash, `NotFound` when no record has the key, and
    /// `HashingFault` exactly when the stored hash is malformed — a fault is
    /// never reported as a wrong secret, nor a wrong secret as a fault.
    pub fn check(&self, key: &[u8], secret: &[u8]) -> (r: Result<bool, SucError>)
        ensures
            (r == Err::<bool, SucError>(SucError::InvalidInput)) <==> (key@.len() > 255
                || secret@.len() > 255),
            key@.len() <= 255 && secret@.len() <= 255 ==> {
                &&& (r == Err::<bool, SucError>(SucError::NotFound)) <==> lookup(
                    self@,
                    key@,
                ) is Absent
                &&& (r == Err::<bool, SucError>(SucError::CorruptStore)) <==> lookup(
                    self@,
                    key@,
                ) is Corrupt
                &&& (lookup(self@, key@) matches Lookup::Found { value, .. } ==> {
                    &&& (r matches Ok(b) ==> b == verifies(secret@, value))
                    &&& (verifies(secret@, value) ==> r == Ok::<bool, SucError>(true))
                    &&& (wf_hash(value) ==> r is Ok)
                    &&& (!wf_hash(value) ==> r == Err::<bool, SucError>(SucError::HashingFault))
                })
            },
    {
        if key.len() > 255 || secret.len() > 255 {
            return Err(SucError::InvalidInput);
        }
        let stored = match self.store.get(key) {
            Err(e) => {
                return Err(e);
            },
            Ok(None) => {
                return Err(SucError::NotFound);
            },
            Ok(Some(v)) => v,
        };
        verify_secret(secret, stored.as_slice())
    }

    /// Validates the length of `key`, scans for it, and splices its record
    /// out of the store. The caller rewrites the backing file with the new
    /// contents. `NotFound` leaves the store unchanged, as does every other
    /// failure.
    pub fn remove(&mut self, key: &[u8]) -> (r: Result<(), SucError>)
        ensures
            (r == Err::<(), SucError>(SucError::InvalidInput)) <==> key@.len() > 255,
            key@.len() <= 255 ==> {
                &&& (r == Err::<(), SucError>(SucError::NotFound)) <==> lookup(
                    old(self)@,
                    key@,
                ) is Absent
                &&& (r == Err::<(), SucError>(SucError::CorruptStore)) <==> lookup(
                    old(self)@,
                    key@,
                ) is Corrupt
                &&& (r is Ok) <==> lookup(old(self)@, key@) is Found
            },
            r is Err ==> final(self)@ == old(self)@,
            r is Ok ==> (lookup(old(self)@, key@) matches Lookup::Found { at, size, .. }
                && final(self)@ == old(self)@.subrange(0, at) + old(self)@.subrange(
                at + size,
                old(self)@.len() as int,
            )),
    {
        self.store.remove(key)
    }
}

} // verus!
