//! The record store engine: the byte contents of a credential file held in
//! memory, with the scan-based lookup, insert and removal over the record
//! codec. Values are stored and returned verbatim; the hashed credential
//! semantics are layered on top in [`crate::cred`].

use vstd::prelude::*;
use crate::SucError;
use crate::codec::{
    rec_enc, step_ok, step_key, step_end, Lookup, lookup_from, lookup, lemma_lookup_found_props,
    bytes_eq, push_all, encode,
};

verus! {

/// Scans the records of `buf` for `key`, returning the offset and encoded
/// size of the first record whose key matches, `None` if the scan reaches
/// the end of the buffer, or `CorruptStore` at a malformed length prefix.
fn scan(buf: &[u8], key: &[u8]) -> (r: Result<Option<(usize, usize)>, SucError>)
    ensures
        match lookup(buf@, key@) {
            Lookup::Found { value, at, size } => r == Ok::<Option<(usize, usize)>, SucError>(
                Some((at as usize, size as usize)),
            ),
            Lookup::Absent => r == Ok::<Option<(usize, usize)>, SucError>(None),
            Lookup::Corrupt => r == Err::<Option<(usize, usize)>, SucError>(
                SucError::CorruptStore,
            ),
        },
{
    let n: usize = buf.len();
    let mut i: usize = 0;
    while i < n
        invariant
            n == buf@.len(),
            0 <= i <= n,
            lookup(buf@, key@) == lookup_from(buf@, i as int, key@),
        decreases n - i,
    {
        let k_len: usize = *vstd::slice::slice_index_get(buf, i) as usize;
        if k_len >= n - i - 1 {
            assert(!step_ok(buf@, i as int));
            return Err(SucError::CorruptStore);
        }
        let v_pos: usize = i + 1 + k_len;
        let v_len: usize = *vstd::slice::slice_index_get(buf, v_pos) as usize;
        if v_len > n - v_pos - 1 {
            assert(!step_ok(buf@, i as int));
            return Err(SucError::CorruptStore);
        }
        let end: usize = v_pos + 1 + v_len;
        assert(step_ok(buf@, i as int));
        assert(step_end(buf@, i as int) == end as int);
        let k = vstd::slice::slice_subrange(buf, i + 1, v_pos);
        if bytes_eq(k, key) {
            assert(step_key(buf@, i as int) == key@);
            return Ok(Some((i, end - i)));
        }
        assert(step_key(buf@, i as int) != key@);
        i = end;
    }
    Ok(None)
}

/// An in-memory record store: the full byte contents of one credential
/// file. Its view is that byte sequence; what the operations return is
/// stated over [`lookup`], the scan over those bytes.
pub struct Store {
    buf: Vec<u8>,
}

impl View for Store {
    type V = Seq<u8>;

    closed spec fn view(&self) -> Seq<u8> {
        self.buf@
    }
}

impl Store {
    /// An empty store.
    pub fn new() -> (s: Store)
        ensures
            s@ == Seq::<u8>::empty(),
    {
        Store { buf: Vec::new() }
    }

    /// A store over bytes loaded from elsewhere, typically a file.
    /// Malformed bytes are not rejected here: a scan that runs into them
    /// fails with `CorruptStore`.
    pub fn from_bytes(buf: Vec<u8>) -> (s: Store)
        ensures
            s@ == buf@,
    {
        Store { buf }
    }

    /// The store's byte contents, as they would be written back to a file.
    pub fn as_bytes(&self) -> (r: &Vec<u8>)
        ensures
            r@ == self@,
    {
        &self.buf
    }

    /// Looks `key` up: the stored value of the first record whose key
    /// matches, `None` if no record matches, or `CorruptStore` if the scan
    /// runs into a malformed length prefix first.
    pub fn get(&self, key: &[u8]) -> (r: Result<Option<Vec<u8>>, SucError>)
        ensures
            match lookup(self@, key@) {
                Lookup::Found { value, .. } => r matches Ok(rv) && rv matches Some(v) && v@
                    == value,
                Lookup::Absent => r == Ok::<Option<Vec<u8>>, SucError>(None),
                Lookup::Corrupt => r == Err::<Option<Vec<u8>>, SucError>(SucError::CorruptStore),
            },
    {
        match scan(self.buf.as_slice(), key) {
            Err(e) => Err(e),
            Ok(None) => Ok(None),
            Ok(Some((at, size))) => {
                let n: usize = self.buf.len();
                proof {
                    assert(lookup(self@, key@) is Found);
                    lemma_lookup_found_props(self@, 0, key@);
                    assert(lookup(self@, key@) matches Lookup::Found { value, at: s_at, size: s_size }
                        && s_at == at as int && s_size == size as int && step_ok(self@, at as int)
                        && step_key(self@, at as int) == key@);
                    assert(step_key(self@, at as int).len() == key@.len());
                    assert(at + size <= n);
                    assert(at as int + 2 + key@.len() <= at as int + size as int);
                }
                let v_start: usize = at + 2 + key.len();
                let v = vstd::slice::slice_to_vec(
                    vstd::slice::slice_subrange(self.buf.as_slice(), v_start, at + size),
                );
                Ok(Some(v))
            },
        }
    }

    /// Appends a record for `key` with `value` stored verbatim, after
    /// rejecting over-long fields and a key that is already present.
    /// Returns the appended bytes, for a caller that mirrors the store to a
    /// file opened in append mode.
    pub fn insert(&mut self, key: &[u8], value: &[u8]) -> (r: Result<Vec<u8>, SucError>)
        ensures
            (r == Err::<Vec<u8>, SucError>(SucError::InvalidInput)) <==> (key@.len() > 255
                || value@.len() > 255),
            key@.len() <= 255 && value@.len() <= 255 ==> {
                &&& (r == Err::<Vec<u8>, SucError>(SucError::AlreadyExists)) <==> lookup(
                    old(self)@,
                    key@,
                ) is Found
                &&& (r == Err::<Vec<u8>, SucError>(SucError::CorruptStore)) <==> lookup(
                    old(self)@,
                    key@,
                ) is Corrupt
                &&& (r is Ok) <==> lookup(old(self)@, key@) is Absent
            },
            r is Err ==> final(self)@ == old(self)@,
            r matches Ok(enc) ==> {
                &&& lookup(old(self)@, key@) is Absent
                &&& enc@ == rec_enc(key@, value@)
                &&& final(self)@ == old(self)@ + rec_enc(key@, value@)
            },
    {
        let enc = match encode(key, value) {
            Ok(enc) => enc,
            Err(e) => {
                return Err(e);
            },
        };
        match scan(self.buf.as_slice(), key) {
            Err(e) => Err(e),
            Ok(Some(_)) => Err(SucError::AlreadyExists),
            Ok(None) => {
                push_all(&mut self.buf, enc.as_slice());
                Ok(enc)
            },
        }
    }

    /// Splices the first record for `key` out of the store: the bytes
    /// before and after that record are kept, in order. `NotFound` if no
    /// record matches; `CorruptStore` at a malformed length prefix.
    pub fn remove(&mut self, key: &[u8]) -> (r: Result<(), SucError>)
        ensures
            (r == Err::<(), SucError>(SucError::InvalidInput)) <==> key@.len() > 255,
            key@.len() <= 255 ==> {
                &&& (r == Err::<(), SucError>(SucError::NotFound)) <==> lookup(
                    old(self)@,
                    key@,
                ) is Absent
                &&& (r == Err::<(), SucError>(SucError::CorruptStore)) <==> lookup(
                    old(self)@,
                    key@,
                ) is Corrupt
                &&& (r is Ok) <==> lookup(old(self)@, key@) is Found
            },
            r is Err ==> final(self)@ == old(self)@,
            r is Ok ==> (lookup(old(self)@, key@) matches Lookup::Found { at, size, .. }
                && final(self)@ == old(self)@.subrange(0, at) + old(self)@.subrange(
                at + size,
                old(self)@.len() as int,
            )),
    {
        if key.len() > 255 {
            return Err(SucError::InvalidInput);
        }
        match scan(self.buf.as_slice(), key) {
            Err(e) => Err(e),
            Ok(None) => Err(SucError::NotFound),
            Ok(Some((at, size))) => {
                let n: usize = self.buf.len();
                proof {
                    assert(lookup(self@, key@) is Found);
                    lemma_lookup_found_props(self@, 0, key@);
                    assert(at + size <= n);
                }
                let mut nb = vstd::slice::slice_to_vec(
                    vstd::slice::slice_subrange(self.buf.as_slice(), 0, at),
                );
                push_all(
                    &mut nb,
                    vstd::slice::slice_subrange(self.buf.as_slice(), at + size, n),
                );
                self.buf = nb;
                Ok(())
            },
        }
    }
}

} // verus!
