//! The record codec: one length-prefixed key/value pair, and the scan that
//! walks a buffer of such records.
//!
//! The on-disk format is a sequence of records with no header or checksum:
//! `[key_len: u8][key bytes][value_len: u8][value bytes]`, repeated. A scan
//! walks the buffer record by record; any length prefix that would read past
//! the end of the buffer is a deterministic decode failure, never an
//! out-of-bounds access.

use vstd::prelude::*;
use crate::SucError;

verus! {

/// The encoded bytes of one record: a 1-byte key length, the key bytes,
/// a 1-byte value length, the value bytes.
pub open spec fn rec_enc(key: Seq<u8>, value: Seq<u8>) -> Seq<u8>
    recommends
        key.len() <= 255,
        value.len() <= 255,
{
    seq![key.len() as u8] + key + seq![value.len() as u8] + value
}

/// Whether a whole record, with both of its length prefixes, lies within
/// `b` starting at offset `i`.
pub open spec fn step_ok(b: Seq<u8>, i: int) -> bool {
    &&& 0 <= i < b.len()
    &&& i + 1 + (b[i] as int) < b.len()
    &&& i + 2 + (b[i] as int) + (b[i + 1 + (b[i] as int)] as int) <= b.len()
}

/// The key bytes of the record at offset `i`.
pub open spec fn step_key(b: Seq<u8>, i: int) -> Seq<u8>
    recommends
        step_ok(b, i),
{
    b.subrange(i + 1, i + 1 + (b[i] as int))
}

/// The value bytes of the record at offset `i`.
pub open spec fn step_value(b: Seq<u8>, i: int) -> Seq<u8>
    recommends
        step_ok(b, i),
{
    b.subrange(i + 2 + (b[i] as int), step_end(b, i))
}

/// The offset just past the record at offset `i`.
pub open spec fn step_end(b: Seq<u8>, i: int) -> int
    recommends
        step_ok(b, i),
{
    i + 2 + (b[i] as int) + (b[i + 1 + (b[i] as int)] as int)
}

/// The outcome of scanning a buffer for a key, starting at some offset.
pub enum Lookup {
    /// A record with the key was found: its value bytes, the offset of the
    /// record, and the record's encoded size in bytes.
    Found { value: Seq<u8>, at: int, size: int },
    /// The scan reached the end of the buffer without a match.
    Absent,
    /// A length prefix would read past the end of the buffer.
    Corrupt,
}

/// The scan over the records of `b`, starting at offset `i`, for `key`:
/// at each record, compare its key to `key`; stop at the first match, at a
/// malformed length prefix, or at the end of the buffer.
pub open spec fn lookup_from(b: Seq<u8>, i: int, key: Seq<u8>) -> Lookup
    decreases b.len() - i,
{
    if i == b.len() {
        Lookup::Absent
    } else if !step_ok(b, i) {
        Lookup::Corrupt
    } else if step_key(b, i) == key {
        Lookup::Found { value: step_value(b, i), at: i, size: step_end(b, i) - i }
    } else {
        lookup_from(b, step_end(b, i), key)
    }
}

/// The scan over the records of `b`, from the start, for `key`.
pub open spec fn lookup(b: Seq<u8>, key: Seq<u8>) -> Lookup {
    lookup_from(b, 0, key)
}

/// A found record lies where the scan says it does: at a record boundary at
/// or after the scan's start, with the sought key and the reported extent.
pub proof fn lemma_lookup_found_props(b: Seq<u8>, i: int, key: Seq<u8>)
    requires
        0 <= i <= b.len(),
        lookup_from(b, i, key) is Found,
    ensures
        lookup_from(b, i, key) matches Lookup::Found { value, at, size } && {
            &&& i <= at
            &&& step_ok(b, at)
            &&& step_key(b, at) == key
            &&& value == step_value(b, at)
            &&& size == step_end(b, at) - at
            &&& at + size <= b.len()
            &&& 2 <= size
            &&& key.len() <= 255
            &&& value.len() <= 255
        },
    decreases b.len() - i,
{
    if i == b.len() {
    } else if !step_ok(b, i) {
    } else if step_key(b, i) == key {
        assert(step_key(b, i).len() == b[i] as int);
        assert(step_value(b, i).len() == b[i + 1 + (b[i] as int)] as int);
    } else {
        lemma_lookup_found_props(b, step_end(b, i), key);
    }
}

/// What a scan concludes, apart from where in the buffer it stopped: the
/// value it found, a clean miss, or a malformed buffer.
pub enum Probe {
    Hit(Seq<u8>),
    Miss,
    Broken,
}

/// The conclusion of a scan outcome, with the record's position forgotten.
pub open spec fn probe_of(l: Lookup) -> Probe {
    match l {
        Lookup::Found { value, .. } => Probe::Hit(value),
        Lookup::Absent => Probe::Miss,
        Lookup::Corrupt => Probe::Broken,
    }
}

/// Scans starting where two buffers hold the same remaining bytes reach the
/// same conclusion.
proof fn lemma_scan_shift(b: Seq<u8>, i: int, c: Seq<u8>, j: int, kt: Seq<u8>)
    requires
        0 <= i <= b.len(),
        0 <= j <= c.len(),
        b.len() - i == c.len() - j,
        b.subrange(i, b.len() as int) == c.subrange(j, c.len() as int),
    ensures
        probe_of(lookup_from(b, i, kt)) == probe_of(lookup_from(c, j, kt)),
    decreases b.len() - i,
{
    assert forall|y: int| i <= y < b.len() implies #[trigger] b[y] == c[y - i + j] by {
        let sb = b.subrange(i, b.len() as int);
        let sc = c.subrange(j, c.len() as int);
        assert(sb[y - i] == b[y]);
        assert(sc[y - i] == c[j + (y - i)]);
        assert(sb[y - i] == sc[y - i]);
    }
    if i == b.len() {
    } else if !step_ok(b, i) {
        assert(!step_ok(c, j));
    } else {
        assert(step_ok(c, j));
        assert(step_key(c, j) =~= step_key(b, i));
        assert(step_end(c, j) - j == step_end(b, i) - i);
        if step_key(b, i) == kt {
            assert(step_value(c, j) =~= step_value(b, i));
        } else {
            assert(b.subrange(step_end(b, i), b.len() as int) =~= c.subrange(
                step_end(c, j),
                c.len() as int,
            ));
            lemma_scan_shift(b, step_end(b, i), c, step_end(c, j), kt);
        }
    }
}

/// A scan that misses cleanly walked every record: a scan of the same bytes
/// for any other key cannot run into a malformed length prefix.
proof fn lemma_absent_not_corrupt(b: Seq<u8>, i: int, key: Seq<u8>, kt: Seq<u8>)
    requires
        0 <= i <= b.len(),
        lookup_from(b, i, key) is Absent,
    ensures
        !(lookup_from(b, i, kt) is Corrupt),
    decreases b.len() - i,
{
    if i == b.len() {
    } else {
        assert(step_ok(b, i));
        if step_key(b, i) == kt {
        } else {
            lemma_absent_not_corrupt(b, step_end(b, i), key, kt);
        }
    }
}

/// How appending one well-formed record changes a scan that was not already
/// stuck on a malformed prefix: a hit stays exactly as it was; a miss for
/// the appended key becomes a hit on the new record at the old end of the
/// buffer; a miss for any other key stays a miss.
proof fn lemma_scan_append_from(b: Seq<u8>, i: int, key: Seq<u8>, value: Seq<u8>, kt: Seq<u8>)
    requires
        0 <= i <= b.len(),
        !(lookup_from(b, i, kt) is Corrupt),
        key.len() <= 255,
        value.len() <= 255,
    ensures
        ({
            let c = b + rec_enc(key, value);
            &&& (lookup_from(b, i, kt) is Found ==> lookup_from(c, i, kt) == lookup_from(
                b,
                i,
                kt,
            ))
            &&& (lookup_from(b, i, kt) is Absent && kt == key ==> lookup_from(c, i, kt)
                == (Lookup::Found {
                value: value,
                at: b.len() as int,
                size: 2 + key.len() as int + value.len() as int,
            }))
            &&& (lookup_from(b, i, kt) is Absent && kt != key ==> lookup_from(c, i, kt) is Absent)
        }),
    decreases b.len() - i,
{
    let e = rec_enc(key, value);
    let c = b + e;
    assert(c.len() == b.len() + 2 + key.len() + value.len());
    assert(forall|x: int| 0 <= x < b.len() ==> c[x] == b[x]);
    assert(forall|x: int| 0 <= x < e.len() ==> c[b.len() + x] == e[x]);
    if i == b.len() {
        assert(e[0] == key.len() as u8);
        assert(forall|x: int| 0 <= x < key.len() ==> e[1 + x] == key[x]);
        assert(e[1 + key.len() as int] == value.len() as u8);
        assert(forall|x: int| 0 <= x < value.len() ==> e[2 + key.len() + x] == value[x]);
        assert(c[i] == key.len() as u8);
        assert(c[i + 1 + key.len()] == value.len() as u8);
        assert(step_ok(c, i));
        assert(step_key(c, i) =~= key);
        assert(step_end(c, i) == c.len());
        if kt == key {
            assert(step_value(c, i) =~= value);
        } else {
            assert(lookup_from(c, step_end(c, i), kt) is Absent);
        }
    } else {
        assert(step_ok(b, i));
        assert(step_ok(c, i));
        assert(step_key(c, i) =~= step_key(b, i));
        assert(step_end(c, i) == step_end(b, i));
        if step_key(b, i) == kt {
            assert(step_value(c, i) =~= step_value(b, i));
        } else {
            lemma_scan_append_from(b, step_end(b, i), key, value, kt);
        }
    }
}

/// A scan of the empty buffer misses: an empty store holds no record.
pub proof fn law_scan_of_empty(key: Seq<u8>)
    ensures
        lookup(Seq::<u8>::empty(), key) is Absent,
{
}

/// Appending a record for a key the scan does not find makes that key
/// found, bound to exactly the appended value, at the old end of the
/// buffer.
pub proof fn law_scan_after_add(b: Seq<u8>, key: Seq<u8>, value: Seq<u8>)
    requires
        lookup(b, key) is Absent,
        key.len() <= 255,
        value.len() <= 255,
    ensures
        lookup(b + rec_enc(key, value), key) == (Lookup::Found {
            value: value,
            at: b.len() as int,
            size: 2 + key.len() as int + value.len() as int,
        }),
{
    lemma_scan_append_from(b, 0, key, value, key);
}

/// Appending a record for a fresh key leaves every other key's scan as it
/// was: a hit keeps its value and position, a miss stays a miss.
pub proof fn law_scan_after_add_other(b: Seq<u8>, key: Seq<u8>, value: Seq<u8>, kt: Seq<u8>)
    requires
        lookup(b, key) is Absent,
        key.len() <= 255,
        value.len() <= 255,
        kt != key,
    ensures
        lookup(b, kt) is Found ==> lookup(b + rec_enc(key, value), kt) == lookup(b, kt),
        lookup(b, kt) is Absent ==> lookup(b + rec_enc(key, value), kt) is Absent,
{
    lemma_absent_not_corrupt(b, 0, key, kt);
    lemma_scan_append_from(b, 0, key, value, kt);
}

/// How splicing the found record for `key` out of the buffer changes a
/// scan, from any record boundary at or before that record: for the spliced
/// key the scan concludes what the continuation past its old record
/// concluded; for any other key it concludes exactly what it did before.
proof fn lemma_scan_splice_from(b: Seq<u8>, i: int, key: Seq<u8>, kt: Seq<u8>)
    requires
        0 <= i <= b.len(),
        lookup_from(b, i, key) is Found,
    ensures
        ({
            let l = lookup_from(b, i, key);
            let b2 = b.subrange(0, l->at) + b.subrange(l->at + l->size, b.len() as int);
            &&& (kt != key ==> probe_of(lookup_from(b2, i, kt)) == probe_of(lookup_from(b, i, kt)))
            &&& (kt == key ==> probe_of(lookup_from(b2, i, kt)) == probe_of(
                lookup_from(b, l->at + l->size, kt),
            ))
        }),
    decreases b.len() - i,
{
    let l = lookup_from(b, i, key);
    let at = l->at;
    let size = l->size;
    lemma_lookup_found_props(b, i, key);
    let b2 = b.subrange(0, at) + b.subrange(at + size, b.len() as int);
    assert(b2.len() == b.len() - size);
    assert(forall|x: int| 0 <= x < at ==> b2[x] == b[x]);
    assert(b.subrange(at + size, b.len() as int) =~= b2.subrange(at, b2.len() as int));
    if i == at {
        lemma_scan_shift(b, at + size, b2, at, kt);
        if kt != key {
            assert(lookup_from(b, i, kt) == lookup_from(b, at + size, kt));
        }
    } else {
        assert(step_ok(b, i));
        assert(step_key(b, i) != key);
        let end = step_end(b, i);
        assert(lookup_from(b, end, key) == l);
        lemma_lookup_found_props(b, end, key);
        assert(end <= at);
        assert(step_ok(b2, i));
        assert(step_key(b2, i) =~= step_key(b, i));
        assert(step_end(b2, i) == end);
        if step_key(b, i) == kt {
            assert(step_value(b2, i) =~= step_value(b, i));
        } else {
            lemma_scan_splice_from(b, end, key, kt);
        }
    }
}

/// Splicing the found record for a key out of the buffer makes a scan for
/// that key miss, provided the scan past the spliced record missed — the
/// scan finds no duplicate later in the buffer.
pub proof fn law_scan_after_remove(b: Seq<u8>, key: Seq<u8>)
    requires
        lookup(b, key) is Found,
        lookup_from(b, lookup(b, key)->at + lookup(b, key)->size, key) is Absent,
    ensures
        ({
            let l = lookup(b, key);
            lookup(b.subrange(0, l->at) + b.subrange(l->at + l->size, b.len() as int), key)
                is Absent
        }),
{
    lemma_scan_splice_from(b, 0, key, key);
}

/// Splicing the found record for a key out of the buffer leaves what a scan
/// for every other key concludes — the value it finds, a clean miss, or a
/// malformed buffer — exactly as it was.
pub proof fn law_scan_after_remove_other(b: Seq<u8>, key: Seq<u8>, kt: Seq<u8>)
    requires
        lookup(b, key) is Found,
        kt != key,
    ensures
        ({
            let l = lookup(b, key);
            probe_of(
                lookup(b.subrange(0, l->at) + b.subrange(l->at + l->size, b.len() as int), kt),
            ) == probe_of(lookup(b, kt))
        }),
{
    lemma_scan_splice_from(b, 0, key, kt);
}

/// Two records appended to an empty buffer, then the first one spliced out
/// by its scan position: the first key is then absent, the second record is
/// untouched — the remaining bytes are exactly its encoding, the old length
/// minus the first record's encoded size.
pub proof fn law_remove_first_of_two(k1: Seq<u8>, v1: Seq<u8>, k2: Seq<u8>, v2: Seq<u8>)
    requires
        k1 != k2,
        k1.len() <= 255,
        v1.len() <= 255,
        k2.len() <= 255,
        v2.len() <= 255,
    ensures
        ({
            let b = rec_enc(k1, v1) + rec_enc(k2, v2);
            let l = lookup(b, k1);
            &&& l == (Lookup::Found {
                value: v1,
                at: 0,
                size: rec_enc(k1, v1).len() as int,
            })
            &&& b.subrange(0, l->at) + b.subrange(l->at + l->size, b.len() as int) == rec_enc(
                k2,
                v2,
            )
            &&& lookup(rec_enc(k2, v2), k1) is Absent
            &&& lookup(rec_enc(k2, v2), k2) == (Lookup::Found {
                value: v2,
                at: 0,
                size: rec_enc(k2, v2).len() as int,
            })
        }),
{
    let r1 = rec_enc(k1, v1);
    let r2 = rec_enc(k2, v2);
    let b = r1 + r2;
    assert(r1.len() == 2 + k1.len() + v1.len() && r2.len() == 2 + k2.len() + v2.len());
    law_scan_after_add(Seq::<u8>::empty(), k1, v1);
    law_scan_after_add_other(Seq::<u8>::empty(), k1, v1, k2);
    assert(Seq::<u8>::empty() + r1 =~= r1);
    law_scan_after_add_other(r1, k2, v2, k1);
    law_scan_after_add(Seq::<u8>::empty(), k2, v2);
    law_scan_after_add_other(Seq::<u8>::empty(), k2, v2, k1);
    assert(Seq::<u8>::empty() + r2 =~= r2);
    let l = lookup(b, k1);
    assert(b.subrange(0, l->at) + b.subrange(l->at + l->size, b.len() as int) =~= r2);
}

/// Compares two byte strings.
pub fn bytes_eq(a: &[u8], b: &[u8]) -> (r: bool)
    ensures
        r == (a@ == b@),
{
    if a.len() != b.len() {
        return false;
    }
    let n: usize = a.len();
    let mut i: usize = 0;
    while i < n
        invariant
            n == a@.len(),
            n == b@.len(),
            0 <= i <= n,
            forall|j: int| 0 <= j < i ==> a@[j] == b@[j],
        decreases n - i,
    {
        if *vstd::slice::slice_index_get(a, i) != *vstd::slice::slice_index_get(b, i) {
            assert(a@[i as int] != b@[i as int]);
            assert(a@ != b@);
            return false;
        }
        i = i + 1;
    }
    assert(a@ =~= b@);
    true
}

/// Appends all of `src` to `dst`.
pub fn push_all(dst: &mut Vec<u8>, src: &[u8])
    ensures
        final(dst)@ == old(dst)@ + src@,
{
    let n: usize = src.len();
    let mut i: usize = 0;
    while i < n
        invariant
            n == src@.len(),
            0 <= i <= n,
            dst@ == old(dst)@ + src@.subrange(0, i as int),
        decreases n - i,
    {
        let byte: u8 = *vstd::slice::slice_index_get(src, i);
        dst.push(byte);
        assert(dst@ =~= old(dst)@ + src@.subrange(0, i + 1));
        i = i + 1;
    }
    assert(dst@ =~= old(dst)@ + src@);
}

/// Encodes one record, or rejects a key or value longer than 255 bytes.
pub fn encode(key: &[u8], value: &[u8]) -> (r: Result<Vec<u8>, SucError>)
    ensures
        key@.len() <= 255 && value@.len() <= 255 ==> (r matches Ok(b) && b@ == rec_enc(
            key@,
            value@,
        )),
        key@.len() > 255 || value@.len() > 255 ==> r == Err::<Vec<u8>, SucError>(
            SucError::InvalidInput,
        ),
{
    if key.len() > 255 || value.len() > 255 {
        return Err(SucError::InvalidInput);
    }
    let mut out: Vec<u8> = Vec::new();
    out.push(key.len() as u8);
    push_all(&mut out, key);
    out.push(value.len() as u8);
    push_all(&mut out, value);
    assert(out@ =~= rec_enc(key@, value@));
    Ok(out)
}

/// Decodes the record at `offset`: its key, its value, and the offset of the
/// next record. Any length prefix that would read past the end of `buf` is a
/// `CorruptStore` failure, as is an `offset` with no room for a record.
pub fn decode(buf: &[u8], offset: usize) -> (r: Result<(Vec<u8>, Vec<u8>, usize), SucError>)
    ensures
        step_ok(buf@, offset as int) ==> (r matches Ok(t) && {
            &&& t.0@ == step_key(buf@, offset as int)
            &&& t.1@ == step_value(buf@, offset as int)
            &&& t.2 as int == step_end(buf@, offset as int)
        }),
        !step_ok(buf@, offset as int) ==> r == Err::<(Vec<u8>, Vec<u8>, usize), SucError>(
            SucError::CorruptStore,
        ),
{
    if offset >= buf.len() {
        return Err(SucError::CorruptStore);
    }
    let k_len: usize = *vstd::slice::slice_index_get(buf, offset) as usize;
    if k_len >= buf.len() - offset - 1 {
        return Err(SucError::CorruptStore);
    }
    let v_pos: usize = offset + 1 + k_len;
    let v_len: usize = *vstd::slice::slice_index_get(buf, v_pos) as usize;
    if v_len > buf.len() - v_pos - 1 {
        return Err(SucError::CorruptStore);
    }
    let end: usize = v_pos + 1 + v_len;
    let key = vstd::slice::slice_to_vec(vstd::slice::slice_subrange(buf, offset + 1, v_pos));
    let value = vstd::slice::slice_to_vec(vstd::slice::slice_subrange(buf, v_pos + 1, end));
    Ok((key, value, end))
}

} // verus!
