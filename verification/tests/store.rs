use suc::SucError;
use suc::codec::{encode, decode};
use suc::store::Store;

#[test]
fn encode_length_limits() {
    let key = vec![b'k'; 255];
    let value = vec![b'v'; 255];
    let enc = encode(&key, &value).unwrap();
    assert_eq!(enc.len(), 2 + 255 + 255);
    assert_eq!(enc[0], 255);
    assert_eq!(enc[256], 255);

    let long = vec![b'x'; 256];
    assert_eq!(encode(&long, &value), Err(SucError::InvalidInput));
    assert_eq!(encode(&key, &long), Err(SucError::InvalidInput));
}

#[test]
fn encode_layout() {
    let enc = encode(b"ab", b"xyz").unwrap();
    assert_eq!(enc, vec![2, b'a', b'b', 3, b'x', b'y', b'z']);
}

#[test]
fn decode_reads_back_what_encode_wrote() {
    let mut bytes = encode(b"user", b"secret").unwrap();
    let mut more = encode(b"other", b"rest").unwrap();
    let first_len = bytes.len();
    bytes.append(&mut more);

    let (k, v, next) = decode(&bytes, 0).unwrap();
    assert_eq!(k, b"user".to_vec());
    assert_eq!(v, b"secret".to_vec());
    assert_eq!(next, first_len);

    let (k2, v2, next2) = decode(&bytes, next).unwrap();
    assert_eq!(k2, b"other".to_vec());
    assert_eq!(v2, b"rest".to_vec());
    assert_eq!(next2, bytes.len());
}

#[test]
fn decode_rejects_out_of_range_lengths() {
    assert_eq!(decode(&[5], 0), Err(SucError::CorruptStore));
    assert_eq!(decode(&[1, b'k', 9, b'v'], 0), Err(SucError::CorruptStore));
    assert_eq!(decode(&[], 0), Err(SucError::CorruptStore));
    let ok = vec![1, b'k', 1, b'v'];
    assert_eq!(decode(&ok, 4), Err(SucError::CorruptStore));
}

#[test]
fn insert_and_get_verbatim() {
    let mut s = Store::new();
    assert_eq!(s.get(b"user"), Ok(None));
    s.insert(b"user", b"value").unwrap();
    assert_eq!(s.get(b"user"), Ok(Some(b"value".to_vec())));
    assert_eq!(s.get(b"missing"), Ok(None));
}

#[test]
fn insert_rejects_duplicate_key() {
    let mut s = Store::new();
    s.insert(b"user", b"one").unwrap();
    let before = s.as_bytes().clone();
    assert_eq!(s.insert(b"user", b"two"), Err(SucError::AlreadyExists));
    assert_eq!(s.as_bytes(), &before);
    assert_eq!(s.get(b"user"), Ok(Some(b"one".to_vec())));
}

#[test]
fn insert_rejects_long_fields() {
    let mut s = Store::new();
    let long = vec![b'x'; 256];
    assert_eq!(s.insert(&long, b"v"), Err(SucError::InvalidInput));
    assert_eq!(s.insert(b"k", &long), Err(SucError::InvalidInput));
    let edge = vec![b'x'; 255];
    s.insert(&edge, &edge).unwrap();
    assert_eq!(s.get(&edge), Ok(Some(edge.clone())));
}

#[test]
fn remove_splices_record_out() {
    let mut s = Store::new();
    s.insert(b"first", b"1").unwrap();
    s.insert(b"second", b"22").unwrap();
    let before = s.as_bytes().len();
    s.remove(b"first").unwrap();
    assert_eq!(s.as_bytes().len(), before - (2 + b"first".len() + 1));
    assert_eq!(s.get(b"first"), Ok(None));
    assert_eq!(s.get(b"second"), Ok(Some(b"22".to_vec())));
}

#[test]
fn remove_missing_key_changes_nothing() {
    let mut s = Store::new();
    s.insert(b"user", b"value").unwrap();
    let before = s.as_bytes().clone();
    assert_eq!(s.remove(b"missing"), Err(SucError::NotFound));
    assert_eq!(s.as_bytes(), &before);
    let long = vec![b'x'; 256];
    assert_eq!(s.remove(&long), Err(SucError::InvalidInput));
    assert_eq!(s.as_bytes(), &before);
}

#[test]
fn corrupt_bytes_fail_deterministically() {
    let s = Store::from_bytes(vec![200, b'a']);
    assert_eq!(s.get(b"a"), Err(SucError::CorruptStore));
    let mut m = Store::from_bytes(vec![1, b'a', 7]);
    assert_eq!(m.remove(b"a"), Err(SucError::CorruptStore));
    assert_eq!(m.insert(b"b", b"v"), Err(SucError::CorruptStore));
    // a record before the damage is still reachable
    let mut good = Store::new();
    good.insert(b"a", b"v").unwrap();
    let mut bytes = good.as_bytes().clone();
    bytes.push(250);
    let d = Store::from_bytes(bytes);
    assert_eq!(d.get(b"a"), Ok(Some(b"v".to_vec())));
    assert_eq!(d.get(b"b"), Err(SucError::CorruptStore));
}
