use suc::SucError;
use suc::codec::decode;
use suc::cred::CredStore;
use suc::store::Store;

#[test]
fn add_then_check_succeeds() {
    let mut s = CredStore::new();
    s.add(b"alice", b"opensesame").unwrap();
    assert_eq!(s.check(b"alice", b"opensesame"), Ok(true));
}

#[test]
fn stored_value_is_a_hash_not_the_secret() {
    let mut s = CredStore::new();
    s.add(b"alice", b"opensesame").unwrap();
    let (key, value, next) = decode(s.as_bytes(), 0).unwrap();
    assert_eq!(key, b"alice".to_vec());
    assert_ne!(value, b"opensesame".to_vec());
    assert!(value.starts_with(b"$argon2"));
    assert_eq!(next, s.as_bytes().len());
}

#[test]
fn duplicate_add_keeps_original_credential() {
    let mut s = CredStore::new();
    s.add(b"alice", b"first").unwrap();
    let before = s.as_bytes().clone();
    assert_eq!(s.add(b"alice", b"second"), Err(SucError::AlreadyExists));
    assert_eq!(s.as_bytes(), &before);
    assert_eq!(s.check(b"alice", b"first"), Ok(true));
    assert_eq!(s.check(b"alice", b"second"), Ok(false));
}

#[test]
fn wrong_secret_is_false_not_an_error() {
    let mut s = CredStore::new();
    s.add(b"alice", b"right").unwrap();
    assert_eq!(s.check(b"alice", b"wrong"), Ok(false));
}

#[test]
fn length_255_succeeds_and_256_is_rejected() {
    let mut s = CredStore::new();
    let key_max = vec![b'k'; 255];
    let secret_max = vec![b's'; 255];
    s.add(&key_max, &secret_max).unwrap();
    assert_eq!(s.check(&key_max, &secret_max), Ok(true));

    let too_long = vec![b'x'; 256];
    assert_eq!(s.add(&too_long, b"pw"), Err(SucError::InvalidInput));
    assert_eq!(s.add(b"bob", &too_long), Err(SucError::InvalidInput));
    assert_eq!(s.check(&too_long, b"pw"), Err(SucError::InvalidInput));
    assert_eq!(s.check(b"bob", &too_long), Err(SucError::InvalidInput));
    assert_eq!(s.remove(&too_long), Err(SucError::InvalidInput));
}

#[test]
fn check_unknown_key_is_not_found() {
    let mut s = CredStore::new();
    s.add(b"alice", b"pw").unwrap();
    assert_eq!(s.check(b"bob", b"pw"), Err(SucError::NotFound));
}

#[test]
fn remove_erases_one_record_and_keeps_the_rest() {
    let mut s = CredStore::new();
    s.add(b"alice", b"pw1").unwrap();
    s.add(b"bob", b"pw2").unwrap();
    let (_first_key, _first_value, first_size) = decode(s.as_bytes(), 0).unwrap();
    let before = s.as_bytes().len();
    s.remove(b"alice").unwrap();
    assert_eq!(s.as_bytes().len(), before - first_size);
    assert_eq!(s.check(b"alice", b"pw1"), Err(SucError::NotFound));
    assert_eq!(s.remove(b"alice"), Err(SucError::NotFound));
    assert_eq!(s.check(b"bob", b"pw2"), Ok(true));
}

#[test]
fn remove_missing_key_leaves_store_unchanged() {
    let mut s = CredStore::new();
    s.add(b"alice", b"pw").unwrap();
    let before = s.as_bytes().clone();
    assert_eq!(s.remove(b"bob"), Err(SucError::NotFound));
    assert_eq!(s.as_bytes(), &before);
}

#[test]
fn corrupt_bytes_fail_with_corrupt_store() {
    let s = CredStore::from_bytes(vec![9, 1]);
    assert_eq!(s.check(b"a", b"b"), Err(SucError::CorruptStore));
    let mut m = CredStore::from_bytes(vec![9, 1]);
    assert_eq!(m.add(b"a", b"b"), Err(SucError::CorruptStore));
    assert_eq!(m.remove(b"a"), Err(SucError::CorruptStore));
}

#[test]
fn malformed_stored_hash_is_a_fault_not_a_mismatch() {
    let mut raw = Store::new();
    raw.insert(b"alice", b"not-a-hash-string").unwrap();
    let s = CredStore::from_bytes(raw.as_bytes().clone());
    assert_eq!(s.check(b"alice", b"anything"), Err(SucError::HashingFault));
}
