use suc::session::{Session, SessionPool};

fn is_alnum(c: char) -> bool {
    c.is_ascii_alphanumeric()
}

#[test]
fn generated_token_is_48_alphanumeric_chars_and_live() {
    let mut pool = SessionPool::new(1_000_000);
    let token = pool.generate();
    assert_eq!(token.len(), 48);
    assert!(token.chars().all(is_alnum));
    assert!(pool.check(&token));
    assert!(!pool.check("no-such-token"));
}

#[test]
fn token_expires_after_ttl_and_is_purged() {
    let mut pool = SessionPool::new(100);
    let token = pool.generate_at(1_000);
    assert!(pool.check_at(&token, 1_000));
    assert!(pool.check_at(&token, 1_100));
    assert!(!pool.check_at(&token, 1_101));
    assert!(!pool.check_at(&token, 1_101));
    assert!(!pool.check_at(&token, 1_000));
}

#[test]
fn remove_invalidates_before_ttl() {
    let mut pool = SessionPool::new(1_000_000);
    let token = pool.generate_at(0);
    assert!(pool.check_at(&token, 1));
    pool.remove(&token);
    assert!(!pool.check_at(&token, 1));
}

#[test]
fn remove_of_absent_token_is_a_quiet_no_op() {
    let mut pool = SessionPool::new(1_000);
    let token = pool.generate_at(0);
    pool.remove("not-issued");
    assert!(pool.check_at(&token, 0));
}

#[test]
fn tokens_are_independent() {
    let mut pool = SessionPool::new(50);
    let young = pool.generate_at(100);
    let old = pool.generate_at(0);
    assert!(!pool.check_at(&old, 100));
    assert!(pool.check_at(&young, 100));
}

#[test]
fn session_records_token_and_creation_time() {
    let s = Session::new_at("tok", 5);
    assert_eq!(s.since_at(12), 7);
    assert_eq!(s.since_at(5), 0);
    assert_eq!(s.since_at(3), 0);
    let clocked = Session::new("tok");
    let _ = clocked.since();
}
