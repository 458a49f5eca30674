use authcore::cache::TtlCache;
use authcore::session::{SessionStore, EXPIRE_TIME, TOKEN_SIZE};

#[test]
fn test_cache_set_get_ttl() {
    let mut c = TtlCache::new();
    assert_eq!(c.get("k", 100), None);
    assert_eq!(c.ttl("k", 100), 0);
    c.set_ex("k", "v", 5, 100);
    assert_eq!(c.get("k", 100), Some("v".to_string()));
    assert_eq!(c.get("k", 104), Some("v".to_string()));
    assert_eq!(c.get("k", 105), None);
    assert_eq!(c.ttl("k", 100), 5);
    assert_eq!(c.ttl("k", 103), 2);
    assert_eq!(c.ttl("k", 105), 0);
}

#[test]
fn test_cache_overwrite_and_delete() {
    let mut c = TtlCache::new();
    c.set_ex("k", "v1", 10, 0);
    c.set_ex("k", "v2", 20, 0);
    assert_eq!(c.get("k", 5), Some("v2".to_string()));
    assert_eq!(c.ttl("k", 0), 20);
    c.del("k");
    assert_eq!(c.get("k", 0), None);
    c.del("never-there");
    assert_eq!(c.get("never-there", 0), None);
}

#[test]
fn test_issue_establishes_both_directions() {
    let mut s = SessionStore::new();
    let t = s.issue("7", 1000);
    assert_eq!(t.token.chars().count(), TOKEN_SIZE);
    assert!(t.token.chars().all(|c| c.is_ascii_alphanumeric()));
    assert_eq!(s.resolve(&t.token, 1000), Some("7".to_string()));
    let back = s.lookup("7", 1000).expect("session just issued");
    assert_eq!(back.token, t.token);
}

#[test]
fn test_invalidate_clears_both_directions() {
    let mut s = SessionStore::new();
    let t = s.issue("7", 1000);
    s.invalidate("7", &t.token);
    assert!(s.resolve(&t.token, 1000).is_none());
    assert!(s.lookup("7", 1000).is_none());
}

#[test]
fn test_session_expires_after_window() {
    let mut s = SessionStore::new();
    let t = s.issue("9", 0);
    assert!(s.resolve(&t.token, EXPIRE_TIME - 1).is_some());
    assert!(s.resolve(&t.token, EXPIRE_TIME).is_none());
    assert!(s.lookup("9", EXPIRE_TIME).is_none());
}

#[test]
fn test_remaining_ttl_counts_down() {
    let mut s = SessionStore::new();
    s.issue("9", 100);
    assert_eq!(s.remaining("9", 100), EXPIRE_TIME);
    assert_eq!(s.remaining("9", 101), EXPIRE_TIME - 1);
    assert_eq!(s.remaining("9", 100 + EXPIRE_TIME), 0);
    assert_eq!(s.remaining("unknown", 100), 0);
}

#[test]
fn test_reissue_overwrites_lookup() {
    let mut s = SessionStore::new();
    let t1 = s.issue("3", 0);
    let t2 = s.issue("3", 0);
    assert_ne!(t1.token, t2.token);
    let current = s.lookup("3", 0).expect("second session is live");
    assert_eq!(current.token, t2.token);
}
