use antigravity_tools::token_store::{
    apply_refreshed_token, fresh_token_step, pool_size, remove_token, set_current, store_token,
    FreshTokenStep, TokenEntry, TokenStore, LRU_CAPACITY,
};

fn entry(id: &str, expires_at: i64) -> TokenEntry {
    TokenEntry {
        account_id: id.to_string(),
        email: format!("{id}@example.com"),
        access_token: format!("access-{id}"),
        refresh_token: format!("refresh-{id}"),
        expires_at,
    }
}

#[test]
fn expiry_counts_sixty_seconds_early() {
    let e = entry("a", 1000);
    assert!(!e.is_expired_at(939));
    assert!(e.is_expired_at(940));
    assert!(e.is_expired_at(5000));
    let far = entry("b", i64::MAX);
    assert!(!far.is_expired());
    let past = entry("c", i64::MIN);
    assert!(past.is_expired());
}

#[test]
fn store_then_read_back() {
    let mut s = TokenStore::new();
    store_token(&mut s, entry("a", 2000));
    assert_eq!(pool_size(&s), 1);
    set_current(&mut s, "a");
    match fresh_token_step(&s, 100) {
        FreshTokenStep::Valid(t) => assert_eq!(t, "access-a"),
        _ => panic!("expected a valid token"),
    }
    store_token(&mut s, entry("a", 3000));
    assert_eq!(pool_size(&s), 1);
}

#[test]
fn lru_evicts_the_oldest_account() {
    let mut s = TokenStore::new();
    for i in 0..LRU_CAPACITY {
        store_token(&mut s, entry(&format!("acc{i}"), 10_000));
    }
    assert_eq!(pool_size(&s), LRU_CAPACITY);
    // Touching acc0 makes acc1 the oldest.
    store_token(&mut s, entry("acc0", 10_000));
    store_token(&mut s, entry("new", 10_000));
    assert_eq!(pool_size(&s), LRU_CAPACITY);
    set_current(&mut s, "acc1");
    assert!(matches!(fresh_token_step(&s, 0), FreshTokenStep::NoToken));
    set_current(&mut s, "acc0");
    assert!(matches!(fresh_token_step(&s, 0), FreshTokenStep::Valid(_)));
}

#[test]
fn remove_clears_the_current_account() {
    let mut s = TokenStore::new();
    store_token(&mut s, entry("a", 2000));
    store_token(&mut s, entry("b", 2000));
    set_current(&mut s, "a");
    remove_token(&mut s, "b");
    assert_eq!(pool_size(&s), 1);
    assert!(matches!(fresh_token_step(&s, 0), FreshTokenStep::Valid(_)));
    remove_token(&mut s, "a");
    assert_eq!(pool_size(&s), 0);
    assert!(matches!(fresh_token_step(&s, 0), FreshTokenStep::NoToken));
}

#[test]
fn expired_token_is_refreshed_and_stored() {
    let mut s = TokenStore::new();
    store_token(&mut s, entry("a", 1000));
    set_current(&mut s, "a");
    let old = match fresh_token_step(&s, 950) {
        FreshTokenStep::Refresh(e) => e,
        _ => panic!("expected a refresh"),
    };
    assert_eq!(old.refresh_token, "refresh-a");
    let t = apply_refreshed_token(&mut s, &old, "fresh".to_string(), None, 3600, 950);
    assert_eq!(t, "fresh");
    match fresh_token_step(&s, 951) {
        FreshTokenStep::Valid(t) => assert_eq!(t, "fresh"),
        _ => panic!("expected the refreshed token"),
    }
    let old = match fresh_token_step(&s, 4550) {
        FreshTokenStep::Refresh(e) => e,
        _ => panic!("expected a refresh"),
    };
    assert_eq!(old.refresh_token, "refresh-a");
    assert_eq!(old.expires_at, 4550);
    apply_refreshed_token(&mut s, &old, "x".to_string(), Some("r2".to_string()), 10, 4550);
    match fresh_token_step(&s, 0) {
        FreshTokenStep::Valid(t) => assert_eq!(t, "x"),
        _ => panic!("expected a valid token"),
    }
}

#[test]
fn no_current_account_means_no_token() {
    let s = TokenStore::new();
    assert!(matches!(fresh_token_step(&s, 0), FreshTokenStep::NoToken));
}
