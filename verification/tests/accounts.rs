use antigravity_tools::accounts::{
    current_account_index, db_path, export_pairs, find_current_account, new_account,
    new_blacklist_entry, new_whitelist_entry, Account,
};

fn acct(id: &str, current: bool) -> Account {
    let mut a = new_account(id.to_string(), &format!("{}@x.com", id), &format!("rt-{}", id), "m".to_string(), 100);
    a.is_current = current;
    a
}

#[test]
fn db_path_is_in_app_files() {
    assert_eq!(db_path(), "/data/data/com.lbjlaq.antigravity_tools/files/moscad.db");
}

#[test]
fn new_account_defaults() {
    let a = new_account("id1".to_string(), "a@b.c", "tok", "mid".to_string(), 1234);
    assert_eq!(a.id, "id1");
    assert_eq!(a.email, "a@b.c");
    assert_eq!(a.refresh_token, "tok");
    assert_eq!(a.machine_id, "mid");
    assert!(a.label.is_none());
    assert!(!a.is_current);
    assert!(!a.disabled);
    assert!(a.disabled_reason.is_none());
    assert_eq!(a.created_at, 1234);
    assert_eq!(a.last_used, 1234);
}

#[test]
fn current_account_is_first_marked() {
    let list = vec![acct("a", false), acct("b", true), acct("c", true)];
    assert_eq!(current_account_index(&list), Some(1));
    let found = find_current_account(list).expect("current");
    assert_eq!(found.id, "b");
    let none = vec![acct("a", false), acct("b", false)];
    assert_eq!(current_account_index(&none), None);
    assert!(find_current_account(none).is_none());
    assert!(find_current_account(vec![]).is_none());
}

#[test]
fn blacklist_and_whitelist_rows() {
    let b = new_blacklist_entry("x".to_string(), "10.0.0.0/8", Some("spam"), 55);
    assert_eq!(b.ip_pattern, "10.0.0.0/8");
    assert_eq!(b.reason.as_deref(), Some("spam"));
    assert_eq!(b.created_at, 55);
    assert!(b.expires_at.is_none());
    assert_eq!(b.created_by, "manual");
    assert_eq!(b.hit_count, 0);
    let b2 = new_blacklist_entry("y".to_string(), "1.2.3.4", None, 1);
    assert!(b2.reason.is_none());
    let w = new_whitelist_entry("z".to_string(), "192.168.1.1", Some("home"), 7);
    assert_eq!(w.ip_pattern, "192.168.1.1");
    assert_eq!(w.description.as_deref(), Some("home"));
    assert_eq!(w.created_at, 7);
    let w2 = new_whitelist_entry("z".to_string(), "192.168.1.1", None, 7);
    assert!(w2.description.is_none());
}

#[test]
fn export_pairs_keep_order() {
    let list = vec![acct("a", false), acct("b", true)];
    let pairs = export_pairs(&list);
    assert_eq!(
        pairs,
        vec![
            ("a@x.com".to_string(), "rt-a".to_string()),
            ("b@x.com".to_string(), "rt-b".to_string()),
        ]
    );
}
