use kvstore::db::{DbInstance, Store, ValueWithExpiry};

fn s(x: &str) -> String {
    x.to_string()
}

#[test]
fn entry_without_ttl_never_expires() {
    let e = ValueWithExpiry::new(s("v"), None, 10);
    assert_eq!(e.expires_at, None);
    assert!(!e.is_expired(u64::MAX));
}

#[test]
fn entry_expiry_is_strictly_after_deadline() {
    let e = ValueWithExpiry::new(s("v"), Some(1000), 500);
    assert_eq!(e.expires_at, Some(1500));
    assert!(!e.is_expired(1499));
    assert!(!e.is_expired(1500));
    assert!(e.is_expired(1501));
}

#[test]
fn entry_expiry_saturates() {
    let e = ValueWithExpiry::new(s("v"), Some(u64::MAX), 7);
    assert_eq!(e.expires_at, Some(u64::MAX));
    assert!(!e.is_expired(u64::MAX));
}

#[test]
fn set_then_get_without_ttl() {
    let mut st = Store::new();
    st.set(s("k"), s("v"), None, 0);
    assert_eq!(st.get(&s("k"), 0), Some(s("v")));
    assert_eq!(st.get(&s("k"), u64::MAX), Some(s("v")));
    assert_eq!(st.count(), 1);
}

#[test]
fn set_overwrites_and_drops_old_ttl() {
    let mut st = Store::new();
    st.set(s("k"), s("a"), Some(10), 0);
    st.set(s("k"), s("b"), None, 0);
    assert_eq!(st.count(), 1);
    assert_eq!(st.get(&s("k"), 1_000_000), Some(s("b")));
}

#[test]
fn get_of_expired_key_removes_it() {
    let mut st = Store::new();
    st.set(s("k"), s("v"), Some(1000), 0);
    assert_eq!(st.get(&s("k"), 1000), Some(s("v")));
    assert_eq!(st.count(), 1);
    assert_eq!(st.get(&s("k"), 1001), None);
    assert_eq!(st.count(), 0);
    assert!(st.list_keys().is_empty());
}

#[test]
fn get_of_absent_key() {
    let mut st = Store::new();
    assert_eq!(st.get(&s("nope"), 0), None);
}

#[test]
fn delete_present_and_absent() {
    let mut st = Store::new();
    st.set(s("a"), s("1"), None, 0);
    assert!(!st.delete(&s("b")));
    assert!(st.delete(&s("a")));
    assert!(!st.delete(&s("a")));
    assert_eq!(st.get(&s("a"), 0), None);
    assert_eq!(st.count(), 0);
}

#[test]
fn list_keys_includes_unswept_expired() {
    let mut st = Store::new();
    st.set(s("a"), s("1"), Some(1), 0);
    st.set(s("b"), s("2"), None, 0);
    let mut keys = st.list_keys();
    keys.sort();
    assert_eq!(keys, vec![s("a"), s("b")]);
    assert_eq!(st.count(), 2);
}

#[test]
fn remove_expired_keeps_live_entries() {
    let mut st = Store::new();
    st.set(s("a"), s("1"), Some(10), 0);
    st.set(s("b"), s("2"), None, 0);
    st.set(s("c"), s("3"), Some(100), 0);
    let removed = st.remove_expired(50);
    assert_eq!(removed, vec![s("a")]);
    assert_eq!(st.count(), 2);
    assert_eq!(st.get(&s("c"), 50), Some(s("3")));
    assert!(st.remove_expired(50).is_empty());
}

#[test]
fn db_instance_credentials() {
    let open = DbInstance::new(false, None, None);
    assert!(open.authenticate(&s("x"), &s("y")));
    let locked = DbInstance::new(true, Some(s("alice")), Some(s("pw")));
    assert!(locked.authenticate(&s("alice"), &s("pw")));
    assert!(!locked.authenticate(&s("Alice"), &s("pw")));
    assert!(!locked.authenticate(&s("alice"), &s("PW")));
    assert_eq!(locked.data.count(), 0);
}
