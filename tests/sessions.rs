use kvstore::cleaner::clean_expired;
use kvstore::db::DbInstance;
use kvstore::registry::{DbError, Registry};
use kvstore::session::{dialog_command_of, trimmed, Session};

fn s(x: &str) -> String {
    x.to_string()
}

fn say(sess: &mut Session, reg: &mut Registry, line: &str, now: u64) -> (String, bool) {
    let r = sess.handle_line(reg, line, now);
    (r.text, r.close)
}

fn open_db(reg: &mut Registry, sess: &mut Session, name: &str) {
    assert_eq!(say(sess, reg, &format!("create {}", name), 0).0, "Do you want authentication (yes/no)?");
    assert_eq!(say(sess, reg, "no", 0).0, "Database created successfully");
}

#[test]
fn words_of_dialog_lines() {
    assert_eq!(dialog_command_of("create orders"), Some((true, s("orders"))));
    assert_eq!(dialog_command_of("  use   orders \n"), Some((false, s("orders"))));
    assert_eq!(dialog_command_of("use"), None);
    assert_eq!(dialog_command_of("use a b"), None);
    assert_eq!(dialog_command_of("drop a"), None);
    assert_eq!(trimmed(" \t x y \r\n"), "x y");
}

#[test]
fn orders_ttl_scenario() {
    let mut reg = Registry::new();
    let mut sess = Session::new();
    open_db(&mut reg, &mut sess, "orders");
    assert_eq!(say(&mut sess, &mut reg, "use orders", 0).0, "Using database 'orders'");
    assert_eq!(say(&mut sess, &mut reg, "SET(\"a\",\"1\",\"1s\")", 0).0, "OK");
    assert_eq!(say(&mut sess, &mut reg, "GET(\"a\")", 10).0, "1");
    assert_eq!(say(&mut sess, &mut reg, "GET(\"a\")", 1001).0, "Key 'a' not found");
    let keys = reg.dbs.entries[0].1.data.list_keys();
    assert!(keys.is_empty());
}

#[test]
fn databases_are_isolated() {
    let mut reg = Registry::new();
    let mut a = Session::new();
    let mut b = Session::new();
    open_db(&mut reg, &mut a, "A");
    open_db(&mut reg, &mut b, "B");
    say(&mut a, &mut reg, "use A", 0);
    say(&mut b, &mut reg, "use B", 0);
    assert_eq!(say(&mut a, &mut reg, "SET(\"x\",\"1\")", 0).0, "OK");
    assert_eq!(say(&mut b, &mut reg, "GET(\"x\")", 0).0, "Key 'x' not found");
    assert_eq!(say(&mut a, &mut reg, "GET(\"x\")", 0).0, "1");
    assert_eq!(reg.execute(&s("B"), "GET(\"x\")", 0), Ok(s("Key 'x' not found")));
}

#[test]
fn duplicate_database_name_is_refused() {
    let mut reg = Registry::new();
    let mut sess = Session::new();
    open_db(&mut reg, &mut sess, "A");
    assert_eq!(say(&mut sess, &mut reg, "create A", 0).0, "Database 'A' already exists");
    assert_eq!(reg.create(s("A"), DbInstance::new(false, None, None)), Err(DbError::NameConflict));
    assert_eq!(reg.requires_auth(&s("Z")), Err(DbError::NotFound));
    assert_eq!(reg.execute(&s("Z"), "GET(\"x\")", 0), Err(DbError::NotFound));
}

#[test]
fn unbound_session_replies() {
    let mut reg = Registry::new();
    let mut sess = Session::new();
    assert_eq!(say(&mut sess, &mut reg, "GET(\"a\")", 0).0, "No database selected");
    assert_eq!(say(&mut sess, &mut reg, "use nothing", 0).0, "Database 'nothing' not found");
    assert_eq!(say(&mut sess, &mut reg, "   ", 0), (s(""), false));
    assert!(sess.bound_db().is_none());
}

#[test]
fn bound_session_cannot_switch() {
    let mut reg = Registry::new();
    let mut sess = Session::new();
    open_db(&mut reg, &mut sess, "A");
    say(&mut sess, &mut reg, "use A", 0);
    assert_eq!(sess.bound_db(), Some(&s("A")));
    assert_eq!(
        say(&mut sess, &mut reg, "use A", 0).0,
        "Cannot use a different database. A database is already selected."
    );
    assert_eq!(
        say(&mut sess, &mut reg, "create C", 0).0,
        "Cannot create a database. A database is already selected."
    );
    assert!(!reg.contains(&s("C")));
}

fn locked_registry() -> Registry {
    let mut reg = Registry::new();
    let mut sess = Session::new();
    assert_eq!(say(&mut sess, &mut reg, "create vault", 0).0, "Do you want authentication (yes/no)?");
    assert_eq!(say(&mut sess, &mut reg, "YeS", 0).0, "Enter username:");
    assert_eq!(say(&mut sess, &mut reg, " alice ", 0).0, "Enter password:");
    assert_eq!(say(&mut sess, &mut reg, "secret", 0).0, "Database created successfully");
    assert_eq!(reg.authenticate(&s("vault"), &s("alice"), &s("secret")), Ok(true));
    reg
}

#[test]
fn three_wrong_answers_close_the_session() {
    let mut reg = locked_registry();
    let mut sess = Session::new();
    assert_eq!(say(&mut sess, &mut reg, "use vault", 0).0, "Username:");
    for _ in 0..2 {
        assert_eq!(say(&mut sess, &mut reg, "alice", 0).0, "Password:");
        assert_eq!(say(&mut sess, &mut reg, "wrong", 0), (s("Authentication failed. Try again.\nUsername:"), false));
    }
    assert_eq!(say(&mut sess, &mut reg, "alice", 0).0, "Password:");
    assert_eq!(
        say(&mut sess, &mut reg, "wrong", 0),
        (s("Too many failed authentication attempts. Disconnecting."), true)
    );
    assert_eq!(say(&mut sess, &mut reg, "GET(\"a\")", 0), (s(""), true));
    assert!(sess.bound_db().is_none());
}

#[test]
fn third_answer_may_succeed() {
    let mut reg = locked_registry();
    let mut sess = Session::new();
    say(&mut sess, &mut reg, "use vault", 0);
    say(&mut sess, &mut reg, "bob", 0);
    say(&mut sess, &mut reg, "secret", 0);
    say(&mut sess, &mut reg, "alice", 0);
    say(&mut sess, &mut reg, "Secret", 0);
    say(&mut sess, &mut reg, "alice", 0);
    assert_eq!(
        say(&mut sess, &mut reg, "secret", 0),
        (s("Authentication successful. Using database 'vault'"), false)
    );
    assert_eq!(sess.bound_db(), Some(&s("vault")));
}

#[test]
fn sweep_with_nothing_expired_reports_nothing() {
    let mut reg = Registry::new();
    let mut sess = Session::new();
    open_db(&mut reg, &mut sess, "A");
    say(&mut sess, &mut reg, "use A", 0);
    say(&mut sess, &mut reg, "SET(\"a\",\"1\")", 0);
    say(&mut sess, &mut reg, "SET(\"b\",\"2\",\"10s\")", 0);
    let reports = clean_expired(&mut reg, 10_000);
    assert!(reports.is_empty());
    assert_eq!(reg.dbs.entries[0].1.data.count(), 2);
}

#[test]
fn sweep_removes_expired_and_reports_them() {
    let mut reg = Registry::new();
    let mut a = Session::new();
    let mut b = Session::new();
    open_db(&mut reg, &mut a, "A");
    open_db(&mut reg, &mut b, "B");
    say(&mut a, &mut reg, "use A", 0);
    say(&mut b, &mut reg, "use B", 0);
    say(&mut a, &mut reg, "SET(\"x\",\"1\",\"1s\")", 0);
    say(&mut a, &mut reg, "SET(\"y\",\"2\",\"1m\")", 0);
    say(&mut b, &mut reg, "SET(\"z\",\"3\")", 0);
    let reports = clean_expired(&mut reg, 1001);
    assert_eq!(reports.len(), 1);
    assert_eq!(reports[0].db_name, "A");
    assert_eq!(reports[0].keys, vec![s("x")]);
    assert_eq!(say(&mut a, &mut reg, "GET(\"y\")", 1001).0, "2");
    assert_eq!(say(&mut b, &mut reg, "GET(\"z\")", 1001).0, "3");
}
