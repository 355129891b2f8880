use kvstore::db::Store;
use kvstore::parser::{parse_command, parse_statement, parse_ttl, Command, ParseError};

fn chars(x: &str) -> Vec<char> {
    x.chars().collect()
}

#[test]
fn ttl_units() {
    assert_eq!(parse_ttl(&chars("10s")), Some(10_000));
    assert_eq!(parse_ttl(&chars("5m")), Some(300_000));
    assert_eq!(parse_ttl(&chars("2d")), Some(172_800_000));
    assert_eq!(parse_ttl(&chars("0s")), Some(0));
}

#[test]
fn ttl_rejections() {
    assert_eq!(parse_ttl(&chars("")), None);
    assert_eq!(parse_ttl(&chars("s")), None);
    assert_eq!(parse_ttl(&chars("10")), None);
    assert_eq!(parse_ttl(&chars("10h")), None);
    assert_eq!(parse_ttl(&chars("1x0s")), None);
    assert_eq!(parse_ttl(&chars("-1s")), None);
    assert_eq!(parse_ttl(&chars("99999999999999999999s")), None);
    assert_eq!(parse_ttl(&chars("18446744073709552d")), None);
}

#[test]
fn parse_set_get_del() {
    match parse_command("SET(\"k\",\"v\")") {
        Ok(Command::SetKey { key, value, ttl }) => {
            assert_eq!(key, "k");
            assert_eq!(value, "v");
            assert_eq!(ttl, None);
        }
        _ => panic!("expected SET"),
    }
    match parse_command("  SET(\"k\",\"hello world\",\"5m\")\r\n") {
        Ok(Command::SetKey { key, value, ttl }) => {
            assert_eq!(key, "k");
            assert_eq!(value, "hello world");
            assert_eq!(ttl, Some(300_000));
        }
        _ => panic!("expected SET with TTL"),
    }
    assert!(matches!(parse_command("GET(\"k\")"), Ok(Command::GetKey { key }) if key == "k"));
    assert!(matches!(parse_command("DEL(\"\")"), Ok(Command::DelKey { key }) if key.is_empty()));
}

#[test]
fn parse_unknown_forms() {
    for line in [
        "",
        "get k",
        "GET(k)",
        "GET()",
        "GET(\"a\",\"b\")",
        "SET(\"a\")",
        "SET(\"a\",\"b\",\"1s\",\"x\")",
        "SET(\"a\",\"b\"",
        "SET(\"a\",\"b\",)",
        "SET(\"a\" ,\"b\")",
        "PUT(\"a\",\"b\")",
        "get(\"a\")",
    ] {
        assert!(matches!(parse_command(line), Err(ParseError::Unknown)), "{}", line);
    }
}

#[test]
fn parse_bad_ttl() {
    assert!(matches!(parse_command("SET(\"a\",\"b\",\"10h\")"), Err(ParseError::BadTtl { ttl }) if ttl == "10h"));
    assert!(matches!(parse_command("SET(\"a\",\"b\",\"\")"), Err(ParseError::BadTtl { ttl }) if ttl.is_empty()));
    assert!(matches!(parse_command("SET(\"a\",\"b\",\"x5s\")"), Err(ParseError::BadTtl { .. })));
}

#[test]
fn statement_replies() {
    let mut st = Store::new();
    assert_eq!(parse_statement("SET(\"a\",\"1\")", &mut st, 0), "OK");
    assert_eq!(parse_statement("GET(\"a\")", &mut st, 5), "1");
    assert_eq!(parse_statement("GET(\"b\")", &mut st, 5), "Key 'b' not found");
    assert_eq!(parse_statement("DEL(\"b\")", &mut st, 5), "Key 'b' not found");
    assert_eq!(parse_statement("DEL(\"a\")", &mut st, 5), "OK");
    assert_eq!(parse_statement("GET(\"a\")", &mut st, 5), "Key 'a' not found");
    assert_eq!(
        parse_statement("SET(\"a\",\"1\",\"3w\")", &mut st, 5),
        "Invalid TTL '3w': expected <integer><unit> with unit s, m or d"
    );
    assert_eq!(
        parse_statement("show", &mut st, 5),
        "Unknown command. Usage: SET(\"key\",\"value\"[,\"ttl\"]) | GET(\"key\") | DEL(\"key\")"
    );
    assert_eq!(st.count(), 0);
}

#[test]
fn statement_ttl_boundary() {
    let mut st = Store::new();
    assert_eq!(parse_statement("SET(\"k\",\"v\",\"2s\")", &mut st, 1000), "OK");
    assert_eq!(parse_statement("GET(\"k\")", &mut st, 2999), "v");
    assert_eq!(parse_statement("GET(\"k\")", &mut st, 3000), "v");
    assert_eq!(parse_statement("GET(\"k\")", &mut st, 3001), "Key 'k' not found");
    assert_eq!(st.count(), 0);
}

#[test]
fn statement_read_is_repeatable() {
    let mut st = Store::new();
    parse_statement("SET(\"k\",\"v\")", &mut st, 0);
    for t in [0u64, 1, 1_000_000, u64::MAX] {
        assert_eq!(parse_statement("GET(\"k\")", &mut st, t), "v");
    }
    assert_eq!(st.count(), 1);
}
