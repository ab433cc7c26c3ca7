use ferrum_kv::error::FerrumError;
use ferrum_kv::protocol::parser::{format_response, parse, Command};

// Tests for `SET`.

#[test]
fn test_parse_set() {
    let cmd = parse("SET name ferrum").unwrap();
    assert_eq!(
        cmd,
        Command::SetKey {
            key: "name".to_string(),
            value: "ferrum".to_string()
        }
    );
}

#[test]
fn test_parse_set_case_insensitive() {
    let cmd = parse("set Name Value").unwrap();
    assert_eq!(
        cmd,
        Command::SetKey {
            key: "Name".to_string(),
            value: "Value".to_string()
        }
    );
}

#[test]
fn test_parse_set_value_with_spaces() {
    let cmd = parse("SET key hello world").unwrap();
    assert_eq!(
        cmd,
        Command::SetKey {
            key: "key".to_string(),
            value: "hello world".to_string()
        }
    );
}

#[test]
fn test_parse_set_missing_value() {
    let err = parse("SET key").unwrap_err();
    assert!(matches!(err, FerrumError::WrongArity { cmd: "SET" }));
}

#[test]
fn test_parse_set_missing_args() {
    let err = parse("SET").unwrap_err();
    assert!(matches!(err, FerrumError::WrongArity { cmd: "SET" }));
}

// Tests for `GET`, `DEL`, and `EXISTS`.

#[test]
fn test_parse_get() {
    let cmd = parse("GET name").unwrap();
    assert_eq!(cmd, Command::Get { key: "name".into() });
}

#[test]
fn test_parse_get_missing_key() {
    let err = parse("GET").unwrap_err();
    assert!(matches!(err, FerrumError::WrongArity { cmd: "GET" }));
}

#[test]
fn test_parse_get_extra_args_rejected() {
    let err = parse("GET a b").unwrap_err();
    assert!(matches!(err, FerrumError::WrongArity { cmd: "GET" }));
}

#[test]
fn test_parse_del() {
    let cmd = parse("DEL name").unwrap();
    assert_eq!(cmd, Command::Del { key: "name".into() });
}

#[test]
fn test_parse_del_missing_key() {
    let err = parse("DEL").unwrap_err();
    assert!(matches!(err, FerrumError::WrongArity { cmd: "DEL" }));
}

#[test]
fn test_parse_exists() {
    let cmd = parse("EXISTS name").unwrap();
    assert_eq!(cmd, Command::Exists { key: "name".into() });
}

#[test]
fn test_parse_exists_case_insensitive() {
    let cmd = parse("exists NAME").unwrap();
    assert_eq!(cmd, Command::Exists { key: "NAME".into() });
}

#[test]
fn test_parse_exists_missing_key() {
    let err = parse("EXISTS").unwrap_err();
    assert!(matches!(err, FerrumError::WrongArity { cmd: "EXISTS" }));
}

// Tests for `PING`.

#[test]
fn test_parse_ping() {
    let cmd = parse("PING").unwrap();
    assert_eq!(cmd, Command::Ping { msg: None });
}

#[test]
fn test_parse_ping_case_insensitive() {
    let cmd = parse("ping").unwrap();
    assert_eq!(cmd, Command::Ping { msg: None });
}

#[test]
fn test_parse_ping_with_message() {
    let cmd = parse("PING hello world").unwrap();
    assert_eq!(
        cmd,
        Command::Ping {
            msg: Some("hello world".into())
        }
    );
}

#[test]
fn test_parse_ping_trailing_space_no_message() {
    let cmd = parse("PING   ").unwrap();
    assert_eq!(cmd, Command::Ping { msg: None });
}

// Tests for `DBSIZE` and `FLUSHDB`.

#[test]
fn test_parse_dbsize() {
    assert_eq!(parse("DBSIZE").unwrap(), Command::DbSize);
    assert_eq!(parse("dbsize").unwrap(), Command::DbSize);
}

#[test]
fn test_parse_dbsize_rejects_args() {
    let err = parse("DBSIZE extra").unwrap_err();
    assert!(matches!(err, FerrumError::WrongArity { cmd: "DBSIZE" }));
}

#[test]
fn test_parse_flushdb() {
    assert_eq!(parse("FLUSHDB").unwrap(), Command::FlushDb);
    assert_eq!(parse("flushdb").unwrap(), Command::FlushDb);
}

#[test]
fn test_parse_flushdb_rejects_args() {
    let err = parse("FLUSHDB extra").unwrap_err();
    assert!(matches!(err, FerrumError::WrongArity { cmd: "FLUSHDB" }));
}

// Tests for unknown or empty input.

#[test]
fn test_parse_unknown_command() {
    let err = parse("FOOBAR").unwrap_err();
    assert!(matches!(err, FerrumError::UnknownCommand(ref c) if c == "FOOBAR"));
}

#[test]
fn test_parse_empty_input() {
    assert!(parse("").is_err());
}

#[test]
fn test_parse_whitespace_only() {
    assert!(parse("   ").is_err());
}

#[test]
fn test_parse_with_leading_trailing_spaces() {
    let cmd = parse("  GET name  ").unwrap();
    assert_eq!(cmd, Command::Get { key: "name".into() });
}

// Tests for `format_response`.

#[test]
fn test_format_response_ok() {
    assert_eq!(format_response(Ok("OK".to_string())), "OK");
}

#[test]
fn test_format_response_wrong_arity() {
    let out = format_response(Err(FerrumError::WrongArity { cmd: "SET" }));
    assert_eq!(out, "ERR wrong number of arguments for 'SET' command");
}

#[test]
fn test_format_response_unknown_command() {
    let out = format_response(Err(FerrumError::UnknownCommand("FOO".into())));
    assert_eq!(out, "ERR unknown command: 'FOO'");
}

#[test]
fn test_format_response_key_too_long() {
    let out = format_response(Err(FerrumError::KeyTooLong {
        len: 70000,
        max: 65536,
    }));
    assert_eq!(out, "ERR key too long (70000 bytes, max 65536)");
}

#[test]
fn test_format_response_value_too_large() {
    let out = format_response(Err(FerrumError::ValueTooLarge {
        len: 20_000_000,
        max: 16_777_216,
    }));
    assert_eq!(out, "ERR value too large (20000000 bytes, max 16777216)");
}

#[test]
fn test_format_response_oom() {
    let out = format_response(Err(FerrumError::OutOfMemory));
    assert_eq!(out, "OOM command not allowed when used memory > maxmemory");
}

#[test]
fn test_format_response_lock_poisoned() {
    let out = format_response(Err(FerrumError::LockPoisoned("boom".into())));
    assert_eq!(out, "ERR lock poisoned: boom");
}

#[test]
fn test_format_response_persistence_error() {
    let out = format_response(Err(FerrumError::PersistenceError("disk full".to_string())));
    assert_eq!(out, "ERR persistence error: disk full");
}

#[test]
fn case_and_margins_do_not_matter() {
    let expected = parse("SET Key some  Value").unwrap();
    for line in [
        " sEt Key some  Value",
        "set Key some  Value\r\n",
        "\t SET Key some  Value \u{3000}",
    ] {
        assert_eq!(parse(line).unwrap(), expected);
    }
    let unknown = |line: &str| parse(line).unwrap_err().to_string();
    assert_eq!(unknown("foo\u{e9} x"), unknown("  FoO\u{e9} x "));
    assert_eq!(unknown("foo\u{e9} x"), unknown("FOO\u{c9} x"));
    assert_eq!(parse("get"), parse(" GET "));
}
