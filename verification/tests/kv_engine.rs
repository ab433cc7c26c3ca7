use ferrum_kv::error::FerrumError;
use ferrum_kv::protocol::parser::{self, Command};
use ferrum_kv::storage::engine::model::{KEY_MAX_BYTES, VALUE_MAX_BYTES};
use ferrum_kv::storage::engine::KvEngine;

#[test]
fn set_then_get_returns_stored_value() {
    let mut engine = KvEngine::new();
    engine.set(b"greeting".to_vec(), b"hello".to_vec()).unwrap();
    assert_eq!(engine.get(b"greeting").unwrap(), Some(b"hello".to_vec()));
}

#[test]
fn get_returns_none_for_missing_key() {
    let mut engine = KvEngine::new();
    assert_eq!(engine.get(b"missing").unwrap(), None);
}

#[test]
fn del_removes_existing_key_and_returns_true() {
    let mut engine = KvEngine::new();
    engine.set(b"key".to_vec(), b"value".to_vec()).unwrap();
    assert!(engine.del(b"key").unwrap());
    assert_eq!(engine.get(b"key").unwrap(), None);
}

#[test]
fn del_returns_false_for_missing_key() {
    let mut engine = KvEngine::new();
    assert!(!engine.del(b"missing").unwrap());
}

#[test]
fn exists_reflects_key_lifecycle() {
    let mut engine = KvEngine::new();
    assert!(!engine.key_exists(b"k").unwrap());
    engine.set(b"k".to_vec(), b"v".to_vec()).unwrap();
    assert!(engine.key_exists(b"k").unwrap());
    engine.del(b"k").unwrap();
    assert!(!engine.key_exists(b"k").unwrap());
}

#[test]
fn dbsize_counts_live_keys() {
    let mut engine = KvEngine::new();
    assert_eq!(engine.dbsize().unwrap(), 0);
    engine.set(b"a".to_vec(), b"1".to_vec()).unwrap();
    engine.set(b"b".to_vec(), b"2".to_vec()).unwrap();
    assert_eq!(engine.dbsize().unwrap(), 2);
}

#[test]
fn flushdb_clears_all_keys() {
    let mut engine = KvEngine::new();
    engine.set(b"a".to_vec(), b"1".to_vec()).unwrap();
    engine.set(b"b".to_vec(), b"2".to_vec()).unwrap();
    engine.flushdb().unwrap();
    assert_eq!(engine.dbsize().unwrap(), 0);
}

#[test]
fn values_may_contain_whitespace() {
    let mut engine = KvEngine::new();
    engine
        .set(b"msg".to_vec(), b"hello world".to_vec())
        .unwrap();
    assert_eq!(engine.get(b"msg").unwrap(), Some(b"hello world".to_vec()));
}

#[test]
fn binary_safe_keys_and_values_round_trip() {
    let mut engine = KvEngine::new();
    let key: Vec<u8> = vec![0x00, 0x01, 0xff, 0xfe];
    let value: Vec<u8> = vec![0x80, b'\r', b'\n', 0x00, 0xc3, 0x28];
    engine.set(key.clone(), value.clone()).unwrap();
    assert_eq!(engine.get(&key).unwrap(), Some(value));
    assert!(engine.key_exists(&key).unwrap());
    assert!(engine.del(&key).unwrap());
    assert_eq!(engine.get(&key).unwrap(), None);
}

#[test]
fn key_exceeding_limit_is_rejected() {
    let mut engine = KvEngine::new();
    let big_key = vec![b'k'; KEY_MAX_BYTES + 1];
    let err = engine.set(big_key, b"v".to_vec()).unwrap_err();
    assert!(matches!(err, FerrumError::KeyTooLong { .. }));
}

#[test]
fn value_exceeding_limit_is_rejected() {
    let mut engine = KvEngine::new();
    let big_value = vec![b'v'; VALUE_MAX_BYTES + 1];
    let err = engine.set(b"k".to_vec(), big_value).unwrap_err();
    assert!(matches!(err, FerrumError::ValueTooLarge { .. }));
}

#[test]
fn test_set_then_get_via_engine() {
    let mut engine = KvEngine::new();

    let cmd = parser::parse("SET greeting hello").unwrap();
    if let Command::SetKey { key, value } = cmd {
        engine.set(key.into_bytes(), value.into_bytes()).unwrap();
    } else {
        panic!("expected a write");
    }

    let cmd = parser::parse("GET greeting").unwrap();
    if let Command::Get { key } = cmd {
        assert_eq!(engine.get(key.as_bytes()).unwrap(), Some(b"hello".to_vec()));
    } else {
        panic!("expected a read");
    }
}

#[test]
fn test_del_via_engine() {
    let mut engine = KvEngine::new();
    engine.set(b"key".to_vec(), b"value".to_vec()).unwrap();

    let cmd = parser::parse("DEL key").unwrap();
    if let Command::Del { key } = cmd {
        assert!(engine.del(key.as_bytes()).unwrap());
        assert_eq!(engine.get(key.as_bytes()).unwrap(), None);
    } else {
        panic!("expected a deletion");
    }
}

#[test]
fn test_ping_command() {
    let cmd = parser::parse("PING").unwrap();
    assert_eq!(cmd, Command::Ping { msg: None });
}
