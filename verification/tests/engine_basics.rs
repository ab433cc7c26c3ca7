use ferrum_kv::error::FerrumError;
use ferrum_kv::persistence::config::FsyncPolicy;
use ferrum_kv::persistence::AofWriter;
use ferrum_kv::storage::engine::model::{KEY_MAX_BYTES, VALUE_MAX_BYTES};
use ferrum_kv::storage::engine::KvEngine;

fn engine_with_log() -> KvEngine {
    KvEngine::new().with_aof(AofWriter::new(FsyncPolicy::Always))
}

#[test]
fn engine_test_set_and_get() {
    let mut engine = KvEngine::new();
    engine.set(b"name".to_vec(), b"ferrum".to_vec()).unwrap();
    assert_eq!(engine.get(b"name").unwrap(), Some(b"ferrum".to_vec()));
}

#[test]
fn engine_test_get_nonexistent() {
    let mut engine = KvEngine::new();
    assert_eq!(engine.get(b"missing").unwrap(), None);
}

#[test]
fn engine_test_set_overwrite() {
    let mut engine = KvEngine::new();
    engine.set(b"key".to_vec(), b"v1".to_vec()).unwrap();
    let old = engine.set(b"key".to_vec(), b"v2".to_vec()).unwrap();
    assert_eq!(old, Some(b"v1".to_vec()));
    assert_eq!(engine.get(b"key").unwrap(), Some(b"v2".to_vec()));
}

#[test]
fn engine_test_del_existing() {
    let mut engine = KvEngine::new();
    engine.set(b"key".to_vec(), b"value".to_vec()).unwrap();
    assert!(engine.del(b"key").unwrap());
    assert_eq!(engine.get(b"key").unwrap(), None);
}

#[test]
fn engine_test_del_nonexistent() {
    let mut engine = KvEngine::new();
    assert!(!engine.del(b"missing").unwrap());
}

#[test]
fn engine_test_exists() {
    let mut engine = KvEngine::new();
    assert!(!engine.key_exists(b"key").unwrap());
    engine.set(b"key".to_vec(), b"value".to_vec()).unwrap();
    assert!(engine.key_exists(b"key").unwrap());
    engine.del(b"key").unwrap();
    assert!(!engine.key_exists(b"key").unwrap());
}

#[test]
fn engine_test_dbsize_empty() {
    let mut engine = KvEngine::new();
    assert_eq!(engine.dbsize().unwrap(), 0);
}

#[test]
fn engine_test_dbsize_after_operations() {
    let mut engine = KvEngine::new();
    engine.set(b"a".to_vec(), b"1".to_vec()).unwrap();
    engine.set(b"b".to_vec(), b"2".to_vec()).unwrap();
    assert_eq!(engine.dbsize().unwrap(), 2);
    engine.del(b"a").unwrap();
    assert_eq!(engine.dbsize().unwrap(), 1);
}

#[test]
fn engine_test_flushdb() {
    let mut engine = KvEngine::new();
    engine.set(b"a".to_vec(), b"1".to_vec()).unwrap();
    engine.set(b"b".to_vec(), b"2".to_vec()).unwrap();
    engine.flushdb().unwrap();
    assert_eq!(engine.dbsize().unwrap(), 0);
    assert_eq!(engine.get(b"a").unwrap(), None);
}

#[test]
fn engine_test_set_rejects_empty_key() {
    let mut engine = KvEngine::new();
    let err = engine.set(Vec::new(), "v".into()).unwrap_err();
    assert!(matches!(err, FerrumError::ParseError(_)));
}

#[test]
fn engine_test_set_rejects_oversized_key() {
    let mut engine = KvEngine::new();
    let big_key = "k".repeat(KEY_MAX_BYTES + 1).into_bytes();
    let err = engine.set(big_key, "v".into()).unwrap_err();
    assert!(matches!(
        err,
        FerrumError::KeyTooLong {
            len,
            max: KEY_MAX_BYTES,
        } if len == KEY_MAX_BYTES + 1
    ));
}

#[test]
fn engine_test_set_accepts_boundary_key_length() {
    let mut engine = KvEngine::new();
    let key = "k".repeat(KEY_MAX_BYTES).into_bytes();
    assert!(engine.set(key.clone(), "v".into()).is_ok());
    assert_eq!(engine.get(&key).unwrap(), Some("v".into()));
}

#[test]
fn engine_test_set_rejects_oversized_value() {
    let mut engine = KvEngine::new();
    let big_value = "v".repeat(VALUE_MAX_BYTES + 1).into_bytes();
    let err = engine.set("k".into(), big_value).unwrap_err();
    assert!(matches!(
        err,
        FerrumError::ValueTooLarge {
            len,
            max: VALUE_MAX_BYTES,
        } if len == VALUE_MAX_BYTES + 1
    ));
}

#[test]
fn engine_mutating_commands_are_appended_to_aof() {
    let mut engine = engine_with_log();

    engine.set("a".into(), "1".into()).unwrap();
    engine.del(b"a").unwrap();
    engine.flushdb().unwrap();

    let bytes = engine.take_log().unwrap();
    let expected = [
        "*3\r\n$3\r\nSET\r\n$1\r\na\r\n$1\r\n1\r\n",
        "*2\r\n$3\r\nDEL\r\n$1\r\na\r\n",
        "*1\r\n$7\r\nFLUSHDB\r\n",
    ].concat();
    assert_eq!(bytes, expected.as_bytes());
}

#[test]
fn engine_read_only_commands_do_not_touch_aof() {
    let mut engine = engine_with_log();

    engine.get(b"missing").unwrap();
    engine.key_exists(b"missing").unwrap();
    engine.dbsize().unwrap();

    let bytes = engine.take_log().unwrap();
    assert!(bytes.is_empty());
}

#[test]
fn engine_del_of_missing_key_is_not_logged() {
    let mut engine = engine_with_log();

    assert!(!engine.del(b"missing").unwrap());

    let bytes = engine.take_log().unwrap();
    assert!(bytes.is_empty());
}
