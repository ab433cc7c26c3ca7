use ferrum_kv::persistence::{replay, ReplayStats};
use ferrum_kv::storage::engine::KvEngine;

#[test]
fn replays_set_del_flushdb_sequence() {
    let content = [
        "*3\r\n$3\r\nSET\r\n$1\r\na\r\n$1\r\n1\r\n",
        "*3\r\n$3\r\nSET\r\n$1\r\nb\r\n$1\r\n2\r\n",
        "*2\r\n$3\r\nDEL\r\n$1\r\na\r\n",
    ].concat();

    let mut engine = KvEngine::new();
    let (stats, keep) = replay(content.as_bytes(), &mut engine).unwrap();
    assert_eq!(stats.applied, 3);
    assert_eq!(stats.skipped, 0);
    assert!(!stats.truncated_tail);
    assert_eq!(engine.get(b"a").unwrap(), None);
    assert_eq!(engine.get(b"b").unwrap(), Some(b"2".to_vec()));

}

#[test]
fn replay_does_not_write_to_aof_when_engine_has_no_writer() {
    let original = "*3\r\n$3\r\nSET\r\n$1\r\nk\r\n$1\r\nv\r\n";

    let mut engine = KvEngine::new();
    let (_, keep) = replay(original.as_bytes(), &mut engine).unwrap();
    assert_eq!(keep, original.len());
    assert!(engine.take_log().is_none());
}

#[test]
fn partial_trailing_record_is_truncated() {
    let mut content = String::from("*3\r\n$3\r\nSET\r\n$1\r\na\r\n$1\r\n1\r\n");
    // Append a half-written SET that terminates mid-bulk.
    content.push_str("*3\r\n$3\r\nSET\r\n$1\r\nb\r\n$5\r\nfoo");

    let mut engine = KvEngine::new();
    let (stats, keep) = replay(content.as_bytes(), &mut engine).unwrap();
    assert_eq!(stats.applied, 1);
    assert!(stats.truncated_tail);
    assert_eq!(engine.get(b"a").unwrap(), Some(b"1".to_vec()));
    assert_eq!(engine.get(b"b").unwrap(), None);

    // What is kept ends exactly at the last good record boundary.
    assert_eq!(&content.as_bytes()[..keep], b"*3\r\n$3\r\nSET\r\n$1\r\na\r\n$1\r\n1\r\n");
}

#[test]
fn unknown_command_is_skipped() {
    let content = [
        "*3\r\n$3\r\nSET\r\n$1\r\na\r\n$1\r\n1\r\n",
        "*2\r\n$3\r\nHSET\r\n$1\r\nx\r\n",
        "*3\r\n$3\r\nSET\r\n$1\r\nb\r\n$1\r\n2\r\n",
    ].concat();

    let mut engine = KvEngine::new();
    let (stats, keep) = replay(content.as_bytes(), &mut engine).unwrap();
    assert_eq!(stats.applied, 2);
    assert_eq!(stats.skipped, 1);
    assert_eq!(engine.get(b"a").unwrap(), Some(b"1".to_vec()));
    assert_eq!(engine.get(b"b").unwrap(), Some(b"2".to_vec()));
}

#[test]
fn binary_safe_values_survive_roundtrip() {
    // Value contains CRLF which would break a line-based format.
    let content = "*3\r\n$3\r\nSET\r\n$1\r\nk\r\n$4\r\na\r\nb\r\n";

    let mut engine = KvEngine::new();
    replay(content.as_bytes(), &mut engine).unwrap();
    assert_eq!(engine.get(b"k").unwrap(), Some(b"a\r\nb".to_vec()));
}

#[test]
fn empty_file_replays_cleanly() {
    let content = "";

    let mut engine = KvEngine::new();
    let (stats, keep) = replay(content.as_bytes(), &mut engine).unwrap();
    assert_eq!(stats, ReplayStats::default());
}

#[test]
fn replay_of_missing_file_returns_empty_stats() {
    let mut engine = KvEngine::new();
    let (stats, keep) = replay(&[], &mut engine).unwrap();
    assert_eq!(stats, ReplayStats::default());
    assert_eq!(keep, 0);
}
