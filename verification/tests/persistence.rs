use std::collections::HashSet;

use ferrum_kv::clock::current_epoch_ms;
use ferrum_kv::network::server::Session;
use ferrum_kv::persistence::config::FsyncPolicy;
use ferrum_kv::persistence::writer::RewriteEnd;
use ferrum_kv::persistence::{replay, AofWriter};
use ferrum_kv::storage::engine::rewrite::serialise_compact_aof;
use ferrum_kv::storage::engine::{KvEngine, TtlStatus};

fn engine_with_log(policy: FsyncPolicy) -> KvEngine {
    KvEngine::new().with_aof(AofWriter::new(policy))
}

fn holds(bytes: &[u8], part: &[u8]) -> bool {
    bytes.windows(part.len()).any(|w| w == part)
}

fn count(bytes: &[u8], part: &[u8]) -> usize {
    bytes.windows(part.len()).filter(|w| *w == part).count()
}

/// The keys of all `SET` records of a log.
fn set_keys(bytes: &[u8]) -> Vec<Vec<u8>> {
    let prefix = b"*3\r\n$3\r\nSET\r\n";
    let mut keys = Vec::new();
    let mut i = 0usize;
    while i + prefix.len() <= bytes.len() {
        if &bytes[i..i + prefix.len()] == prefix {
            let mut j = i + prefix.len() + 1;
            let mut num = 0usize;
            while bytes[j] != b'\r' {
                num = num * 10 + (bytes[j] - b'0') as usize;
                j += 1;
            }
            j += 2;
            keys.push(bytes[j..j + num].to_vec());
            i = j + num + 2;
        } else {
            i += 1;
        }
    }
    keys
}

#[test]
fn writes_survive_restart_with_always_policy() {
    let mut engine = engine_with_log(FsyncPolicy::Always);
    engine.set(b"name".to_vec(), b"ferrum".to_vec()).unwrap();
    engine.set(b"lang".to_vec(), b"rust".to_vec()).unwrap();
    engine.del(b"lang").unwrap();
    let log = engine.take_log().unwrap();

    let mut restored = KvEngine::new();
    let (stats, _) = replay(&log, &mut restored).unwrap();
    assert_eq!(stats.applied, 3);
    assert_eq!(stats.skipped, 0);
    assert!(!stats.truncated_tail);

    assert_eq!(restored.get(b"name").unwrap(), Some(b"ferrum".to_vec()));
    assert_eq!(restored.get(b"lang").unwrap(), None);
    assert_eq!(restored.dbsize().unwrap(), 1);
}

#[test]
fn writes_survive_restart_with_everysec_policy() {
    let mut engine = engine_with_log(FsyncPolicy::EverySec);
    for i in 0..20 {
        engine.set(format!("k{i}").into_bytes(), format!("v{i}").into_bytes()).unwrap();
    }
    let log = engine.take_log().unwrap();

    let mut restored = KvEngine::new();
    replay(&log, &mut restored).unwrap();
    for i in 0..20 {
        assert_eq!(
            restored.get(format!("k{i}").as_bytes()).unwrap(),
            Some(format!("v{i}").into_bytes())
        );
    }
}

#[test]
fn writes_survive_restart_with_no_policy() {
    let mut engine = engine_with_log(FsyncPolicy::No);
    engine.set(b"k".to_vec(), b"v".to_vec()).unwrap();
    let log = engine.take_log().unwrap();

    let mut restored = KvEngine::new();
    replay(&log, &mut restored).unwrap();
    assert_eq!(restored.get(b"k").unwrap(), Some(b"v".to_vec()));
}

#[test]
fn flushdb_is_replayed_and_resets_state() {
    let mut engine = engine_with_log(FsyncPolicy::Always);
    engine.set(b"a".to_vec(), b"1".to_vec()).unwrap();
    engine.set(b"b".to_vec(), b"2".to_vec()).unwrap();
    engine.flushdb().unwrap();
    engine.set(b"c".to_vec(), b"3".to_vec()).unwrap();
    let log = engine.take_log().unwrap();

    let mut restored = KvEngine::new();
    replay(&log, &mut restored).unwrap();
    assert_eq!(restored.get(b"a").unwrap(), None);
    assert_eq!(restored.get(b"b").unwrap(), None);
    assert_eq!(restored.get(b"c").unwrap(), Some(b"3".to_vec()));
    assert_eq!(restored.dbsize().unwrap(), 1);
}

#[test]
fn read_only_commands_do_not_grow_the_log() {
    let mut engine = engine_with_log(FsyncPolicy::Always);
    engine.get(b"missing").unwrap();
    engine.key_exists(b"missing").unwrap();
    engine.dbsize().unwrap();
    assert!(
        engine.take_log().unwrap().is_empty(),
        "read-only commands must not append to the log"
    );
}

#[test]
fn values_containing_crlf_round_trip_through_aof() {
    let tricky: &[u8] = b"line1\r\nline2\r\n";
    let mut engine = engine_with_log(FsyncPolicy::Always);
    engine.set(b"k".to_vec(), tricky.to_vec()).unwrap();
    let log = engine.take_log().unwrap();

    let mut restored = KvEngine::new();
    replay(&log, &mut restored).unwrap();
    assert_eq!(restored.get(b"k").unwrap(), Some(tricky.to_vec()));
}

#[test]
fn binary_keys_and_values_round_trip_through_aof() {
    let key: Vec<u8> = vec![0x00, 0xff, 0x01, b'\r', b'\n'];
    let value: Vec<u8> = vec![0x80, 0x00, 0xc3, 0x28, 0xfe, 0x01];
    let mut engine = engine_with_log(FsyncPolicy::Always);
    engine.set(key.clone(), value.clone()).unwrap();
    let log = engine.take_log().unwrap();

    let mut restored = KvEngine::new();
    let (stats, _) = replay(&log, &mut restored).unwrap();
    assert_eq!(stats.applied, 1);
    assert_eq!(restored.get(&key).unwrap(), Some(value));
}

#[test]
fn partial_tail_is_recovered_and_file_is_truncated() {
    let mut engine = engine_with_log(FsyncPolicy::Always);
    engine.set(b"a".to_vec(), b"1".to_vec()).unwrap();
    let mut log = engine.take_log().unwrap();

    // A crash in the middle of a write leaves a truncated SET at the end.
    log.extend_from_slice(b"*3\r\n$3\r\nSET\r\n$1\r\nb\r\n$5\r\nfoo");

    let mut restored = KvEngine::new();
    let (stats, keep) = replay(&log, &mut restored).unwrap();
    assert!(stats.truncated_tail);
    assert_eq!(stats.applied, 1);
    assert_eq!(restored.get(b"a").unwrap(), Some(b"1".to_vec()));
    assert_eq!(restored.get(b"b").unwrap(), None);

    // A second replay is a clean pass over what was kept.
    log.truncate(keep);
    let mut second = KvEngine::new();
    let (stats2, keep2) = replay(&log, &mut second).unwrap();
    assert!(!stats2.truncated_tail);
    assert_eq!(stats2.applied, 1);
    assert_eq!(keep2, keep);
}

#[test]
fn reopening_writer_does_not_duplicate_prior_records() {
    let mut engine = engine_with_log(FsyncPolicy::Always);
    engine.set(b"a".to_vec(), b"1".to_vec()).unwrap();
    let mut log = engine.take_log().unwrap();

    let mut restored = KvEngine::new();
    replay(&log, &mut restored).unwrap();
    let mut engine = restored.with_aof(AofWriter::new(FsyncPolicy::Always));
    engine.set(b"b".to_vec(), b"2".to_vec()).unwrap();
    log.extend(engine.take_log().unwrap());

    let mut final_engine = KvEngine::new();
    let (stats, _) = replay(&log, &mut final_engine).unwrap();
    assert_eq!(stats.applied, 2);
    assert_eq!(final_engine.get(b"a").unwrap(), Some(b"1".to_vec()));
    assert_eq!(final_engine.get(b"b").unwrap(), Some(b"2".to_vec()));
}

#[test]
fn writes_set_in_resp_format_with_always_policy() {
    let mut writer = AofWriter::new(FsyncPolicy::Always);
    writer.append_set(b"name", b"ferrum");
    assert_eq!(writer.take_pending(), b"*3\r\n$3\r\nSET\r\n$4\r\nname\r\n$6\r\nferrum\r\n");
    assert!(writer.take_pending().is_empty());
    assert_eq!(writer.policy(), FsyncPolicy::Always);
}

#[test]
fn writes_multiple_commands_in_order() {
    let mut writer = AofWriter::new(FsyncPolicy::Always);
    writer.append_set(b"a", b"1");
    writer.append_del(b"a");
    writer.append_flushdb();
    writer.append_pexpireat(b"a", 1_700_000_000_000);
    writer.append_persist(b"a");

    let expected = [
        "*3\r\n$3\r\nSET\r\n$1\r\na\r\n$1\r\n1\r\n",
        "*2\r\n$3\r\nDEL\r\n$1\r\na\r\n",
        "*1\r\n$7\r\nFLUSHDB\r\n",
        "*3\r\n$9\r\nPEXPIREAT\r\n$1\r\na\r\n$13\r\n1700000000000\r\n",
        "*2\r\n$7\r\nPERSIST\r\n$1\r\na\r\n",
    ]
    .concat();
    assert_eq!(writer.take_pending(), expected.as_bytes());
}

#[test]
fn batch_is_one_run_of_records() {
    let mut writer = AofWriter::new(FsyncPolicy::Always);
    writer.append_set_many(&[]);
    assert!(writer.take_pending().is_empty());
    writer.append_set_many(&[(b"a".to_vec(), b"1".to_vec()), (b"b".to_vec(), b"".to_vec())]);
    let expected = [
        "*3\r\n$3\r\nSET\r\n$1\r\na\r\n$1\r\n1\r\n",
        "*3\r\n$3\r\nSET\r\n$1\r\nb\r\n$0\r\n\r\n",
    ]
    .concat();
    assert_eq!(writer.take_pending(), expected.as_bytes());
}

#[test]
fn delta_captures_appends_issued_during_rewrite() {
    let mut writer = AofWriter::new(FsyncPolicy::Always);
    writer.begin_rewrite();
    assert!(writer.is_rewriting());
    writer.append_set(b"k", b"v");
    match writer.finish_rewrite() {
        RewriteEnd::Swap(delta) => assert_eq!(
            delta, b"*3\r\n$3\r\nSET\r\n$1\r\nk\r\n$1\r\nv\r\n",
            "append during rewrite must be mirrored into the delta"
        ),
        RewriteEnd::KeepOld => panic!("expected the rewrite to end well"),
    }
    assert!(!writer.is_rewriting());
}

#[test]
fn bounded_delta_overflow_aborts_rewrite_and_keeps_old_aof() {
    // A tiny cap, so that a single large SET overflows it.
    let mut writer = AofWriter::with_delta_cap(FsyncPolicy::Always, 50);
    writer.append_set(b"keep", b"me");

    writer.begin_rewrite();
    writer.append_set(b"bigkey", &[b'x'; 200]);
    assert!(!writer.is_rewriting(), "overflow must abort the rewrite in flight");

    // The old log still gets everything.
    let bytes = writer.take_pending();
    assert!(holds(&bytes, b"$4\r\nkeep\r\n"));
    assert!(holds(&bytes, b"$6\r\nbigkey\r\n"));
    assert!(matches!(writer.finish_rewrite(), RewriteEnd::KeepOld));
}

#[test]
fn aborted_rewrite_keeps_old_log() {
    let mut writer = AofWriter::new(FsyncPolicy::Always);
    writer.begin_rewrite();
    writer.append_set(b"k", b"v");
    writer.abort_rewrite();
    assert!(!writer.is_rewriting());
    assert!(holds(&writer.take_pending(), b"$1\r\nk\r\n"));
    assert!(matches!(writer.finish_rewrite(), RewriteEnd::KeepOld));
}

#[test]
fn finish_rewrite_swaps_handle_and_replays_delta() {
    let mut writer = AofWriter::new(FsyncPolicy::Always);
    writer.append_set(b"orig", b"1");
    let _old = writer.take_pending();

    writer.begin_rewrite();
    writer.append_set(b"delta", b"2");

    let mut file = b"*3\r\n$3\r\nSET\r\n$4\r\norig\r\n$1\r\n1\r\n".to_vec();
    match writer.finish_rewrite() {
        RewriteEnd::Swap(delta) => file.extend(delta),
        RewriteEnd::KeepOld => panic!("expected the rewrite to end well"),
    }
    assert!(!writer.is_rewriting());
    file.extend(writer.take_pending());
    assert!(holds(&file, b"$4\r\norig\r\n"));
    assert_eq!(count(&file, b"$5\r\ndelta\r\n"), 1);
}

#[test]
fn rewrite_compacts_aof_to_one_set_per_key() {
    let mut engine = engine_with_log(FsyncPolicy::Always);
    for i in 0..40u32 {
        engine.set(format!("k{i}").into_bytes(), format!("v{i}").into_bytes()).unwrap();
    }
    for i in 0..10u32 {
        engine.set(format!("k{i}").into_bytes(), b"new".to_vec()).unwrap();
    }

    assert!(engine.rewrite_aof().unwrap());
    let mut log = serialise_compact_aof(&engine.begin_rewrite().unwrap());
    assert!(!engine.rewrite_aof().unwrap(), "a rewrite already runs");
    match engine.finish_rewrite().unwrap() {
        RewriteEnd::Swap(delta) => log.extend(delta),
        RewriteEnd::KeepOld => panic!("expected the rewrite to end well"),
    }

    let keys = set_keys(&log);
    assert_eq!(keys.len(), 40, "exactly one SET per live key");
    let distinct: HashSet<Vec<u8>> = keys.iter().cloned().collect();
    assert_eq!(distinct.len(), 40);

    let mut restored = KvEngine::new();
    replay(&log, &mut restored).unwrap();
    for i in 0..40u32 {
        assert_eq!(
            restored.get(format!("k{i}").as_bytes()).unwrap(),
            if i < 10 { Some(b"new".to_vec()) } else { Some(format!("v{i}").into_bytes()) }
        );
    }
}

#[test]
fn rewrite_preserves_ttl_as_pexpireat_and_drops_expired() {
    let mut engine = engine_with_log(FsyncPolicy::Always);
    for i in 0..5u32 {
        engine.set(format!("k{i}").into_bytes(), format!("v{i}").into_bytes()).unwrap();
    }
    // k0 gets a TTL; k1 gets a TTL that is already in the past.
    engine.expire_at_ms(b"k0", current_epoch_ms() + 60_000).unwrap();
    engine.expire_at_ms(b"k1", current_epoch_ms() - 1_000).unwrap();

    let log = serialise_compact_aof(&engine.begin_rewrite().unwrap());
    assert_eq!(count(&log, b"*3\r\n$3\r\nSET\r\n"), 4);
    assert_eq!(count(&log, b"$9\r\nPEXPIREAT\r\n"), 1);

    let mut restored = KvEngine::new();
    replay(&log, &mut restored).unwrap();
    assert!(matches!(restored.ttl_ms(b"k0").unwrap(), TtlStatus::Millis(_)));
    assert_eq!(restored.get(b"k1").unwrap(), None, "expired key dropped");
}

#[test]
fn writes_during_rewrite_survive_restart() {
    let mut engine = engine_with_log(FsyncPolicy::Always);
    for i in 0..500u32 {
        engine.set(format!("k{i}").into_bytes(), format!("v{i}").into_bytes()).unwrap();
    }

    let mut log = serialise_compact_aof(&engine.begin_rewrite().unwrap());
    engine.set(b"during".to_vec(), b"yes".to_vec()).unwrap();
    match engine.finish_rewrite().unwrap() {
        RewriteEnd::Swap(delta) => log.extend(delta),
        RewriteEnd::KeepOld => panic!("expected the rewrite to end well"),
    }
    log.extend(engine.take_log().unwrap());

    let mut restored = KvEngine::new();
    replay(&log, &mut restored).unwrap();
    for i in 0..500u32 {
        assert_eq!(
            restored.get(format!("k{i}").as_bytes()).unwrap(),
            Some(format!("v{i}").into_bytes())
        );
    }
    assert_eq!(restored.get(b"during").unwrap(), Some(b"yes".to_vec()));
}

#[test]
fn bgrewriteaof_starts_a_rewrite_only_with_a_log() {
    let request = b"*1\r\n$12\r\nBGREWRITEAOF\r\n";
    let mut out = Vec::new();
    let mut engine = KvEngine::new();
    let mut session = Session::new(None);
    let verdict = session.on_data(request, &mut engine, &mut out);
    assert!(!verdict.start_rewrite && !verdict.close);
    assert_eq!(out, b"-ERR AOF is not enabled\r\n");

    let mut out = Vec::new();
    let mut engine = engine_with_log(FsyncPolicy::Always);
    let mut session = Session::new(None);
    let verdict = session.on_data(request, &mut engine, &mut out);
    assert!(verdict.start_rewrite && !verdict.close);
    assert_eq!(out, b"+OK\r\n");
    let next = session.on_data(b"*1\r\n$4\r\nPING\r\n", &mut engine, &mut out);
    assert!(!next.start_rewrite, "a request is handed over once");
}

#[test]
fn log_replays_as_a_stream_of_requests() {
    let mut engine = engine_with_log(FsyncPolicy::Always);
    engine.set(b"a".to_vec(), b"1".to_vec()).unwrap();
    engine.incr_by(b"a".to_vec(), 41).unwrap();
    engine.set(b"b".to_vec(), b"2".to_vec()).unwrap();
    engine.expire_at_ms(b"a", current_epoch_ms() + 60_000).unwrap();
    engine.persist(b"a").unwrap();
    engine.del(b"b").unwrap();
    let log = engine.take_log().unwrap();

    let mut other = KvEngine::new();
    let mut out = Vec::new();
    let verdict = Session::new(None).on_data(&log, &mut other, &mut out);
    assert!(!verdict.close);
    assert_eq!(out, b"+OK\r\n+OK\r\n+OK\r\n:1\r\n:1\r\n:1\r\n");
    assert_eq!(other.get(b"a").unwrap(), Some(b"42".to_vec()));
    assert_eq!(other.get(b"b").unwrap(), None);
}
