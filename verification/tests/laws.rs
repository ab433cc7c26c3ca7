use ferrum_kv::clock::{
    clock_from, current_minute_stamp, minute_stamp, rng_seed, seed_from, xorshift32, Clock,
    SystemClock,
};
use ferrum_kv::config::cli::log_filter;
use ferrum_kv::error::FerrumError;
use ferrum_kv::network::execute::execute_command;
use ferrum_kv::network::growth::growth_of;
use ferrum_kv::network::server::{admits, refusal, Session, READ_BUF_MAX};
use ferrum_kv::persistence::config::FsyncPolicy;
use ferrum_kv::persistence::replay::replay_at;
use ferrum_kv::persistence::writer::RewriteEnd;
use ferrum_kv::persistence::AofWriter;
use ferrum_kv::protocol::frame::{parse_frame, Command, FrameParse};
use ferrum_kv::storage::engine::glob::glob_match;
use ferrum_kv::storage::engine::model::PER_ENTRY_OVERHEAD;
use ferrum_kv::storage::engine::{KvEngine, SweepStats, TtlStatus};
use ferrum_kv::storage::eviction::{EvictionConfig, EvictionPolicy};
use ferrum_kv::storage::expire::sweep_tick;

fn at(ms: u64) -> Clock {
    Clock { mono_ns: ms * 1_000_000, epoch_ms: 1_700_000_000_000 + ms as i64 }
}

fn put(e: &mut KvEngine, key: &str, value: &str, now: Clock) {
    e.insert(key.as_bytes().to_vec(), value.as_bytes().to_vec(), now).unwrap();
}

fn logged() -> KvEngine {
    KvEngine::new().with_aof(AofWriter::new(FsyncPolicy::No))
}

fn limited(policy: EvictionPolicy, entries: u64) -> KvEngine {
    let mut e = KvEngine::new();
    let max_memory = entries * (1 + 3 + PER_ENTRY_OVERHEAD);
    e.set_eviction_config(EvictionConfig { max_memory, policy, samples: 5 }).unwrap();
    e
}

#[test]
fn restart_restores_values_and_deadlines() {
    let mut e = logged();
    put(&mut e, "plain", "1", at(0));
    put(&mut e, "timed", "2", at(1));
    assert!(e.expire_at(b"timed", at(5_000).epoch_ms, at(2)));
    put(&mut e, "brief", "3", at(3));
    assert!(e.expire_at(b"brief", at(100).epoch_ms, at(4)));
    assert_eq!(e.incr_by_at(b"plain".to_vec(), 41, at(5)).unwrap(), 42);
    let log = e.take_log().unwrap();

    let mut restored = KvEngine::new();
    let (stats, keep) = replay_at(&log, &mut restored, at(1_000)).unwrap();
    assert_eq!((stats.applied, stats.skipped, stats.truncated_tail), (6, 0, false));
    assert_eq!(keep, log.len());
    assert_eq!(restored.fetch_live(b"plain", at(1_000)), Some(b"42".to_vec()));
    assert_eq!(restored.fetch_live(b"timed", at(1_000)), Some(b"2".to_vec()));
    assert_eq!(restored.ttl_of(b"timed", at(1_000)), TtlStatus::Millis(4_000));
    assert_eq!(restored.fetch_live(b"brief", at(1_000)), None);
}

#[test]
fn restart_keeps_a_key_whose_former_deadline_passed() {
    let mut e = logged();
    put(&mut e, "moved", "v", at(0));
    assert!(e.expire_at(b"moved", at(100).epoch_ms, at(1)));
    assert!(e.expire_at(b"moved", at(9_000).epoch_ms, at(2)));
    put(&mut e, "lifted", "w", at(3));
    assert!(e.expire_at(b"lifted", at(100).epoch_ms, at(4)));
    assert!(e.persist_at(b"lifted", at(5)));
    put(&mut e, "lapsed", "x", at(6));
    assert!(e.expire_at(b"lapsed", at(100).epoch_ms, at(7)));
    let log = e.take_log().unwrap();

    for ms in [50, 1_000, 10_000] {
        let mut back = KvEngine::new();
        let (stats, keep) = replay_at(&log, &mut back, at(ms)).unwrap();
        assert_eq!((stats.applied, stats.skipped, keep), (8, 0, log.len()));
        for key in [&b"moved"[..], b"lifted", b"lapsed"] {
            assert_eq!(back.fetch_live(key, at(ms)), e.fetch_live(key, at(ms)), "{key:?} at {ms}");
            assert_eq!(back.ttl_of(key, at(ms)), e.ttl_of(key, at(ms)), "{key:?} at {ms}");
        }
    }
    let mut late = KvEngine::new();
    replay_at(&log, &mut late, at(1_000)).unwrap();
    assert_eq!(late.fetch_live(b"moved", at(1_000)), Some(b"v".to_vec()));
    assert_eq!(late.ttl_of(b"moved", at(1_000)), TtlStatus::Millis(8_000));
    assert_eq!(late.fetch_live(b"lifted", at(1_000)), Some(b"w".to_vec()));
    assert_eq!(late.ttl_of(b"lifted", at(1_000)), TtlStatus::NoExpire);
    assert_eq!(late.scan_keys(b"*").unwrap().len(), 2);
}

#[test]
fn replayed_logs_keep_what_a_later_record_saves() {
    let record = |parts: &[&str]| {
        let mut out = format!("*{}\r\n", parts.len());
        for p in parts {
            out.push_str(&format!("${}\r\n{p}\r\n", p.len()));
        }
        out
    };
    let (t1, t2) = (at(10).epoch_ms.to_string(), at(90).epoch_ms.to_string());
    let set = record(&["SET", "k", "v"]);
    let first = record(&["PEXPIREAT", "k", &t1]);
    let moved = set.clone() + &first + &record(&["PEXPIREAT", "k", &t2]);
    let lifted = set.clone() + &first + &record(&["PERSIST", "k"]);
    let lapsed = set + &first;
    for (log, left) in [
        (moved, TtlStatus::Millis(40)),
        (lifted, TtlStatus::NoExpire),
        (lapsed, TtlStatus::Missing),
    ] {
        let mut e = KvEngine::new();
        replay_at(log.as_bytes(), &mut e, at(50)).unwrap();
        assert_eq!(e.ttl_of(b"k", at(50)), left);
    }
}

#[test]
fn truncated_log_replays_to_every_record_boundary() {
    let mut e = logged();
    put(&mut e, "a", "1", at(0));
    let first = e.take_log().unwrap();
    put(&mut e, "b", "22", at(0));
    let mut log = first.clone();
    log.extend(e.take_log().unwrap());
    for cut in first.len()..log.len() {
        let mut r = KvEngine::new();
        let (stats, keep) = replay_at(&log[..cut], &mut r, at(1)).unwrap();
        assert_eq!(stats.applied, 1);
        assert_eq!(stats.truncated_tail, cut > first.len());
        assert_eq!(keep, first.len());
    }
}

#[test]
fn policies_over_all_keys_never_refuse_what_fits_alone() {
    for policy in [
        EvictionPolicy::AllKeysLru,
        EvictionPolicy::AllKeysLfu,
        EvictionPolicy::AllKeysRandom,
        EvictionPolicy::AllKeysAhe,
        EvictionPolicy::AllKeysSieve,
        EvictionPolicy::AllKeysSieveS,
        EvictionPolicy::AllKeysAdaptiveClimb,
    ] {
        let mut e = limited(policy, 3);
        for i in 0..30u64 {
            put(&mut e, &format!("{}", i % 10), "abc", at(i));
            e.fetch_live(b"3", at(i));
            assert!(e.used_memory() <= 3 * (4 + PER_ENTRY_OVERHEAD), "{policy:?}");
        }
        // A value as large as the limit drives everything else out.
        let room = 3 * (4 + PER_ENTRY_OVERHEAD) - PER_ENTRY_OVERHEAD - 1;
        let big = vec![b'x'; room as usize];
        e.insert(b"z".to_vec(), big, at(99)).unwrap();
        assert_eq!(e.dbsize_at(at(99)), 1, "{policy:?}");
        let too_big = vec![b'x'; room as usize + 1];
        let refused = e.insert(b"y".to_vec(), too_big, at(99));
        assert!(matches!(refused, Err(FerrumError::OutOfMemory)), "{policy:?}");
    }
}

#[test]
fn volatile_policies_refuse_when_the_kept_keys_leave_no_room() {
    for policy in [
        EvictionPolicy::VolatileLru,
        EvictionPolicy::VolatileLfu,
        EvictionPolicy::VolatileRandom,
        EvictionPolicy::VolatileTtl,
        EvictionPolicy::VolatileAhe,
    ] {
        let mut e = limited(policy, 2);
        put(&mut e, "a", "abc", at(0));
        put(&mut e, "b", "abc", at(0));
        assert!(e.insert(b"c".to_vec(), b"abc".to_vec(), at(1)).is_err(), "{policy:?}");
        assert!(e.expire_at(b"a", at(60_000).epoch_ms, at(1)));
        assert!(e.insert(b"c".to_vec(), b"abc".to_vec(), at(2)).is_ok(), "{policy:?}");
        assert!(!e.contains_live(b"a", at(2)), "{policy:?}");
        assert!(e.contains_live(b"b", at(2)), "{policy:?}");
    }
}

#[test]
fn evictions_reach_the_log() {
    let mut e = limited(EvictionPolicy::AllKeysLru, 2)
        .with_aof(AofWriter::new(FsyncPolicy::Always));
    for i in 0..9u64 {
        put(&mut e, &format!("{i}"), "abc", at(i));
    }
    let log = e.take_log().unwrap();
    let mut r = KvEngine::new();
    replay_at(&log, &mut r, at(10)).unwrap();
    assert_eq!(r.dbsize_at(at(10)), 2);
    assert!(r.contains_live(b"7", at(10)) && r.contains_live(b"8", at(10)));
}

#[test]
fn mset_is_all_or_nothing_under_a_memory_limit() {
    let mut e = limited(EvictionPolicy::NoEviction, 2);
    let pair = |k: &str| (k.as_bytes().to_vec(), b"abc".to_vec());
    assert!(e.insert_many(vec![pair("a"), pair("b")], at(0)).is_ok());
    assert!(e.insert_many(vec![pair("a"), pair("c"), pair("d")], at(0)).is_err());
    assert_eq!(e.dbsize_at(at(0)), 2);
    assert!(!e.contains_live(b"c", at(0)));
}

#[test]
fn sweeps_keep_live_keys_and_drop_lapsed_ones() {
    let mut e = KvEngine::new();
    for i in 0..40u64 {
        put(&mut e, &format!("k{i}"), "v", at(0));
        if i % 2 == 0 {
            assert!(e.expire_at(format!("k{i}").as_bytes(), at(10).epoch_ms, at(0)));
        }
    }
    let stats = e.sweep_expired_at(100, at(11));
    assert_eq!(stats, SweepStats { examined: 40, evicted: 20 });
    assert!(stats.should_continue());
    assert_eq!(e.dbsize_at(at(11)), 20);
    let stats = e.sweep_expired_at(100, at(11));
    assert_eq!(stats, SweepStats { examined: 20, evicted: 0 });
    assert!(!stats.should_continue());
    assert!(!SweepStats { examined: 8, evicted: 2 }.should_continue());
    assert!(SweepStats { examined: 8, evicted: 3 }.should_continue());
    sweep_tick(&mut e, 20);
    assert_eq!(e.dbsize().unwrap(), 20);
}

#[test]
fn expire_stats_report_count_and_mean() {
    let mut e = KvEngine::new();
    put(&mut e, "a", "1", at(0));
    put(&mut e, "b", "1", at(0));
    put(&mut e, "c", "1", at(0));
    assert_eq!(e.expire_stats_at(at(0)), (0, 0));
    assert!(e.expire_at(b"a", at(1_000).epoch_ms, at(0)));
    assert!(e.expire_at(b"b", at(4_001).epoch_ms, at(0)));
    assert_eq!(e.expire_stats_at(at(0)), (2, 2_500));
    assert_eq!(e.expire_stats_at(at(2_000)), (1, 2_001));
    assert_eq!(e.expire_stats().unwrap().0, e.expire_stats().unwrap().0);
    assert_eq!(e.eviction_config().unwrap().samples, 5);
}

#[test]
fn chunks_do_not_matter() {
    let requests = b"*3\r\n$3\r\nSET\r\n$1\r\nk\r\n$2\r\nv1\r\n*2\r\n$3\r\nGET\r\n$1\r\nk\r\n*1\r\n$4\r\nNOPE\r\n*1\r\n$4\r\nPING\r\n";
    let expected = b"+OK\r\n$2\r\nv1\r\n-ERR unknown command: 'NOPE'\r\n+PONG\r\n";
    for cut in 0..=requests.len() {
        let mut engine = KvEngine::new();
        let mut session = Session::new(None);
        let mut out = Vec::new();
        assert!(!session.on_data(&requests[..cut], &mut engine, &mut out).close);
        assert!(!session.on_data(&requests[cut..], &mut engine, &mut out).close);
        assert_eq!(out, expected, "cut at {cut}");
    }
}

#[test]
fn unreadable_bytes_close_the_connection() {
    let mut engine = KvEngine::new();
    let mut session = Session::new(None);
    let mut out = Vec::new();
    let verdict = session.on_data(b"hello\r\n", &mut engine, &mut out);
    assert!(verdict.close);
    assert_eq!(out, b"-ERR Protocol error: expected an array of bulk strings\r\n");
    // Nothing more is answered.
    let verdict = session.on_data(b"*1\r\n$4\r\nPING\r\n", &mut engine, &mut out);
    assert!(verdict.close);
    assert_eq!(out.len(), 56);
}

#[test]
fn oversized_request_is_refused() {
    let mut engine = KvEngine::new();
    let mut session = Session::new(None);
    let mut out = Vec::new();
    assert!(!session.on_data(b"*2\r\n$3\r\nGET\r\n$99999999\r\n", &mut engine, &mut out).close);
    assert!(out.is_empty());
    let verdict = session.on_data(&vec![b'x'; READ_BUF_MAX], &mut engine, &mut out);
    assert!(verdict.close);
    assert_eq!(out, b"-ERR request too large\r\n");
}

#[test]
fn second_client_is_rejected_when_maxclients_is_one() {
    assert!(admits(0, 1));
    assert!(!admits(1, 1));
    assert!(admits(1_000_000, 0));
    assert_eq!(refusal(), b"-ERR max number of clients reached\r\n");
}

#[test]
fn commands_run_without_a_connection() {
    let mut engine = KvEngine::new();
    let mut out = Vec::new();
    let frame = b"*3\r\n$3\r\nset\r\n$1\r\nk\r\n$1\r\nv\r\n";
    match parse_frame(frame).unwrap() {
        FrameParse::Complete { command, consumed } => {
            assert_eq!(consumed, frame.len());
            execute_command(command, &mut engine, &mut out);
        }
        other => panic!("unexpected {other:?}"),
    }
    execute_command(Command::Get { key: b"k".to_vec() }, &mut engine, &mut out);
    assert_eq!(out, b"+OK\r\n$1\r\nv\r\n");
    assert!(matches!(parse_frame(b"*1\r\n$4\r\nPI"), Ok(FrameParse::Incomplete)));
    assert!(matches!(
        parse_frame(b"*2\r\n$4\r\nINCR\r\n$1\r\nk\r\n*1"),
        Ok(FrameParse::Complete { consumed: 21, .. })
    ));
}

#[test]
fn lifetimes_are_reported_in_seconds_and_milliseconds() {
    let mut engine = KvEngine::new();
    let mut session = Session::new(None);
    let mut out = Vec::new();
    let requests = b"*3\r\n$3\r\nSET\r\n$1\r\nk\r\n$1\r\nv\r\n*3\r\n$6\r\nEXPIRE\r\n$1\r\nk\r\n$3\r\n100\r\n*2\r\n$3\r\nTTL\r\n$1\r\nk\r\n*2\r\n$4\r\nPTTL\r\n$4\r\nnone\r\n";
    session.on_data(requests, &mut engine, &mut out);
    assert_eq!(out, b"+OK\r\n:1\r\n:100\r\n:-2\r\n");
}

#[test]
fn glob_patterns_follow_their_grammar() {
    assert!(glob_match(b"*", b""));
    assert!(glob_match(b"plain", b"plain") && !glob_match(b"plain", b"plainer"));
    assert!(glob_match(b"user:*", b"user:1") && !glob_match(b"user:*", b"use:1"));
    assert!(glob_match(b"a?c", b"abc") && !glob_match(b"a?c", b"ac"));
    assert!(glob_match(b"[a-c]x", b"bx") && !glob_match(b"[!a-c]x", b"bx"));
    assert!(glob_match(b"[c-a]", b"z") && !glob_match(b"[c-a]", b"b"));
    assert!(glob_match(b"\\*", b"*") && !glob_match(b"\\*", b"x"));
    assert!(glob_match(b"[ab", b"[ab") && !glob_match(b"[ab", b"a"));
    assert!(glob_match(b"a**b", b"a-b"));
}

#[test]
fn clocks_and_generator() {
    let clock = SystemClock::new();
    let first = clock.read();
    let start = std::time::Instant::now();
    while start.elapsed().as_millis() < 3 {}
    let second = clock.read();
    assert!(second.mono_ns >= first.mono_ns + 3_000_000);
    assert!(second.epoch_ms > 1_600_000_000_000);
    assert_eq!(
        clock_from(7, Some(1_999_999)),
        Clock { mono_ns: 7, epoch_ms: 1 }
    );
    assert_eq!(
        clock_from(1 << 64, None),
        Clock { mono_ns: u64::MAX, epoch_ms: 0 }
    );
    assert_eq!(clock_from(0, Some(u128::MAX)).epoch_ms, i64::MAX);
    assert_eq!(minute_stamp(60_000 * 70_000), (70_000u32 % 65_536) as u16);
    assert_eq!(minute_stamp(-1), 0);
    let (a, b) = (current_minute_stamp(), current_minute_stamp());
    assert!(b.wrapping_sub(a) <= 1);
    assert_eq!(seed_from(0), 0xDEAD_BEEF);
    assert_ne!(rng_seed(), 0);
    assert_eq!(xorshift32(1), 270_369);
    assert_ne!(xorshift32(u32::MAX), 0);
}

#[test]
fn environment_wins_over_the_configured_level() {
    let text = |s: &str| Some(s.to_string());
    assert_eq!(log_filter(text("a"), text("b"), text("c")), "a");
    assert_eq!(log_filter(None, text("b"), text("c")), "b");
    assert_eq!(log_filter(None, None, text("c")), "c");
    assert_eq!(log_filter(None, None, None), "info");
}

#[test]
fn access_is_kept_once_opened() {
    let mut engine = KvEngine::new();
    engine.set_requirepass(Some(b"pw".to_vec())).unwrap();
    let mut session = Session::new(None);
    let mut out = Vec::new();
    let auth = b"*2\r\n$4\r\nAUTH\r\n$2\r\npw\r\n";
    let wrong = b"*2\r\n$4\r\nAUTH\r\n$2\r\nxx\r\n";
    let ping = b"*1\r\n$4\r\nPING\r\n";
    session.on_data(ping, &mut engine, &mut out);
    session.on_data(auth, &mut engine, &mut out);
    session.on_data(wrong, &mut engine, &mut out);
    out.clear();
    engine.set_requirepass(Some(b"other".to_vec())).unwrap();
    session.on_data(ping, &mut engine, &mut out);
    assert_eq!(out, b"+PONG\r\n");
}

#[test]
fn every_error_has_its_text() {
    for (error, text) in [
        (FerrumError::IoError("x".into()), "io error: x"),
        (FerrumError::LockPoisoned("x".into()), "lock poisoned: x"),
        (FerrumError::Internal("x".into()), "internal error: x"),
        (FerrumError::ParseError("x".into()), "x"),
        (FerrumError::UnknownCommand("X".into()), "unknown command: 'X'"),
        (FerrumError::WrongArity { cmd: "GET" }, "wrong number of arguments for 'GET' command"),
        (FerrumError::KeyTooLong { len: 2, max: 1 }, "key too long (2 bytes, max 1)"),
        (FerrumError::ValueTooLarge { len: 2, max: 1 }, "value too large (2 bytes, max 1)"),
        (FerrumError::OutOfMemory, "command not allowed when used memory > maxmemory"),
        (FerrumError::PersistenceError("x".into()), "persistence error: x"),
        (FerrumError::AofNotEnabled, "AOF is not enabled"),
    ] {
        assert_eq!(error.to_string(), text);
    }
}

#[test]
fn command_names_ignore_case() {
    let mixed = b"*3\r\n$7\r\npExPiRe\r\n$1\r\nk\r\n$2\r\n90\r\n";
    let upper = b"*3\r\n$7\r\nPEXPIRE\r\n$1\r\nk\r\n$2\r\n90\r\n";
    let read = |frame: &[u8]| match parse_frame(frame) {
        Ok(FrameParse::Complete { command, .. }) => format!("{command:?}"),
        other => panic!("unexpected {other:?}"),
    };
    assert_eq!(read(mixed), read(upper));
}

#[test]
fn slow_log_numbers_go_on_after_a_reset() {
    let mut e = KvEngine::new();
    e.set_slowlog_threshold_us(-1);
    e.maybe_push_slowlog(vec![b"A".to_vec()], None, 0);
    e.maybe_push_slowlog(vec![b"B".to_vec()], None, 0);
    e.slowlog_reset();
    e.maybe_push_slowlog(vec![b"C".to_vec()], None, 0);
    assert_eq!(e.slowlog_get(None)[0].id, 3);
}

#[test]
fn restart_restores_plain_writes() {
    let mut e = logged();
    let mut file = Vec::new();
    let bin = b"\0\r\n*3".to_vec();
    put(&mut e, "gone", "x", at(0));
    e.flushdb().unwrap();
    e.set(bin.clone(), b"\r\n".to_vec()).unwrap();
    file.extend(e.take_log().unwrap());
    assert!(e.set_nx(b"n".to_vec(), b"1".to_vec()).unwrap());
    assert!(!e.set_nx(b"n".to_vec(), b"2".to_vec()).unwrap());
    e.mset(vec![(b"a".to_vec(), b"1".to_vec()), (b"b".to_vec(), b"2".to_vec())]).unwrap();
    e.append(b"a".to_vec(), b"0".to_vec()).unwrap();
    e.incr_by(b"a".to_vec(), -12).unwrap();
    file.extend(e.take_log().unwrap());
    e.del(b"b").unwrap();
    file.extend(e.take_log().unwrap());

    let mut f = KvEngine::new();
    let (stats, keep) = replay_at(&file, &mut f, at(9)).unwrap();
    assert_eq!((stats.skipped, stats.truncated_tail, keep), (0, false, file.len()));
    for key in [&bin[..], b"gone", b"n", b"a", b"b"] {
        assert_eq!(f.get(key).unwrap(), e.get(key).unwrap());
    }
    assert_eq!(f.get(b"a").unwrap(), Some(b"-2".to_vec()));
}

#[test]
fn del_of_several_keys_counts_each_live_key_once() {
    let mut e = logged();
    put(&mut e, "a", "1", at(0));
    put(&mut e, "b", "2", at(0));
    put(&mut e, "c", "3", at(0));
    e.take_log();
    let keys: Vec<Vec<u8>> = [b"a", b"x", b"a", b"c", b"x"].iter().map(|k| k.to_vec()).collect();
    let before = e.dbsize().unwrap();
    assert_eq!(e.del_many(&keys).unwrap(), 2);
    assert_eq!(e.dbsize().unwrap(), before - 2);
    assert_eq!(e.get(b"b").unwrap(), Some(b"2".to_vec()));
    assert_eq!(
        e.take_log().unwrap(),
        b"*2\r\n$3\r\nDEL\r\n$1\r\na\r\n*2\r\n$3\r\nDEL\r\n$1\r\nc\r\n".to_vec()
    );
}

#[test]
fn access_depends_on_the_password() {
    let mut engine = KvEngine::new();
    let mut session = Session::new(None);
    assert!(session.has_access(&engine));
    engine.set_requirepass(Some(b"pw".to_vec())).unwrap();
    assert!(!session.has_access(&engine));
    let mut out = Vec::new();
    session.on_data(b"*2\r\n$4\r\nAUTH\r\n$2\r\npw\r\n", &mut engine, &mut out);
    assert!(session.has_access(&engine));
}

#[test]
fn a_stream_may_be_cut_anywhere() {
    let stream: &[u8] = b"*3\r\n$3\r\nSET\r\n$1\r\nk\r\n$2\r\nab\r\n*1\r\n$4\r\nNOPE\r\n\
*2\r\n$3\r\nGET\r\n$1\r\nk\r\n*1\r\n$12\r\nBGREWRITEAOF\r\nxyz";
    let run = |sizes: &[usize]| {
        let mut engine = logged();
        let mut session = Session::new(None);
        let (mut out, mut close, mut rewrite, mut pos) = (Vec::new(), false, false, 0);
        for size in sizes.iter().chain([&stream.len()]) {
            let end = stream.len().min(pos + size);
            let v = session.on_data(&stream[pos..end], &mut engine, &mut out);
            close = v.close;
            rewrite |= v.start_rewrite;
            pos = end;
        }
        (out, close, rewrite, engine.get(b"k").unwrap(), engine.take_log())
    };
    let whole = run(&[]);
    assert!(whole.1 && whole.2);
    for n in 1..stream.len() {
        assert_eq!(run(&[n]), whole);
        assert_eq!(run(&vec![n; stream.len() / n]), whole);
    }
}

#[test]
fn a_second_rewrite_leaves_the_first_alone() {
    let mut e = logged();
    put(&mut e, "a", "1", at(0));
    assert_eq!(e.begin_rewrite_at(at(1)).unwrap().len(), 1);
    put(&mut e, "b", "2", at(2));
    assert!(e.begin_rewrite_at(at(3)).is_none());
    match e.finish_rewrite() {
        Some(RewriteEnd::Swap(delta)) => {
            assert_eq!(delta, b"*3\r\n$3\r\nSET\r\n$1\r\nb\r\n$1\r\n2\r\n".to_vec());
        }
        _ => panic!("expected the delta"),
    }
    assert!(KvEngine::new().begin_rewrite_at(at(0)).is_none());
}

#[test]
fn a_command_asks_for_the_room_it_writes() {
    let mut e = KvEngine::new();
    put(&mut e, "k", "12345", at(0));
    put(&mut e, "n", "99", at(0));
    put(&mut e, "old", "xxxx", at(0));
    assert!(e.expire_at(b"old", at(5).epoch_ms, at(1)));
    let (k, n) = (b"k".to_vec(), b"n".to_vec());
    let ask = |c: Command, e: &KvEngine| growth_of(&c, e, at(9));
    let set = |key: &[u8], v: &[u8]| Command::SetKey { key: key.to_vec(), value: v.to_vec() };
    assert_eq!(ask(set(b"new", b"abc"), &e), 6 + PER_ENTRY_OVERHEAD);
    assert_eq!(ask(set(b"k", b"1234567"), &e), 2);
    assert_eq!(ask(set(b"k", b""), &e), 0);
    assert_eq!(ask(set(b"", b"abc"), &e), 0);
    let append = |key: &[u8], v: &[u8]| Command::Append { key: key.to_vec(), value: v.to_vec() };
    assert_eq!(ask(append(b"k", b"678"), &e), 3);
    assert_eq!(ask(append(b"old", b"y"), &e), 4 + PER_ENTRY_OVERHEAD);
    let setnx = |key: &[u8]| Command::SetNx { key: key.to_vec(), value: b"vv".to_vec() };
    assert_eq!(ask(setnx(b"k"), &e), 0);
    assert_eq!(ask(setnx(b"old"), &e), 5 + PER_ENTRY_OVERHEAD);
    assert_eq!(ask(Command::IncrBy { key: n.clone(), delta: 1 }, &e), 1);
    assert_eq!(ask(Command::IncrBy { key: n.clone(), delta: -99 }, &e), 0);
    assert_eq!(ask(Command::IncrBy { key: k.clone(), delta: i64::MAX }, &e), 0);
    let pairs = vec![(k, b"123456789".to_vec()), (n, b"100".to_vec())];
    assert_eq!(ask(Command::MSet { pairs }, &e), 4);
    assert_eq!(ask(Command::DbSize, &e), 0);
}
