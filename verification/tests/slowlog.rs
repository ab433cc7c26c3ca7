use ferrum_kv::storage::engine::KvEngine;

fn peer() -> String {
    "127.0.0.1:6391".to_string()
}

/// The words of `SET k v` as the slow log records them.
fn set_args() -> Vec<Vec<u8>> {
    vec![b"SET".to_vec(), b"k".to_vec(), b"v".to_vec()]
}

#[test]
fn disabled_threshold_logs_nothing() {
    let mut e = KvEngine::new();
    e.set_slowlog_threshold_us(0);
    e.maybe_push_slowlog(set_args(), Some(peer()), 1_000_000);
    assert_eq!(e.slowlog_len(), 0);
}

#[test]
fn equal_to_threshold_is_not_logged() {
    let mut e = KvEngine::new();
    e.set_slowlog_threshold_us(10_000);
    e.maybe_push_slowlog(set_args(), Some(peer()), 10_000);
    assert_eq!(e.slowlog_len(), 0, "exactly-at-threshold must not log");
}

#[test]
fn strictly_exceeding_threshold_is_logged() {
    let mut e = KvEngine::new();
    e.set_slowlog_threshold_us(10_000);
    e.maybe_push_slowlog(set_args(), Some(peer()), 10_001);
    assert_eq!(e.slowlog_len(), 1);
}

#[test]
fn negative_threshold_logs_everything() {
    let mut e = KvEngine::new();
    e.set_slowlog_threshold_us(-1);
    // duration 0 is still logged when threshold is forced on.
    e.maybe_push_slowlog(set_args(), None, 0);
    assert_eq!(e.slowlog_len(), 1);
}

#[test]
fn ids_are_monotonic_and_newest_first() {
    let mut e = KvEngine::new();
    e.set_slowlog_threshold_us(-1);
    for _ in 0..3 {
        e.maybe_push_slowlog(set_args(), Some(peer()), 0);
    }
    let entries = e.slowlog_get(None);
    assert_eq!(entries.len(), 3);
    // Newest-first: the last push (id 3) comes first.
    assert_eq!(entries[0].id, 3);
    assert_eq!(entries[1].id, 2);
    assert_eq!(entries[2].id, 1);
}

#[test]
fn ring_trims_to_max_len_dropping_oldest() {
    let mut e = KvEngine::new();
    e.set_slowlog_threshold_us(-1);
    e.set_slowlog_max_len(2);
    for _ in 0..5 {
        e.maybe_push_slowlog(set_args(), Some(peer()), 0);
    }
    assert_eq!(e.slowlog_len(), 2, "ring must cap at max_len");
    // Newest-first: surviving ids are the last two pushes (4, 5).
    let entries = e.slowlog_get(None);
    assert_eq!(entries[0].id, 5);
    assert_eq!(entries[1].id, 4);
}

#[test]
fn get_returns_newest_first_and_respects_count() {
    let mut e = KvEngine::new();
    e.set_slowlog_threshold_us(-1);
    for _ in 0..3 {
        e.maybe_push_slowlog(set_args(), Some(peer()), 0);
    }
    let all = e.slowlog_get(None);
    assert_eq!(all.len(), 3);
    assert_eq!(all[0].id, 3);
    assert_eq!(all[2].id, 1);
    let limited = e.slowlog_get(Some(2));
    assert_eq!(limited.len(), 2);
    assert_eq!(limited[0].id, 3);
}

#[test]
fn reset_clears_ring() {
    let mut e = KvEngine::new();
    e.set_slowlog_threshold_us(-1);
    e.maybe_push_slowlog(set_args(), Some(peer()), 0);
    assert_eq!(e.slowlog_len(), 1);
    e.slowlog_reset();
    assert_eq!(e.slowlog_len(), 0);
}

#[test]
fn recorded_entry_captures_args_and_peer() {
    let mut e = KvEngine::new();
    e.set_slowlog_threshold_us(-1);
    e.maybe_push_slowlog(set_args(), Some(peer()), 42);
    let entries = e.slowlog_get(None);
    assert_eq!(entries.len(), 1);
    assert_eq!(entries[0].args, set_args());
    assert_eq!(entries[0].duration_us, 42);
    assert_eq!(entries[0].peer, peer());
}

#[test]
fn missing_peer_falls_back_to_unspecified() {
    let mut e = KvEngine::new();
    e.set_slowlog_threshold_us(-1);
    e.maybe_push_slowlog(set_args(), None, 1);
    let entries = e.slowlog_get(None);
    assert_eq!(entries[0].peer, "0.0.0.0:0");
}
