use ferrum_kv::clock::Clock;
use ferrum_kv::storage::entry::ValueEntry;
use ferrum_kv::storage::eviction::EvictionScope;
use ferrum_kv::storage::keyspace::Keyspace;
use ferrum_kv::storage::sieve::{is_near_expiry, SieveState, SIEVE_S_TTL_THRESHOLD_PERCENT};

fn at(ms: u64) -> Clock {
    Clock { mono_ns: ms * 1_000_000, epoch_ms: 1_700_000_000_000 + ms as i64 }
}

/// The instant at which the tests look at their stores, in nanoseconds.
const NOW: u128 = 1_000_000_000;

fn entry_with_ttl(remaining_ms: u64) -> ValueEntry {
    ValueEntry::new_with(b"x".to_vec(), Some(NOW + remaining_ms as u128 * 1_000_000), at(0))
}

fn entry_no_ttl() -> ValueEntry {
    ValueEntry::new(b"x".to_vec(), at(0))
}

fn store_with(entries: Vec<(&str, ValueEntry)>) -> Keyspace {
    let mut m = Keyspace::new();
    for (k, e) in entries {
        m.insert(k.as_bytes().to_vec(), e);
    }
    m
}

#[test]
fn quick_demotion_evicts_unvisited_first() {
    // a visited, b not. SIEVE should evict b (the unvisited one).
    let mut s = SieveState::new();
    s.observe_insert(b"a");
    s.observe_insert(b"b");
    s.observe_access(b"a"); // a.visited = true
    let store = store_with(vec![("a", entry_no_ttl()), ("b", entry_no_ttl())]);
    let victim = s.evict_one(&store, EvictionScope::AllKeys, false, NOW);
    assert_eq!(victim.as_deref(), Some(&b"b"[..]));
}

#[test]
fn all_visited_evicts_hand_position_after_clearing() {
    // Both visited: hand clears a, then b, then wraps to a (now false).
    let mut s = SieveState::new();
    s.observe_insert(b"a");
    s.observe_insert(b"b");
    s.observe_access(b"a");
    s.observe_access(b"b");
    let store = store_with(vec![("a", entry_no_ttl()), ("b", entry_no_ttl())]);
    let victim = s.evict_one(&store, EvictionScope::AllKeys, false, NOW);
    assert_eq!(victim.as_deref(), Some(&b"a"[..]));
}

#[test]
fn single_visited_key_is_evicted() {
    // n = 1, entirely visited: must still yield a victim.
    let mut s = SieveState::new();
    s.observe_insert(b"only");
    s.observe_access(b"only");
    let store = store_with(vec![("only", entry_no_ttl())]);
    let victim = s.evict_one(&store, EvictionScope::AllKeys, false, NOW);
    assert_eq!(victim.as_deref(), Some(&b"only"[..]));
}

#[test]
fn empty_queue_yields_no_victim() {
    let mut s = SieveState::new();
    let store = store_with(vec![]);
    assert!(
        s.evict_one(&store, EvictionScope::AllKeys, false, NOW)
            .is_none()
    );
}

#[test]
fn sieve_volatile_scope_skips_keys_without_ttl() {
    // Only `a` has a TTL; under volatile scope it is the sole candidate.
    let mut s = SieveState::new();
    s.observe_insert(b"a");
    s.observe_insert(b"b"); // no TTL
    s.observe_access(b"a");
    let store = store_with(vec![("a", entry_with_ttl(60_000)), ("b", entry_no_ttl())]);
    let victim = s.evict_one(&store, EvictionScope::Volatile, false, NOW);
    assert_eq!(victim.as_deref(), Some(&b"a"[..]));
}

#[test]
fn volatile_scope_with_no_ttl_keys_yields_none() {
    let mut s = SieveState::new();
    s.observe_insert(b"a");
    s.observe_insert(b"b");
    let store = store_with(vec![("a", entry_no_ttl()), ("b", entry_no_ttl())]);
    assert!(
        s.evict_one(&store, EvictionScope::Volatile, false, NOW)
            .is_none()
    );
}

#[test]
fn sieve_s_force_demotes_near_expiry_even_when_visited() {
    // Both visited. `far` is first in the queue, `near` is short-lived.
    // Plain SIEVE would evict `far` (FIFO order); SIEVE-S should evict
    // the near-expiry `near` instead.
    let mut plain = SieveState::new();
    plain.observe_insert(b"far");
    plain.observe_insert(b"near");
    plain.observe_access(b"far");
    plain.observe_access(b"near");
    let store = store_with(vec![
        ("far", entry_with_ttl(600_000)), // 10 min remaining
        ("near", entry_with_ttl(2_000)),  // 2 s remaining
    ]);

    let plain_victim = plain.evict_one(&store, EvictionScope::AllKeys, false, NOW);
    assert_eq!(plain_victim.as_deref(), Some(&b"far"[..]));

    let mut aware = SieveState::new();
    aware.observe_insert(b"far");
    aware.observe_insert(b"near");
    aware.observe_access(b"far");
    aware.observe_access(b"near");
    let aware_victim = aware.evict_one(&store, EvictionScope::AllKeys, true, NOW);
    assert_eq!(aware_victim.as_deref(), Some(&b"near"[..]));
}

#[test]
fn near_expiry_is_below_horizon_threshold() {
    // 2s remaining vs 60s horizon * 0.1 = 6s, near expiry.
    assert!(is_near_expiry(
        &entry_with_ttl(2_000),
        NOW,
        SIEVE_S_TTL_THRESHOLD_PERCENT
    ));
    // 30s remaining is above the 6s window, not near expiry.
    assert!(!is_near_expiry(
        &entry_with_ttl(30_000),
        NOW,
        SIEVE_S_TTL_THRESHOLD_PERCENT
    ));
}

#[test]
fn observe_remove_keeps_queue_consistent() {
    let mut s = SieveState::new();
    s.observe_insert(b"a");
    s.observe_insert(b"b");
    s.observe_insert(b"c");
    s.observe_remove(b"b");
    assert_eq!(s.len(), 2);
    let store = store_with(vec![("a", entry_no_ttl()), ("c", entry_no_ttl())]);
    // Remaining queue order [a, c]; evict should pick a (first unvisited).
    let victim = s.evict_one(&store, EvictionScope::AllKeys, false, NOW);
    assert_eq!(victim.as_deref(), Some(&b"a"[..]));
}

#[test]
fn sieve_rebuild_repopulates_from_store() {
    let mut s = SieveState::new();
    s.observe_insert(b"stale");
    let store = store_with(vec![("a", entry_no_ttl()), ("b", entry_no_ttl())]);
    s.rebuild(&store, EvictionScope::AllKeys);
    assert_eq!(s.len(), 2);
    let victim = s.evict_one(&store, EvictionScope::AllKeys, false, NOW);
    assert!(victim.is_some());
}

#[test]
fn the_first_eligible_key_without_an_access_goes() {
    let mut s = SieveState::new();
    for key in [b"a", b"b", b"c", b"d", b"e"] {
        s.observe_insert(key);
    }
    for key in [b"b", b"d", b"z"] {
        s.observe_access(key);
    }
    // a is gone from the store and c has no deadline.
    let store = store_with(vec![
        ("b", entry_with_ttl(90_000)),
        ("c", entry_no_ttl()),
        ("d", entry_with_ttl(90_000)),
        ("e", entry_with_ttl(90_000)),
    ]);
    let mut victims = Vec::new();
    while let Some(v) = s.evict_one(&store, EvictionScope::Volatile, false, NOW) {
        victims.push(v);
    }
    assert_eq!(victims, vec![b"e".to_vec(), b"b".to_vec(), b"d".to_vec()]);
    assert_eq!(s.len(), 0);
}

#[test]
fn a_key_without_a_deadline_counts_as_close_to_its_expiry() {
    assert!(is_near_expiry(&entry_no_ttl(), NOW, SIEVE_S_TTL_THRESHOLD_PERCENT));
    assert!(is_near_expiry(&entry_no_ttl(), NOW, 0));
    let filled = || {
        let mut s = SieveState::new();
        for key in [&b"far"[..], b"forever"] {
            s.observe_insert(key);
            s.observe_access(key);
        }
        s
    };
    let store = store_with(vec![("far", entry_with_ttl(90_000)), ("forever", entry_no_ttl())]);
    let aware = filled().evict_one(&store, EvictionScope::AllKeys, true, NOW);
    assert_eq!(aware.as_deref(), Some(&b"forever"[..]));
    let unaware = filled().evict_one(&store, EvictionScope::AllKeys, false, NOW);
    assert_eq!(unaware.as_deref(), Some(&b"far"[..]));
}
