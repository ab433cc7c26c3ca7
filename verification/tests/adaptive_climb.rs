use ferrum_kv::clock::Clock;
use ferrum_kv::storage::adaptive_climb::AdaptiveClimbState;
use ferrum_kv::storage::entry::ValueEntry;
use ferrum_kv::storage::eviction::EvictionScope;
use ferrum_kv::storage::keyspace::Keyspace;

fn at(ms: u64) -> Clock {
    Clock { mono_ns: ms * 1_000_000, epoch_ms: 1_700_000_000_000 + ms as i64 }
}

/// The instant at which the tests look at their stores, in nanoseconds.
const NOW: u128 = 1_000_000_000;

fn entry_with_ttl(remaining_ms: u64) -> ValueEntry {
    ValueEntry::new_with(b"x".to_vec(), Some(NOW + remaining_ms as u128 * 1_000_000), at(0))
}

fn entry_no_ttl() -> ValueEntry {
    ValueEntry::new(b"x".to_vec(), at(0))
}

fn store_with(entries: Vec<(&str, ValueEntry)>) -> Keyspace {
    let mut m = Keyspace::new();
    for (k, e) in entries {
        m.insert(k.as_bytes().to_vec(), e);
    }
    m
}

#[test]
fn fresh_insert_enters_at_mru() {
    // First key is the only key (MRU). Second key prepends, pushing the
    // first to the LRU end.
    let mut s = AdaptiveClimbState::new();
    s.observe_insert(b"a");
    s.observe_insert(b"b");
    assert_eq!(s.position(b"b"), Some(0));
    assert_eq!(s.position(b"a"), Some(1));
}

#[test]
fn evict_picks_lru_end() {
    let mut s = AdaptiveClimbState::new();
    s.observe_insert(b"a");
    s.observe_insert(b"b"); // b is MRU, a is LRU
    let store = store_with(vec![("a", entry_no_ttl()), ("b", entry_no_ttl())]);
    let victim = s.evict_one(&store, EvictionScope::AllKeys);
    assert_eq!(victim.as_deref(), Some(&b"a"[..]));
}

#[test]
fn hit_promotes_key_toward_mru() {
    // a (LRU), b (MRU). A hit on `a` must move it up by `jump`.
    let mut s = AdaptiveClimbState::new();
    s.observe_insert(b"a");
    s.observe_insert(b"b");
    assert_eq!(s.position(b"a"), Some(1));
    s.observe_access(b"a");
    // After a hit `jump` was at least decremented and `a` moved up; it is
    // now closer to (or at) the MRU than its previous LRU position.
    assert!(s.position(b"a").unwrap() < 1);
}

#[test]
fn repeated_hits_keep_hot_key_at_mru() {
    let mut s = AdaptiveClimbState::new();
    s.observe_insert(b"a");
    s.observe_insert(b"b");
    s.observe_insert(b"c"); // order: c MRU, b, a LRU
    for _ in 0..5 {
        s.observe_access(b"a"); // repeatedly hit the LRU key
    }
    // A stream of hits drives `jump` toward 1 (CLIMB-like), so `a`
    // climbs all the way to the MRU end.
    assert_eq!(s.position(b"a"), Some(0));
}

#[test]
fn overwrite_reenters_like_a_miss() {
    // Insert a (MRU), then overwrite it. The key re-enters and the list
    // still contains exactly one entry.
    let mut s = AdaptiveClimbState::new();
    s.observe_insert(b"a");
    s.observe_access(b"a");
    s.observe_insert(b"a");
    assert_eq!(s.len(), 1);
    assert_eq!(s.position(b"a"), Some(0));
}

#[test]
fn adaptive_climb_volatile_scope_skips_keys_without_ttl() {
    let mut s = AdaptiveClimbState::new();
    s.observe_insert(b"a"); // no TTL
    s.observe_insert(b"b"); // no TTL
    let store = store_with(vec![("a", entry_no_ttl()), ("b", entry_no_ttl())]);
    // No key has a TTL under volatile scope, no eligible victim.
    assert!(s.evict_one(&store, EvictionScope::Volatile).is_none());
}

#[test]
fn volatile_scope_evicts_ttl_key_at_lru() {
    let mut s = AdaptiveClimbState::new();
    s.observe_insert(b"a"); // no TTL
    s.observe_insert(b"b"); // TTL, LRU end, sole eligible victim
    let store = store_with(vec![("a", entry_no_ttl()), ("b", entry_with_ttl(60_000))]);
    let victim = s.evict_one(&store, EvictionScope::Volatile);
    assert_eq!(victim.as_deref(), Some(&b"b"[..]));
}

#[test]
fn tombstone_in_store_is_skipped() {
    let mut s = AdaptiveClimbState::new();
    s.observe_insert(b"a");
    s.observe_insert(b"b");
    // `a` is gone from the store but still in the list: `b` (LRU-end
    // eligible) must be chosen instead.
    let store = store_with(vec![("b", entry_no_ttl())]);
    let victim = s.evict_one(&store, EvictionScope::AllKeys);
    assert_eq!(victim.as_deref(), Some(&b"b"[..]));
}

#[test]
fn jump_starts_at_one_when_empty() {
    let mut s = AdaptiveClimbState::new();
    s.observe_insert(b"a");
    assert_eq!(s.jump(), 1);
}

#[test]
fn adaptive_climb_rebuild_repopulates_from_store() {
    let mut s = AdaptiveClimbState::new();
    s.observe_insert(b"stale");
    let store = store_with(vec![("a", entry_no_ttl()), ("b", entry_no_ttl())]);
    s.rebuild(&store, EvictionScope::AllKeys);
    assert_eq!(s.len(), 2);
    let victim = s.evict_one(&store, EvictionScope::AllKeys);
    assert!(victim.is_some());
}
