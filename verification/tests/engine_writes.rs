use ferrum_kv::clock::{current_epoch_ms, Clock};
use ferrum_kv::storage::engine::{KvEngine, TtlStatus};
use ferrum_kv::storage::eviction::{EvictionConfig, EvictionPolicy};

fn at(ms: u64) -> Clock {
    Clock { mono_ns: ms * 1_000_000, epoch_ms: 1_700_000_000_000 + ms as i64 }
}

#[test]
fn fetch_live_expires_stale_key() {
    let mut engine = KvEngine::new();
    engine.insert(b"k".to_vec(), b"v".to_vec(), at(0)).unwrap();
    assert!(engine.expire_at(b"k", at(1).epoch_ms, at(0)));

    assert_eq!(engine.fetch_live(b"k", at(5)), None);
    // The expired entry must be physically gone, not just masked.
    assert_eq!(engine.used_memory(), 0);
    assert_eq!(engine.fetch_live(b"k", at(0)), None);
}

#[test]
fn insert_clears_prior_ttl() {
    let mut engine = KvEngine::new();
    engine.set(b"k".to_vec(), b"v".to_vec()).unwrap();
    engine.expire_at_ms(&b"k"[..], current_epoch_ms() + 1000).unwrap();
    assert!(matches!(engine.ttl_ms(&b"k"[..]).unwrap(), TtlStatus::Millis(_)));

    let now = engine.now();
    engine.insert(b"k".to_vec(), b"v2".to_vec(), now).unwrap();
    // A plain SET clears any prior TTL.
    assert!(matches!(engine.ttl_ms(&b"k"[..]).unwrap(), TtlStatus::NoExpire));
}

#[test]
fn insert_keep_ttl_preserves_ttl() {
    let mut engine = KvEngine::new();
    engine.set(b"k".to_vec(), b"v".to_vec()).unwrap();
    engine.expire_at_ms(&b"k"[..], current_epoch_ms() + 1000).unwrap();

    let now = engine.now();
    engine
        .insert_keep_ttl(
            b"k".to_vec(),
            b"v2".to_vec(),
            Some(now.mono_ns as u128 + 1_000_000_000),
            now,
        )
        .unwrap();
    // Writes that change a value in place keep the TTL.
    assert!(matches!(engine.ttl_ms(&b"k"[..]).unwrap(), TtlStatus::Millis(_)));
}

#[test]
fn remove_reports_liveness() {
    let mut engine = KvEngine::new();
    engine.set(b"a".to_vec(), b"1".to_vec()).unwrap();

    let now = engine.now();
    assert!(engine.remove(&b"a"[..], now));
    assert!(!engine.remove(&b"a"[..], now));
    assert!(!engine.remove(&b"missing"[..], now));
    assert_eq!(engine.get(&b"a"[..]).unwrap(), None);
}

#[test]
fn insert_enforces_max_memory() {
    let mut engine = KvEngine::new();
    let cfg = EvictionConfig {
        policy: EvictionPolicy::AllKeysLru,
        max_memory: 1024,
        ..Default::default()
    };
    engine.set_eviction_config(cfg).unwrap();

    for i in 0..200u32 {
        engine.set(format!("key{i:04}").into_bytes(), vec![b'x'; 32]).unwrap();
    }
    // Eviction must keep the live keyspace bounded.
    assert!(engine.dbsize().unwrap() <= 20);
}
