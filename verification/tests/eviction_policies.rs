use ferrum_kv::storage::eviction::{
    decayed_counter, pick_victim, probabilistic_increment, Candidate, EvictionPolicy, LFU_INIT_VAL,
};

fn candidate(name: &str, age_ms: u64, ttl_ms: Option<u64>) -> Candidate {
    candidate_lfu(name, age_ms, ttl_ms, 0)
}

fn candidate_lfu(name: &str, age_ms: u64, ttl_ms: Option<u64>, counter: u8) -> Candidate {
    let now: u128 = 1_000_000_000_000_000;
    Candidate {
        key: name.as_bytes().to_vec(),
        last_access: Some(now - age_ms as u128 * 1_000_000),
        expire_at: ttl_ms.map(|t| now + t as u128 * 1_000_000),
        lfu_counter: counter,
    }
}

#[test]
fn lru_picks_oldest_access() {
    let pick = pick_victim(
        EvictionPolicy::AllKeysLru,
        vec![
            candidate("young", 10, None),
            candidate("old", 1_000, None),
            candidate("mid", 100, None),
        ],
    )
    .unwrap();
    assert_eq!(pick.key, b"old");
}

#[test]
fn volatile_ttl_picks_shortest_remaining() {
    let pick = pick_victim(
        EvictionPolicy::VolatileTtl,
        vec![
            candidate("long", 0, Some(60_000)),
            candidate("short", 0, Some(500)),
            candidate("mid", 0, Some(5_000)),
        ],
    )
    .unwrap();
    assert_eq!(pick.key, b"short");
}

#[test]
fn no_eviction_never_picks() {
    assert!(pick_victim(EvictionPolicy::NoEviction, vec![candidate("a", 0, None)]).is_none());
}

#[test]
fn empty_candidates_return_none() {
    assert!(pick_victim(EvictionPolicy::AllKeysLru, vec![]).is_none());
}

#[test]
fn policy_name_roundtrip() {
    for name in [
        "noeviction",
        "allkeys-lru",
        "volatile-lru",
        "allkeys-lfu",
        "volatile-lfu",
        "allkeys-random",
        "volatile-random",
        "volatile-ttl",
        "allkeys-ahe",
        "volatile-ahe",
    ] {
        let p = EvictionPolicy::from_name(name).unwrap();
        assert_eq!(p.name(), name);
    }
    assert!(EvictionPolicy::from_name("bogus").is_none());
}

#[test]
fn lfu_picks_lowest_counter() {
    let pick = pick_victim(
        EvictionPolicy::AllKeysLfu,
        vec![
            candidate_lfu("hot", 0, None, 200),
            candidate_lfu("cold", 0, None, 3),
            candidate_lfu("warm", 0, None, 50),
        ],
    )
    .unwrap();
    assert_eq!(pick.key, b"cold");
}

#[test]
fn lfu_breaks_ties_by_oldest_access() {
    let pick = pick_victim(
        EvictionPolicy::AllKeysLfu,
        vec![
            candidate_lfu("new", 10, None, 5),
            candidate_lfu("old", 10_000, None, 5),
        ],
    )
    .unwrap();
    assert_eq!(pick.key, b"old");
}

#[test]
fn probabilistic_increment_never_exceeds_max() {
    let mut c = u8::MAX;
    c = probabilistic_increment(c, 0);
    assert_eq!(c, u8::MAX);
}

#[test]
fn probabilistic_increment_fresh_key_advances_on_low_draw() {
    let c = probabilistic_increment(LFU_INIT_VAL, 0);
    assert_eq!(c, LFU_INIT_VAL + 1);
}

#[test]
fn probabilistic_increment_hot_key_rarely_advances() {
    // The chance is about 0.0004; a draw in the middle must not advance it.
    let c = probabilistic_increment(u8::MAX - 1, 1 << 23);
    assert_eq!(c, u8::MAX - 1);
}

#[test]
fn decay_subtracts_one_per_period() {
    assert_eq!(decayed_counter(10, 0, 3, 1), 7);
    assert_eq!(decayed_counter(10, 0, 5, 2), 8);
    assert_eq!(decayed_counter(10, 0, 60, 0), 10); // disabled
    assert_eq!(decayed_counter(2, 0, 100, 1), 0); // saturates at 0
}
